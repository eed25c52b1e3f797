//! Nesting issue rows into a parent/child forest.
use vstd::prelude::*;

use crate::model::{IssueRow, IssueState};
use crate::text::{owned, string_from_chars};

verus! {

/// One issue with the issues nested under it.
#[derive(Debug, PartialEq, Eq)]
pub struct TreeNode {
    pub issue: IssueRow,
    pub children: Vec<TreeNode>,
}

/// Some row of `rows` has number `n`.
pub open spec fn has_number(rows: Seq<IssueRow>, n: u64) -> bool {
    exists|i: int| 0 <= i < rows.len() && (#[trigger] rows[i]).number == n
}

/// No two rows share a number.
pub open spec fn numbers_unique(rows: Seq<IssueRow>) -> bool {
    forall|i: int, j: int|
        0 <= i < rows.len() && 0 <= j < rows.len() && i != j ==> (#[trigger] rows[i]).number
            != (#[trigger] rows[j]).number
}

/// The parent under which `r` nests among `rows`: its parent number when some
/// row has that number, and none otherwise (a missing parent makes a root).
pub open spec fn effective_parent(rows: Seq<IssueRow>, r: IssueRow) -> Option<u64> {
    match r.parent_number {
        Some(p) => if has_number(rows, p) {
            Some(p)
        } else {
            None
        },
        None => None,
    }
}

/// `r` as it stands in the forest of `rows`: its parent number is kept when
/// some row has that number and dropped otherwise.
pub open spec fn normalized(rows: Seq<IssueRow>, r: IssueRow) -> IssueRow {
    IssueRow { parent_number: effective_parent(rows, r), ..r }
}

/// The rows of `rs`, in order, whose effective parent among `all` is `parent`.
pub open spec fn rows_under(rs: Seq<IssueRow>, all: Seq<IssueRow>, parent: Option<u64>) -> Seq<
    IssueRow,
>
    decreases rs.len(),
{
    if rs.len() == 0 {
        seq![]
    } else {
        let before = rows_under(rs.drop_last(), all, parent);
        if effective_parent(all, rs.last()) == parent {
            before.push(rs.last())
        } else {
            before
        }
    }
}

/// The rows nested directly under `parent` (`None`: the roots), in input order.
pub open spec fn children_of(rows: Seq<IssueRow>, parent: Option<u64>) -> Seq<IssueRow> {
    rows_under(rows, rows, parent)
}

/// `nodes` is the forest of `rows` below `parent`: its nodes are the rows
/// nested directly under `parent`, in input order, each with a parent that
/// is not among the rows dropped, and each node's children are in turn the
/// forest below that node's number.
pub open spec fn is_forest(nodes: Seq<TreeNode>, rows: Seq<IssueRow>, parent: Option<u64>) -> bool
    decreases nodes,
{
    let kids = children_of(rows, parent);
    &&& nodes.len() == kids.len()
    &&& forall|i: int|
        0 <= i < nodes.len() ==> {
            &&& (#[trigger] nodes[i]).issue == normalized(rows, kids[i])
            &&& is_forest(nodes[i].children@, rows, Some(kids[i].number))
        }
}

proof fn lemma_rows_under_take(rs: Seq<IssueRow>, all: Seq<IssueRow>, parent: Option<u64>, i: int)
    requires
        0 <= i < rs.len(),
    ensures
        rows_under(rs.take(i + 1), all, parent) == if effective_parent(all, rs[i]) == parent {
            rows_under(rs.take(i), all, parent).push(rs[i])
        } else {
            rows_under(rs.take(i), all, parent)
        },
{
    assert(rs.take(i + 1).drop_last() =~= rs.take(i));
}

/// Every row nested under `parent` is a row of `rs` whose effective parent is
/// `parent`.
proof fn lemma_rows_under_members(rs: Seq<IssueRow>, all: Seq<IssueRow>, parent: Option<u64>)
    ensures
        forall|k: int|
            0 <= k < rows_under(rs, all, parent).len() ==> {
                &&& effective_parent(all, #[trigger] rows_under(rs, all, parent)[k]) == parent
                &&& exists|j: int| 0 <= j < rs.len() && rs[j] == rows_under(rs, all, parent)[k]
            },
    decreases rs.len(),
{
    if rs.len() > 0 {
        lemma_rows_under_members(rs.drop_last(), all, parent);
        let before = rows_under(rs.drop_last(), all, parent);
        assert forall|k: int| 0 <= k < rows_under(rs, all, parent).len() implies {
            &&& effective_parent(all, #[trigger] rows_under(rs, all, parent)[k]) == parent
            &&& exists|j: int| 0 <= j < rs.len() && rs[j] == rows_under(rs, all, parent)[k]
        } by {
            if k < before.len() {
                assert(rows_under(rs, all, parent)[k] == before[k]);
                let j = choose|j: int|
                    0 <= j < rs.drop_last().len() && rs.drop_last()[j] == before[k];
                assert(rs[j] == before[k]);
            } else {
                assert(rows_under(rs, all, parent)[k] == rs.last());
                assert(rs[rs.len() - 1] == rs.last());
            }
        }
    }
}

/// `path` lists the numbers from a root down to the node that is being
/// expanded: distinct row numbers, the first a root's, each next one a child
/// of the one before.
pub open spec fn is_descent(rows: Seq<IssueRow>, path: Seq<u64>) -> bool {
    &&& path.no_duplicates()
    &&& forall|j: int|
        0 <= j < path.len() ==> exists|k: int|
            0 <= k < rows.len() && #[trigger] rows[k].number == #[trigger] path[j]
                && effective_parent(rows, rows[k]) == if j == 0 {
                None
            } else {
                Some(path[j - 1])
            }
}

pub open spec fn path_end(path: Seq<u64>) -> Option<u64> {
    if path.len() == 0 {
        None
    } else {
        Some(path.last())
    }
}

/// A descent never repeats a number, so it is no longer than the rows.
proof fn lemma_descent_len(rows: Seq<IssueRow>, path: Seq<u64>)
    requires
        is_descent(rows, path),
    ensures
        path.len() <= rows.len(),
{
    let nums = rows.map_values(|r: IssueRow| r.number);
    assert forall|x: u64| path.to_set().contains(x) implies nums.to_set().contains(x) by {
        let j = choose|j: int| 0 <= j < path.len() && path[j] == x;
        let k = choose|k: int|
            0 <= k < rows.len() && #[trigger] rows[k].number == #[trigger] path[j]
                && effective_parent(rows, rows[k]) == if j == 0 {
                None
            } else {
                Some(path[j - 1])
            };
        assert(nums[k] == x);
    }
    path.unique_seq_to_set();
    nums.lemma_cardinality_of_set();
    vstd::seq_lib::seq_to_set_is_finite(nums);
    vstd::set_lib::lemma_len_subset(path.to_set(), nums.to_set());
}

/// A row nested under the end of a descent extends the descent.
proof fn lemma_descent_extend(rows: Seq<IssueRow>, path: Seq<u64>, c: int)
    requires
        numbers_unique(rows),
        is_descent(rows, path),
        0 <= c < rows.len(),
        effective_parent(rows, rows[c]) == path_end(path),
    ensures
        is_descent(rows, path.push(rows[c].number)),
{
    let n = rows[c].number;
    assert forall|j: int| 0 <= j < path.len() implies path[j] != n by {
        let k = choose|k: int|
            0 <= k < rows.len() && #[trigger] rows[k].number == #[trigger] path[j]
                && effective_parent(rows, rows[k]) == if j == 0 {
                None
            } else {
                Some(path[j - 1])
            };
        if path[j] == n {
            assert(k == c);
            if j == 0 {
                assert(path_end(path) is Some);
            } else {
                assert(path[j - 1] == path.last());
                assert(path[j - 1] == path[path.len() - 1]);
            }
        }
    }
    let p2 = path.push(n);
    assert forall|j: int| 0 <= j < p2.len() implies exists|k: int|
        0 <= k < rows.len() && #[trigger] rows[k].number == #[trigger] p2[j]
            && effective_parent(rows, rows[k]) == if j == 0 {
            None
        } else {
            Some(p2[j - 1])
        } by {
        if j < path.len() {
            assert(p2[j] == path[j]);
            let k = choose|k: int|
                0 <= k < rows.len() && #[trigger] rows[k].number == #[trigger] path[j]
                    && effective_parent(rows, rows[k]) == if j == 0 {
                    None
                } else {
                    Some(path[j - 1])
                };
            assert(rows[k].number == p2[j]);
        } else {
            assert(p2[j] == n);
            assert(rows[c].number == p2[j]);
        }
    }
}

/// The effective parent of each row, computed once.
fn effective_parents(rows: &[IssueRow]) -> (r: Vec<Option<u64>>)
    ensures
        r@.len() == rows@.len(),
        forall|i: int| 0 <= i < rows@.len() ==> r@[i] == effective_parent(rows@, #[trigger] rows@[i]),
{
    let n = rows.len();
    let mut out: Vec<Option<u64>> = Vec::new();
    let mut i: usize = 0;
    while i < n
        invariant
            n == rows@.len(),
            i <= n,
            out@.len() == i,
            forall|m: int| 0 <= m < i ==> out@[m] == effective_parent(rows@, #[trigger] rows@[m]),
        decreases n - i,
    {
        let eff = match rows[i].parent_number {
            Some(p) => {
                let mut found = false;
                let mut k: usize = 0;
                while k < n
                    invariant
                        n == rows@.len(),
                        k <= n,
                        found == exists|m: int| 0 <= m < k && (#[trigger] rows@[m]).number == p,
                    decreases n - k,
                {
                    if rows[k].number == p {
                        found = true;
                    }
                    k += 1;
                }
                if found {
                    Some(p)
                } else {
                    None
                }
            },
            None => None,
        };
        out.push(eff);
        i += 1;
    }
    out
}

/// The forest below `parent`, where `path` is the descent that ends at it.
#[verifier::rlimit(40)]
fn build(rows: &[IssueRow], eff: &Vec<Option<u64>>, parent: Option<u64>, Ghost(path): Ghost<Seq<u64>>) -> (r: Vec<TreeNode>)
    requires
        numbers_unique(rows@),
        eff@.len() == rows@.len(),
        forall|i: int| 0 <= i < rows@.len() ==> eff@[i] == effective_parent(rows@, #[trigger] rows@[i]),
        is_descent(rows@, path),
        parent == path_end(path),
    ensures
        is_forest(r@, rows@, parent),
    decreases rows@.len() - path.len(),
{
    proof {
        lemma_descent_len(rows@, path);
    }
    let n = rows.len();
    let mut nodes: Vec<TreeNode> = Vec::new();
    let mut i: usize = 0;
    while i < n
        invariant
            n == rows@.len(),
            i <= n,
            numbers_unique(rows@),
            eff@.len() == rows@.len(),
            forall|j: int| 0 <= j < rows@.len() ==> eff@[j] == effective_parent(rows@, #[trigger] rows@[j]),
            is_descent(rows@, path),
            parent == path_end(path),
            path.len() <= rows@.len(),
            nodes@.len() == rows_under(rows@.take(i as int), rows@, parent).len(),
            forall|m: int|
                0 <= m < nodes@.len() ==> {
                    &&& (#[trigger] nodes@[m]).issue == normalized(
                        rows@,
                        rows_under(rows@.take(i as int), rows@, parent)[m],
                    )
                    &&& is_forest(
                        nodes@[m].children@,
                        rows@,
                        Some(rows_under(rows@.take(i as int), rows@, parent)[m].number),
                    )
                },
        decreases n - i,
    {
        proof {
            lemma_rows_under_take(rows@, rows@, parent, i as int);
        }
        if eff[i] == parent {
            let number = rows[i].number;
            proof {
                lemma_descent_extend(rows@, path, i as int);
                lemma_descent_len(rows@, path.push(number));
            }
            let children = build(rows, eff, Some(number), Ghost(path.push(number)));
            let mut issue = rows[i].duplicate();
            issue.parent_number = eff[i];
            nodes.push(TreeNode { issue, children });
        }
        i += 1;
    }
    assert(rows@.take(n as int) =~= rows@);
    nodes
}

/// Nests `rows` by parent: the roots are the rows whose parent is absent or
/// not among `rows` (a parent that is not among them is dropped from the
/// row), and under each row stand the rows whose parent is its number, all in
/// input order.
pub fn build_tree(rows: &[IssueRow]) -> (r: Vec<TreeNode>)
    requires
        numbers_unique(rows@),
    ensures
        is_forest(r@, rows@, None),
{
    let eff = effective_parents(rows);
    build(rows, &eff, None, Ghost(Seq::empty()))
}

/// Whether no two rows share a number (issue numbers are unique within a
/// repository; `build_tree` needs this).
pub fn has_unique_numbers(rows: &[IssueRow]) -> (r: bool)
    ensures
        r == numbers_unique(rows@),
{
    let n = rows.len();
    let mut i: usize = 0;
    while i < n
        invariant
            n == rows@.len(),
            i <= n,
            forall|a: int, b: int|
                0 <= a < i && 0 <= b < n && a != b ==> (#[trigger] rows@[a]).number != (#[trigger] rows@[b]).number,
        decreases n - i,
    {
        let mut j: usize = 0;
        while j < n
            invariant
                n == rows@.len(),
                i < n,
                j <= n,
                forall|a: int, b: int|
                    0 <= a < i && 0 <= b < n && a != b ==> (#[trigger] rows@[a]).number != (#[trigger] rows@[b]).number,
                forall|b: int| 0 <= b < j && b != i ==> rows@[i as int].number != (#[trigger] rows@[b]).number,
            decreases n - j,
        {
            if j != i && rows[i].number == rows[j].number {
                return false;
            }
            j += 1;
        }
        i += 1;
    }
    true
}

/// Every node of a forest stands for a row of the input, with the parent
/// under which it nests: the forest's parent, which is that row's parent when
/// it is among the rows, and none (a root) otherwise.
pub proof fn lemma_forest_nodes_are_rows(nodes: Seq<TreeNode>, rows: Seq<IssueRow>, parent: Option<u64>)
    requires
        is_forest(nodes, rows, parent),
    ensures
        forall|i: int|
            0 <= i < nodes.len() ==> {
                &&& exists|j: int|
                    0 <= j < rows.len() && (#[trigger] nodes[i]).issue == normalized(rows, rows[j])
                &&& nodes[i].issue.parent_number == parent
                &&& effective_parent(rows, nodes[i].issue) == parent
                &&& is_forest(nodes[i].children@, rows, Some(nodes[i].issue.number))
            },
{
    lemma_rows_under_members(rows, rows, parent);
    assert forall|i: int| 0 <= i < nodes.len() implies {
        &&& exists|j: int|
            0 <= j < rows.len() && (#[trigger] nodes[i]).issue == normalized(rows, rows[j])
        &&& nodes[i].issue.parent_number == parent
        &&& effective_parent(rows, nodes[i].issue) == parent
        &&& is_forest(nodes[i].children@, rows, Some(nodes[i].issue.number))
    } by {
        let kids = children_of(rows, parent);
        assert(nodes[i].issue == normalized(rows, kids[i]));
        let j = choose|j: int| 0 <= j < rows.len() && rows[j] == kids[i];
        assert(effective_parent(rows, kids[i]) == parent);
        if let Some(p) = parent {
            assert(has_number(rows, p));
        }
    }
}

/// `2026-01-01T00:00:00Z`.
pub open spec fn sample_stamp() -> Seq<char> {
    seq!['2', '0', '2', '6', '-', '0', '1', '-', '0', '1', 'T', '0', '0', ':', '0', '0', ':', '0', '0', 'Z']
}

/// A row with the given number, parent and title, open, with an empty body
/// and fixed timestamps.
pub fn sample(number: u64, parent: Option<u64>, title: &str) -> (r: IssueRow)
    ensures
        r.created_at@ == sample_stamp(),
        r.updated_at@ == sample_stamp(),
        r.number == number,
        r.parent_number == parent,
        r.title@ == title@,
        r.state == IssueState::Open,
        r.body@.len() == 0,
{
    let stamp = vec!['2', '0', '2', '6', '-', '0', '1', '-', '0', '1', 'T', '0', '0', ':', '0', '0', ':', '0', '0', 'Z'];
    assert(stamp@ =~= sample_stamp());
    IssueRow {
        number,
        title: owned(title),
        body: String::new(),
        state: IssueState::Open,
        parent_number: parent,
        created_at: string_from_chars(stamp.as_slice()),
        updated_at: string_from_chars(stamp.as_slice()),
    }
}

} // verus!
