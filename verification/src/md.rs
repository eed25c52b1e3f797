//! Laying out an issue body written in Markdown as a list of blocks to show:
//! headings, list items with bullets, code blocks and rules.
use vstd::prelude::*;

use pulldown_cmark::{Event, TagEnd};

use crate::text::{push_chars, string_from_chars, trim_end};

verus! {

#[verifier::external_type_specification]
#[verifier::external_body]
pub struct ExTagEnd(pulldown_cmark::TagEnd);

/// One event of the Markdown parser; a start or end carries the kind of
/// its tag.
#[derive(Debug)]
pub enum MdEvent {
    Start(MdTag),
    End(MdTag),
    Text(String),
    Code(String),
    SoftBreak,
    HardBreak,
    Rule,
    Other,
}

/// The kinds of tag that the layout tells apart: a heading with its level
/// (1 to 6), and every other tag as `Other`.
#[derive(Clone, Copy, Debug, PartialEq, Eq, Structural)]
pub enum MdTag {
    Paragraph,
    Heading(u8),
    List,
    Item,
    CodeBlock,
    Other,
}

/// How a block of text is shown.
#[derive(Clone, Copy, Debug, PartialEq, Eq, Structural)]
pub enum MdStyle {
    /// A level-1 heading.
    Title,
    /// A level-2 or level-3 heading: strong and a little larger.
    Subtitle,
    /// A deeper heading: strong.
    Strong,
    /// Body text.
    Plain,
}

/// One block to show.
#[derive(Debug, PartialEq, Eq)]
pub enum MdBlock {
    Text { style: MdStyle, text: String },
    Code(String),
    Rule,
}

/// A block, with its texts as characters.
pub enum BlockView {
    Text(MdStyle, Seq<char>),
    Code(Seq<char>),
    Rule,
}

pub open spec fn block_view(b: MdBlock) -> BlockView {
    match b {
        MdBlock::Text { style, text } => BlockView::Text(style, text@),
        MdBlock::Code(c) => BlockView::Code(c@),
        MdBlock::Rule => BlockView::Rule,
    }
}

/// The parser's events for a Markdown text (`pulldown_cmark::Parser::new`).
pub uninterp spec fn markdown_events_of(text: Seq<char>) -> Seq<MdEvent>;

/// A parser tag converted to the layout's kind, one arm per variant (a
/// heading's level as its number). It states nothing of its own: it serves
/// `markdown_events` alone, whose named result holds what it gives.
#[verifier::external_body]
fn md_tag(t: TagEnd) -> MdTag {
    match t {
        TagEnd::Paragraph => MdTag::Paragraph,
        TagEnd::Heading(level) => MdTag::Heading(level as u8),
        TagEnd::List(_) => MdTag::List,
        TagEnd::Item => MdTag::Item,
        TagEnd::CodeBlock => MdTag::CodeBlock,
        _ => MdTag::Other,
    }
}

/// The events of `pulldown_cmark::Parser::new(markdown)`, each converted one
/// for one: texts copied, a tag (a start's given by `Tag::to_end`) by
/// `md_tag`. The sequence is named, not stated: it is the parser's result on
/// the text.
#[verifier::external_body]
fn markdown_events(markdown: &str) -> (r: Vec<MdEvent>)
    ensures
        r@ == markdown_events_of(markdown@),
{
    let mut out = Vec::new();
    for e in pulldown_cmark::Parser::new(markdown) {
        out.push(match e {
            Event::Start(t) => MdEvent::Start(md_tag(t.to_end())),
            Event::End(t) => MdEvent::End(md_tag(t)),
            Event::Text(s) => MdEvent::Text(s.to_string()),
            Event::Code(s) => MdEvent::Code(s.to_string()),
            Event::SoftBreak => MdEvent::SoftBreak,
            Event::HardBreak => MdEvent::HardBreak,
            Event::Rule => MdEvent::Rule,
            _ => MdEvent::Other,
        });
    }
    out
}

// ---------------------------------------------------------------------------
// Layout specification
// ---------------------------------------------------------------------------

/// The layout state after some events.
pub struct MdFold {
    pub blocks: Seq<BlockView>,
    pub paragraph: Seq<char>,
    pub heading: Option<u8>,
    pub depth: nat,
    pub in_code: bool,
    pub code: Seq<char>,
}

pub open spec fn md_start() -> MdFold {
    MdFold {
        blocks: seq![],
        paragraph: seq![],
        heading: None,
        depth: 0,
        in_code: false,
        code: seq![],
    }
}

pub open spec fn style_of(h: Option<u8>) -> MdStyle {
    match h {
        Some(l) => if l == 1 {
            MdStyle::Title
        } else if l == 2 || l == 3 {
            MdStyle::Subtitle
        } else {
            MdStyle::Strong
        },
        None => MdStyle::Plain,
    }
}

/// Two spaces per level.
pub open spec fn indent(n: nat) -> Seq<char>
    decreases n,
{
    if n == 0 {
        seq![]
    } else {
        indent((n - 1) as nat) + seq![' ', ' ']
    }
}

/// The bullet before a text inside `depth` nested lists.
pub open spec fn list_prefix(depth: nat) -> Seq<char> {
    if depth > 0 {
        indent((depth - 1) as nat) + seq!['•', ' ']
    } else {
        seq![]
    }
}

/// Ends the paragraph in progress: unless it is blank at its end, it becomes
/// a text block in the heading's style (which is then used up), after the
/// list bullet.
pub open spec fn flush(st: MdFold) -> MdFold {
    let text = trim_end(st.paragraph);
    if text.len() == 0 {
        MdFold { paragraph: seq![], ..st }
    } else {
        MdFold {
            blocks: st.blocks.push(BlockView::Text(style_of(st.heading), list_prefix(st.depth) + text)),
            paragraph: seq![],
            heading: None,
            ..st
        }
    }
}

/// The text of a text or inline-code event goes to the code block in
/// progress or to the paragraph.
pub open spec fn add_text(st: MdFold, t: Seq<char>) -> MdFold {
    if st.in_code {
        MdFold { code: st.code + t, ..st }
    } else {
        MdFold { paragraph: st.paragraph + t, ..st }
    }
}

/// The layout state after one more event.
pub open spec fn md_step(st: MdFold, e: MdEvent) -> MdFold {
    match e {
        MdEvent::Start(t) => match t {
            MdTag::Heading(l) => MdFold { heading: Some(l), ..flush(st) },
            MdTag::List => MdFold { depth: flush(st).depth + 1, ..flush(st) },
            MdTag::Item => flush(st),
            MdTag::CodeBlock => MdFold { in_code: true, code: seq![], ..flush(st) },
            _ => st,
        },
        MdEvent::End(t) => match t {
            MdTag::Heading(_) => flush(st),
            MdTag::List => MdFold {
                depth: if flush(st).depth > 0 {
                    (flush(st).depth - 1) as nat
                } else {
                    0
                },
                ..flush(st)
            },
            MdTag::Item => flush(st),
            MdTag::CodeBlock => MdFold {
                blocks: st.blocks.push(BlockView::Code(trim_end(st.code))),
                in_code: false,
                code: seq![],
                ..st
            },
            MdTag::Paragraph => flush(st),
            MdTag::Other => st,
        },
        MdEvent::Text(s) => add_text(st, s@),
        MdEvent::Code(s) => add_text(st, s@),
        MdEvent::SoftBreak => add_text(st, seq!['\n']),
        MdEvent::HardBreak => add_text(st, seq!['\n']),
        MdEvent::Rule => MdFold { blocks: flush(st).blocks.push(BlockView::Rule), ..flush(st) },
        MdEvent::Other => st,
    }
}

/// The layout state after the events `es`.
pub open spec fn md_fold(es: Seq<MdEvent>) -> MdFold
    decreases es.len(),
{
    if es.len() == 0 {
        md_start()
    } else {
        md_step(md_fold(es.drop_last()), es.last())
    }
}

/// The blocks that the events `es` lay out to.
pub open spec fn md_blocks(es: Seq<MdEvent>) -> Seq<BlockView> {
    flush(md_fold(es)).blocks
}

// ---------------------------------------------------------------------------
// Executable layout
// ---------------------------------------------------------------------------

/// The layout state while the events are walked.
struct Layout {
    blocks: Vec<MdBlock>,
    paragraph: Vec<char>,
    heading: Option<u8>,
    depth: usize,
    in_code: bool,
    code: Vec<char>,
}

impl Layout {
    spec fn matches(&self, st: MdFold) -> bool {
        &&& self.blocks@.len() == st.blocks.len()
        &&& forall|i: int| 0 <= i < st.blocks.len() ==> block_view(#[trigger] self.blocks@[i]) == st.blocks[i]
        &&& self.paragraph@ == st.paragraph
        &&& self.heading == st.heading
        &&& self.depth == st.depth
        &&& self.in_code == st.in_code
        &&& self.code@ == st.code
    }
}

fn style_for(h: Option<u8>) -> (s: MdStyle)
    ensures
        s == style_of(h),
{
    match h {
        Some(l) => if l == 1 {
            MdStyle::Title
        } else if l == 2 || l == 3 {
            MdStyle::Subtitle
        } else {
            MdStyle::Strong
        },
        None => MdStyle::Plain,
    }
}

fn prefix_for(depth: usize) -> (r: Vec<char>)
    ensures
        r@ == list_prefix(depth as nat),
{
    if depth == 0 {
        return Vec::new();
    }
    let mut r: Vec<char> = Vec::new();
    let mut k: usize = 0;
    while k < depth - 1
        invariant
            0 < depth,
            k <= depth - 1,
            r@ == indent(k as nat),
        decreases depth - 1 - k,
    {
        r.push(' ');
        r.push(' ');
        assert(indent((k + 1) as nat) == indent(k as nat) + seq![' ', ' ']);
        assert(r@ =~= indent(k as nat) + seq![' ', ' ']);
        k += 1;
    }
    let ghost before = r@;
    r.push('•');
    r.push(' ');
    assert(r@ =~= before + seq!['•', ' ']);
    r
}

/// `str::trim_end` on a character run.
fn trim_end_chars(s: &[char]) -> (r: Vec<char>)
    ensures
        r@ == trim_end(s@),
{
    let mut end: usize = s.len();
    assert(s@.take(end as int) =~= s@);
    while end > 0 && crate::text::is_whitespace(s[end - 1])
        invariant
            end <= s@.len(),
            trim_end(s@) == trim_end(s@.take(end as int)),
        decreases end,
    {
        assert(s@.take(end as int).drop_last() =~= s@.take(end - 1));
        end -= 1;
    }
    assert(end > 0 ==> s@.take(end as int).last() == s@[end - 1]);
    let mut r: Vec<char> = Vec::new();
    let mut k: usize = 0;
    while k < end
        invariant
            end <= s@.len(),
            k <= end,
            r@ == s@.take(k as int),
        decreases end - k,
    {
        r.push(s[k]);
        assert(s@.take(k + 1) =~= s@.take(k as int).push(s@[k as int]));
        k += 1;
    }
    r
}

impl Layout {
    fn flush(&mut self, Ghost(st): Ghost<MdFold>)
        requires
            old(self).matches(st),
        ensures
            final(self).matches(flush(st)),
    {
        let text = trim_end_chars(self.paragraph.as_slice());
        self.paragraph = Vec::new();
        assert(self.paragraph@ =~= Seq::<char>::empty());
        if text.len() > 0 {
            let style = style_for(self.heading);
            let mut s = string_from_chars(prefix_for(self.depth).as_slice());
            push_chars(&mut s, text.as_slice());
            self.blocks.push(MdBlock::Text { style, text: s });
            self.heading = None;
        }
        proof {
            if text@.len() > 0 {
                let f = flush(st);
                assert forall|i: int| 0 <= i < f.blocks.len() implies block_view(
                    #[trigger] self.blocks@[i],
                ) == f.blocks[i] by {
                    if i < st.blocks.len() {
                        assert(self.blocks@[i] == old(self).blocks@[i]);
                    }
                }
            }
        }
    }

    fn add_text(&mut self, t: &[char], Ghost(st): Ghost<MdFold>)
        requires
            old(self).matches(st),
        ensures
            final(self).matches(add_text(st, t@)),
    {
        if self.in_code {
            push_all(&mut self.code, t);
        } else {
            push_all(&mut self.paragraph, t);
        }
    }
}

fn push_all(v: &mut Vec<char>, t: &[char])
    ensures
        final(v)@ == old(v)@ + t@,
{
    let mut k: usize = 0;
    while k < t.len()
        invariant
            k <= t@.len(),
            v@ == old(v)@ + t@.take(k as int),
        decreases t@.len() - k,
    {
        v.push(t[k]);
        assert(old(v)@ + t@.take(k + 1) =~= old(v)@ + t@.take(k as int) + seq![t@[k as int]]);
        k += 1;
    }
    assert(t@.take(t@.len() as int) =~= t@);
}

/// The blocks that a sequence of parser events lays out to: paragraphs,
/// headings and list items become text blocks (trimmed at their end, list
/// items after an indented bullet, headings in their level's style), code
/// blocks become code, rules stay rules.
pub fn blocks_from_events(events: &Vec<MdEvent>) -> (r: Vec<MdBlock>)
    ensures
        r@.len() == md_blocks(events@).len(),
        forall|i: int| 0 <= i < r@.len() ==> block_view(#[trigger] r@[i]) == md_blocks(events@)[i],
{
    let mut lay = Layout {
        blocks: Vec::new(),
        paragraph: Vec::new(),
        heading: None,
        depth: 0,
        in_code: false,
        code: Vec::new(),
    };
    let mut i: usize = 0;
    while i < events.len()
        invariant
            i <= events@.len(),
            lay.matches(md_fold(events@.take(i as int))),
            lay.depth <= i,
        decreases events@.len() - i,
    {
        let ghost st = md_fold(events@.take(i as int));
        assert(events@.take(i + 1).drop_last() =~= events@.take(i as int));
        assert(events@.take(i + 1).last() == events@[i as int]);
        match &events[i] {
            MdEvent::Start(t) => {
                match *t {
                    MdTag::Heading(l) => {
                        lay.flush(Ghost(st));
                        lay.heading = Some(l);
                    },
                    MdTag::List => {
                        lay.flush(Ghost(st));
                        lay.depth = lay.depth + 1;
                    },
                    MdTag::Item => {
                        lay.flush(Ghost(st));
                    },
                    MdTag::CodeBlock => {
                        lay.flush(Ghost(st));
                        lay.in_code = true;
                        lay.code = Vec::new();
                        assert(lay.code@ =~= Seq::<char>::empty());
                    },
                    _ => {},
                }
            },
            MdEvent::End(t) => {
                match *t {
                    MdTag::Heading(_) => {
                        lay.flush(Ghost(st));
                    },
                    MdTag::List => {
                        lay.flush(Ghost(st));
                        lay.depth = if lay.depth > 0 {
                            lay.depth - 1
                        } else {
                            0
                        };
                    },
                    MdTag::Item => {
                        lay.flush(Ghost(st));
                    },
                    MdTag::CodeBlock => {
                        lay.in_code = false;
                        let c = trim_end_chars(lay.code.as_slice());
                        let ghost b0 = lay.blocks@;
                        lay.blocks.push(MdBlock::Code(string_from_chars(c.as_slice())));
                        lay.code = Vec::new();
                        assert(lay.code@ =~= Seq::<char>::empty());
                        proof {
                            let f = md_step(st, events@[i as int]);
                            assert forall|k: int| 0 <= k < f.blocks.len() implies block_view(
                                #[trigger] lay.blocks@[k],
                            ) == f.blocks[k] by {
                                if k < b0.len() {
                                    assert(lay.blocks@[k] == b0[k]);
                                }
                            }
                        }
                    },
                    MdTag::Paragraph => {
                        lay.flush(Ghost(st));
                    },
                    MdTag::Other => {},
                }
            },
            MdEvent::Text(s) => {
                let cs = crate::text::chars_of(s.as_str());
                lay.add_text(cs.as_slice(), Ghost(st));
            },
            MdEvent::Code(s) => {
                let cs = crate::text::chars_of(s.as_str());
                lay.add_text(cs.as_slice(), Ghost(st));
            },
            MdEvent::SoftBreak => {
                let nl = vec!['\n'];
                assert(nl@ =~= seq!['\n']);
                lay.add_text(nl.as_slice(), Ghost(st));
            },
            MdEvent::HardBreak => {
                let nl = vec!['\n'];
                assert(nl@ =~= seq!['\n']);
                lay.add_text(nl.as_slice(), Ghost(st));
            },
            MdEvent::Rule => {
                lay.flush(Ghost(st));
                let ghost b0 = lay.blocks@;
                lay.blocks.push(MdBlock::Rule);
                proof {
                    let f = md_step(st, events@[i as int]);
                    assert forall|k: int| 0 <= k < f.blocks.len() implies block_view(
                        #[trigger] lay.blocks@[k],
                    ) == f.blocks[k] by {
                        if k < b0.len() {
                            assert(lay.blocks@[k] == b0[k]);
                        }
                    }
                }
            },
            MdEvent::Other => {},
        }
        i += 1;
    }
    assert(events@.take(events@.len() as int) =~= events@);
    let ghost st = md_fold(events@);
    lay.flush(Ghost(st));
    lay.blocks
}

/// The blocks that the Markdown text `markdown` lays out to: the layout of
/// the parser's events for it.
pub fn markdown_blocks(markdown: &str) -> (r: Vec<MdBlock>)
    ensures
        r@.len() == md_blocks(markdown_events_of(markdown@)).len(),
        forall|i: int|
            0 <= i < r@.len() ==> block_view(#[trigger] r@[i]) == md_blocks(
                markdown_events_of(markdown@),
            )[i],
{
    let events = markdown_events(markdown);
    blocks_from_events(&events)
}


// ---------------------------------------------------------------------------
// Laws
// ---------------------------------------------------------------------------

/// The change in list nesting that an event makes: the start of a list opens
/// a level, the end of a list closes one, other events change nothing.
pub open spec fn list_delta(e: MdEvent) -> int {
    match e {
        MdEvent::Start(MdTag::List) => 1,
        MdEvent::End(MdTag::List) => -1,
        _ => 0,
    }
}

/// The lists that `es` opens less those it closes.
pub open spec fn list_balance(es: Seq<MdEvent>) -> int
    decreases es.len(),
{
    if es.len() == 0 {
        0
    } else {
        list_balance(es.drop_last()) + list_delta(es.last())
    }
}

/// The lowest list balance over the prefixes of `es`, the empty one
/// included (so never above 0).
pub open spec fn lowest_balance(es: Seq<MdEvent>) -> int
    decreases es.len(),
{
    if es.len() == 0 {
        0
    } else {
        let before = lowest_balance(es.drop_last());
        if list_balance(es) < before {
            list_balance(es)
        } else {
            before
        }
    }
}

proof fn lemma_step_depth(st: MdFold, e: MdEvent)
    ensures
        md_step(st, e).depth == if list_delta(e) == 1 {
            st.depth + 1int
        } else if list_delta(e) == -1 {
            if st.depth > 0 {
                st.depth - 1int
            } else {
                0int
            }
        } else {
            st.depth as int
        },
{
}

/// List nesting is a stack: after any events, the depth is the number of
/// lists opened and not yet closed, where an end with no open list closes
/// nothing. So the end of a nested list goes back to the enclosing list's
/// depth, and an item after it keeps that list's bullet.
pub proof fn lemma_list_depth_is_nesting(es: Seq<MdEvent>)
    ensures
        md_fold(es).depth == list_balance(es) - lowest_balance(es),
        lowest_balance(es) <= 0,
        lowest_balance(es) <= list_balance(es),
    decreases es.len(),
{
    if es.len() > 0 {
        lemma_list_depth_is_nesting(es.drop_last());
        lemma_step_depth(md_fold(es.drop_last()), es.last());
    }
}

/// Two spaces for each level.
proof fn lemma_indent(n: nat)
    ensures
        indent(n).len() == 2 * n,
        forall|j: int| 0 <= j < 2 * n ==> #[trigger] indent(n)[j] == ' ',
    decreases n,
{
    if n > 0 {
        lemma_indent((n - 1) as nat);
    }
}

/// `t` begins with the bullet of depth `d`: two spaces for each enclosing
/// list, then `•` and a space.
pub open spec fn has_bullet(t: Seq<char>, d: nat) -> bool {
    &&& d > 0
    &&& t.len() >= 2 * d
    &&& forall|j: int| 0 <= j < 2 * (d - 1) ==> #[trigger] t[j] == ' '
    &&& t[2 * (d - 1)] == '•'
    &&& t[2 * d - 1] == ' '
}

/// An event only adds blocks after those already made, and every text block
/// it adds inside lists carries the bullet of the depth at which it was made.
pub proof fn lemma_step_blocks_carry_bullet(st: MdFold, e: MdEvent)
    ensures
        st.blocks.len() <= md_step(st, e).blocks.len(),
        md_step(st, e).blocks.take(st.blocks.len() as int) == st.blocks,
        forall|k: int|
            st.blocks.len() <= k < md_step(st, e).blocks.len() && st.depth > 0 ==> (
            #[trigger] md_step(st, e).blocks[k] matches BlockView::Text(_, t) ==> has_bullet(
                t,
                st.depth,
            )),
{
    lemma_indent((st.depth - 1) as nat);
    let f = flush(st);
    assert(f.blocks.take(st.blocks.len() as int) =~= st.blocks);
    assert(st.blocks.take(st.blocks.len() as int) =~= st.blocks);
    let st2 = md_step(st, e);
    assert(st2.blocks.take(st.blocks.len() as int) =~= st.blocks);
    assert({
        ||| st2.blocks == st.blocks
        ||| st2.blocks == f.blocks
        ||| st2.blocks == f.blocks.push(BlockView::Rule)
        ||| st2.blocks == st.blocks.push(BlockView::Code(trim_end(st.code)))
    });
    if st.depth > 0 {
        let pre = list_prefix(st.depth);
        assert(pre == indent((st.depth - 1) as nat) + seq!['•', ' ']);
        assert forall|k: int| st.blocks.len() <= k < st2.blocks.len() implies (
        #[trigger] st2.blocks[k] matches BlockView::Text(_, t) ==> has_bullet(t, st.depth)) by {
            if st2.blocks[k] is Text {
                assert(st2.blocks == f.blocks || st2.blocks == f.blocks.push(BlockView::Rule));
                assert(k < f.blocks.len());
                assert(f.blocks.len() == st.blocks.len() + 1);
                assert(k == st.blocks.len());
                let t = pre + trim_end(st.paragraph);
                assert(f.blocks[k] == BlockView::Text(style_of(st.heading), t));
                assert(st2.blocks[k] == f.blocks[k]);
                assert forall|j: int| 0 <= j < 2 * (st.depth - 1) implies #[trigger] t[j] == ' ' by {
                    assert(t[j] == indent((st.depth - 1) as nat)[j]);
                }
                assert(t[2 * (st.depth - 1)] == pre[2 * (st.depth - 1)]);
                assert(t[2 * st.depth - 1] == pre[2 * st.depth - 1]);
            }
        }
    }
}

} // verus!
