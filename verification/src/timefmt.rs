//! Showing GitHub and cache timestamps in the local time zone.
use vstd::prelude::*;

use crate::text::{chars_of, is_digit, opt_view, owned, parse_i64, parse_i64_spec};

verus! {

/// The layout in which times are shown: date, hours and minutes, and the
/// local UTC offset.
pub open spec fn local_display_format() -> Seq<char> {
    "%Y-%m-%d %H:%M %Z"@
}

/// `chrono::DateTime::parse_from_rfc3339` accepts `text`.
pub uninterp spec fn is_rfc3339(text: Seq<char>) -> bool;

/// The instant that `chrono::DateTime::parse_from_rfc3339` reads from
/// `text`, as whole seconds since the Unix epoch (`DateTime::timestamp`).
pub uninterp spec fn rfc3339_utc_secs(text: Seq<char>) -> int;

/// What chrono writes with `%Y-%m-%d %H:%M %Z` for the instant `secs`
/// (whole seconds since the Unix epoch, UTC) shown at the fixed UTC offset
/// `offset_secs`.
pub uninterp spec fn local_display_text(secs: int, offset_secs: int) -> Seq<char>;

/// The shown text of the instant `secs` at some UTC offset that chrono can
/// hold (less than a day either way): the offset is the machine's.
pub open spec fn shown_at_some_offset(s: Seq<char>, secs: int) -> bool {
    exists|o: int| -86_400 < o < 86_400 && s == #[trigger] local_display_text(secs, o)
}

/// The fixed head of every text that `parse_from_rfc3339` accepts: at least
/// 19 characters, a four-digit year, `-` month `-` day, `T`, `t` or a space,
/// hour `:` minute `:` second.
pub open spec fn has_rfc3339_head(t: Seq<char>) -> bool {
    &&& t.len() >= 19
    &&& is_digit(t[0]) && is_digit(t[1]) && is_digit(t[2]) && is_digit(t[3])
    &&& t[4] == '-' && t[7] == '-'
    &&& (t[10] == 'T' || t[10] == 't' || t[10] == ' ')
    &&& t[13] == ':' && t[16] == ':'
}

/// The seconds since the Unix epoch for which `chrono::Utc.timestamp_opt`
/// gives a time: from -262143-01-01 00:00:00 to +262142-12-31 23:59:59 UTC,
/// chrono's first and last dates.
pub open spec fn is_representable_unix(secs: i64) -> bool {
    -8_334_601_228_800 <= secs <= 8_210_266_876_799
}

/// A character that the shown layout can hold.
pub open spec fn is_shown_char(c: char) -> bool {
    is_digit(c) || c == '-' || c == '+' || c == ':' || c == ' '
}

/// `s[..k]` is a year as `%Y` writes it: four digits, or, outside 0 to 9999,
/// a sign and at least four digits.
pub open spec fn is_year_field(s: Seq<char>, k: int) -> bool {
    ||| k == 4 && is_digit(s[0]) && is_digit(s[1]) && is_digit(s[2]) && is_digit(s[3])
    ||| k >= 5 && (s[0] == '+' || s[0] == '-')
}

/// `s` is laid out as `%Y-%m-%d %H:%M %Z` writes a time with a fixed UTC
/// offset: only digits, signs, colons and spaces; a year field, `-`, month,
/// `-`, day, a space, hour, `:`, minute, a space, and the offset, which begins
/// with its sign.
pub open spec fn is_local_display_text(s: Seq<char>) -> bool {
    &&& forall|i: int| 0 <= i < s.len() ==> is_shown_char(#[trigger] s[i])
    &&& exists|k: int|
        #![trigger is_year_field(s, k)]
        is_year_field(s, k) && k + 14 <= s.len() && s[k] == '-' && s[k + 3] == '-' && s[k + 6]
            == ' ' && s[k + 9] == ':' && s[k + 12] == ' ' && (s[k + 13] == '+' || s[k + 13] == '-')
}

/// Parses `raw` with `chrono::DateTime::parse_from_rfc3339` and, when that
/// succeeds, formats the time, moved into the local time zone
/// (`chrono::Local`), with `fmt`. Whether parsing succeeds and the instant
/// read are functions of `raw` and are named; the parser's fixed head is
/// stated. The local UTC offset comes from the machine's time-zone data, so
/// the shown text is stated as chrono's text of that instant at some offset
/// of less than a day (`FixedOffset`'s range), laid out as `fmt` says. chrono
/// panics only where the machine's time-zone data cannot place the time.
#[verifier::external_body]
fn local_text_from_rfc3339(raw: &str, fmt: &str) -> (r: Option<String>)
    requires
        fmt@ == local_display_format(),
    ensures
        r is Some <==> is_rfc3339(raw@),
        r matches Some(s) ==> is_local_display_text(s@) && has_rfc3339_head(raw@),
        r matches Some(s) ==> exists|o: int|
            -86_400 < o < 86_400 && s@ == #[trigger] local_display_text(rfc3339_utc_secs(raw@), o),
{
    match chrono::DateTime::parse_from_rfc3339(raw) {
        Ok(dt) => Some(dt.with_timezone(&chrono::Local).format(fmt).to_string()),
        Err(_) => None,
    }
}

/// Turns `secs` into a time with `chrono::Utc.timestamp_opt(secs, 0)` and,
/// when that gives a single time, formats it, moved into the local time zone
/// (`chrono::Local`), with `fmt`. The local UTC offset comes from the
/// machine's time-zone data, so the shown text is stated as chrono's text of
/// that instant at some offset of less than a day, laid out as `fmt` says.
/// chrono panics only where the machine's time-zone data cannot place the
/// time.
#[verifier::external_body]
fn local_text_from_unix(secs: i64, fmt: &str) -> (r: Option<String>)
    requires
        fmt@ == local_display_format(),
    ensures
        r is Some <==> is_representable_unix(secs),
        r matches Some(s) ==> is_local_display_text(s@),
        r matches Some(s) ==> exists|o: int|
            -86_400 < o < 86_400 && s@ == #[trigger] local_display_text(secs as int, o),
{
    match chrono::TimeZone::timestamp_opt(&chrono::Utc, secs, 0) {
        chrono::LocalResult::Single(dt) => Some(
            dt.with_timezone(&chrono::Local).format(fmt).to_string(),
        ),
        chrono::LocalResult::Ambiguous(_, _) => None,
        chrono::LocalResult::None => None,
    }
}

/// The text to show: the local-time text when there is one, otherwise the
/// raw text unchanged.
pub fn shown_or_raw(shown: Option<String>, raw: &str) -> (r: String)
    ensures
        r@ == match opt_view(shown) {
            Some(s) => s,
            None => raw@,
        },
{
    match shown {
        Some(s) => s,
        None => owned(raw),
    }
}

/// A shown time never equals a text with the parser's fixed head: with a
/// four-digit year it has a space where that text has the `:` before the
/// seconds, and otherwise it begins with a sign where that text has a digit.
proof fn lemma_shown_differs_from_rfc3339(s: Seq<char>, raw: Seq<char>)
    requires
        is_local_display_text(s),
        has_rfc3339_head(raw),
    ensures
        s != raw,
{
    let k = choose|k: int|
        #![trigger is_year_field(s, k)]
        is_year_field(s, k) && k + 14 <= s.len() && s[k] == '-' && s[k + 3] == '-' && s[k + 6]
            == ' ' && s[k + 9] == ':' && s[k + 12] == ' ' && (s[k + 13] == '+' || s[k + 13] == '-');
    if k == 4 {
        assert(s[16] != raw[16]);
    } else {
        assert(s[0] != raw[0]);
    }
}

/// A shown time never equals a text that reads as an `i64`: it has a `:`
/// after its first character, where such a text has only digits.
proof fn lemma_shown_differs_from_number(s: Seq<char>, raw: Seq<char>)
    requires
        is_local_display_text(s),
        parse_i64_spec(raw) is Some,
    ensures
        s != raw,
{
    let k = choose|k: int|
        #![trigger is_year_field(s, k)]
        is_year_field(s, k) && k + 14 <= s.len() && s[k] == '-' && s[k + 3] == '-' && s[k + 6]
            == ' ' && s[k + 9] == ':' && s[k + 12] == ' ' && (s[k + 13] == '+' || s[k + 13] == '-');
    if s == raw {
        let i = k + 9;
        assert(raw[i] == ':');
        if raw.len() > 0 && raw[0] == '-' {
            assert(raw.drop_first()[i - 1] == raw[i]);
        } else if raw.len() > 0 && raw[0] == '+' {
            assert(raw.drop_first()[i - 1] == raw[i]);
        } else {
            assert(is_digit(raw[i]));
        }
    }
}

/// An RFC 3339 time (as GitHub gives it) in the local time zone: the instant
/// it reads at the machine's UTC offset, laid out as `%Y-%m-%d %H:%M %Z`, so
/// never the raw text; text that is not RFC 3339 is shown unchanged.
pub fn format_rfc3339_local(raw: &str) -> (r: String)
    ensures
        !is_rfc3339(raw@) ==> r@ == raw@,
        is_rfc3339(raw@) ==> shown_at_some_offset(r@, rfc3339_utc_secs(raw@)),
        is_rfc3339(raw@) ==> is_local_display_text(r@) && r@ != raw@ && !r@.contains('T'),
{
    let shown = local_text_from_rfc3339(raw, "%Y-%m-%d %H:%M %Z");
    proof {
        if shown is Some {
            let s = shown.unwrap()@;
            lemma_shown_differs_from_rfc3339(s, raw@);
            assert(!s.contains('T')) by {
                if s.contains('T') {
                    let i = choose|i: int| 0 <= i < s.len() && s[i] == 'T';
                    assert(is_shown_char(s[i]));
                }
            }
        }
    }
    shown_or_raw(shown, raw)
}

/// A time stored as seconds since the Unix epoch, in the local time zone:
/// that instant at the machine's UTC offset, laid out as
/// `%Y-%m-%d %H:%M %Z`, so never the raw digits; a text that is no such
/// number is read as an RFC 3339 time (see `format_rfc3339_local`), and
/// seconds out of chrono's range are shown unchanged.
pub fn format_unix_local(raw: &str) -> (r: String)
    ensures
        match parse_i64_spec(raw@) {
            Some(secs) => if is_representable_unix(secs) {
                &&& shown_at_some_offset(r@, secs as int)
                &&& is_local_display_text(r@) && r@ != raw@
            } else {
                r@ == raw@
            },
            None => if is_rfc3339(raw@) {
                &&& shown_at_some_offset(r@, rfc3339_utc_secs(raw@))
                &&& is_local_display_text(r@) && r@ != raw@
            } else {
                r@ == raw@
            },
        },
{
    let cs = chars_of(raw);
    match parse_i64(cs.as_slice()) {
        None => format_rfc3339_local(raw),
        Some(secs) => {
            let shown = local_text_from_unix(secs, "%Y-%m-%d %H:%M %Z");
            proof {
                if shown is Some {
                    lemma_shown_differs_from_number(shown.unwrap()@, raw@);
                }
            }
            shown_or_raw(shown, raw)
        },
    }
}

} // verus!
