//! Wall-clock rendering rules: the `%Z` placeholder pass, zone labels, the
//! refresh granularity a format needs, and timezone selection.

use vstd::prelude::*;
use crate::text::result_view;
use crate::text::{
    chars_eq_str, chars_of, contains_str, has_infix, matches_at, occurs_at, push_char, push_chars,
    push_text, string_from, string_from_chars, trim, trim_chars,
};

verus! {

/// A zone of the IANA database as `chrono_tz` names it.
#[verifier::external_type_specification]
#[verifier::external_body]
pub struct ExTz(chrono_tz::Tz);

/// The zone that `chrono_tz` finds under a name, if any: the lookup in its
/// compiled table of zone names, an exact and case-sensitive match.
pub uninterp spec fn tz_lookup(name: Seq<char>) -> Option<chrono_tz::Tz>;

/// `<chrono_tz::Tz as FromStr>::from_str`, which looks the name up in the
/// crate's table of zone names; the contract claims only that the result is
/// that lookup.
#[verifier::external_body]
fn lookup_zone(name: &str) -> (r: Option<chrono_tz::Tz>)
    ensures
        r == tz_lookup(name@),
{
    <chrono_tz::Tz as std::str::FromStr>::from_str(name).ok()
}

/// Which clock the block shows.
#[derive(Clone, Copy, Debug)]
pub enum ClockZone {
    Local,
    Named(chrono_tz::Tz),
}

/// The zone a trimmed, non-empty name selects, given what the zone table
/// holds under it: that zone, or an error naming it.
pub open spec fn zone_for(name: Seq<char>, found: Option<chrono_tz::Tz>) -> Result<
    ClockZone,
    Seq<char>,
> {
    match found {
        Some(z) => Ok(ClockZone::Named(z)),
        None => Err("Unsupported clock timezone: "@ + name),
    }
}

/// The zone a configured name selects: the machine's local zone when the
/// trimmed name is empty, otherwise the zone the table holds under the
/// trimmed name, or an error naming it.
pub open spec fn clock_zone_spec(timezone: Seq<char>) -> Result<ClockZone, Seq<char>> {
    let t = trim(timezone);
    if t.len() == 0 {
        Ok(ClockZone::Local)
    } else {
        zone_for(t, tz_lookup(t))
    }
}

/// Turn the result of a zone lookup for `name` into the clock mode.
pub fn clock_zone_from(name: &str, found: Option<chrono_tz::Tz>) -> (r: Result<ClockZone, String>)
    ensures
        result_view(r) == zone_for(name@, found),
{
    match found {
        Some(z) => Ok(ClockZone::Named(z)),
        None => {
            let mut e = string_from("Unsupported clock timezone: ");
            push_text(&mut e, name);
            Err(e)
        },
    }
}

/// Parse the configured timezone into a runtime mode.
pub fn parse_clock_zone(timezone: &str) -> (r: Result<ClockZone, String>)
    ensures
        result_view(r) == clock_zone_spec(timezone@),
{
    let text = chars_of(timezone);
    let t = trim_chars(&text);
    if t.len() == 0 {
        return Ok(ClockZone::Local);
    }
    let name = string_from_chars(&t);
    clock_zone_from(name.as_str(), lookup_zone(name.as_str()))
}

/// The text that stands in for `%Z` until the zone label is known.
pub open spec fn placeholder() -> Seq<char> {
    "__DWM_STATUS_TZ__"@
}

/// Return the placeholder used for `%Z` post-processing.
pub fn timezone_placeholder() -> (r: &'static str)
    ensures
        r@ == placeholder(),
{
    "__DWM_STATUS_TZ__"
}

/// A format string with each `%Z` directive replaced by the placeholder and
/// every other directive, `%%` included, kept as written; a lone trailing `%`
/// stays.
pub open spec fn inject_tz(s: Seq<char>) -> Seq<char>
    decreases s.len(),
{
    if s.len() == 0 {
        seq![]
    } else if s[0] != '%' {
        seq![s[0]] + inject_tz(s.drop_first())
    } else if s.len() == 1 {
        seq!['%']
    } else if s[1] == 'Z' {
        placeholder() + inject_tz(s.skip(2))
    } else {
        seq!['%', s[1]] + inject_tz(s.skip(2))
    }
}

/// Replace `%Z` with a placeholder we can post-process safely.
pub fn inject_timezone_placeholder(format: &str) -> (r: String)
    ensures
        r@ == inject_tz(format@),
{
    let chars = chars_of(format);
    let ghost s = chars@;
    let mut output = String::new();
    let mut i: usize = 0;
    assert(s.skip(0) =~= s);
    while i < chars.len()
        invariant
            i <= chars.len(),
            s == chars@,
            s == format@,
            inject_tz(s) == output@ + inject_tz(s.skip(i as int)),
        decreases chars.len() - i,
    {
        let ch = chars[i];
        let ghost rest = s.skip(i as int);
        assert(rest[0] == ch);
        if ch != '%' {
            push_char(&mut output, ch);
            assert(rest.drop_first() =~= s.skip(i + 1));
            i = i + 1;
            continue;
        }
        if i + 1 == chars.len() {
            push_char(&mut output, '%');
            assert(rest.len() == 1);
            assert(s.skip(i + 1).len() == 0);
            assert(inject_tz(s.skip(i + 1)) =~= Seq::<char>::empty());
            i = i + 1;
            continue;
        }
        let next = chars[i + 1];
        assert(rest[1] == next);
        assert(rest.skip(2) =~= s.skip(i + 2));
        if next == 'Z' {
            push_text(&mut output, timezone_placeholder());
        } else {
            push_char(&mut output, '%');
            push_char(&mut output, next);
        }
        i = i + 2;
    }
    assert(inject_tz(s.skip(chars.len() as int)) =~= Seq::<char>::empty());
    output
}

/// `s` with every occurrence of `pat` replaced by `rep`, scanning left to
/// right without overlaps, as `str::replace` does for a non-empty pattern.
pub open spec fn replace_all(s: Seq<char>, pat: Seq<char>, rep: Seq<char>) -> Seq<char>
    decreases s.len(),
{
    if s.len() == 0 || pat.len() == 0 {
        s
    } else if occurs_at(s, pat, 0) {
        rep + replace_all(s.skip(pat.len() as int), pat, rep)
    } else {
        seq![s[0]] + replace_all(s.drop_first(), pat, rep)
    }
}

/// A zone label with zero offsets shown as `UTC`.
pub open spec fn zone_label(label: Seq<char>) -> Seq<char> {
    if label == "+00:00"@ || label == "+0000"@ {
        "UTC"@
    } else {
        label
    }
}

/// Render a friendly timezone label for the current offset.
pub fn normalize_zone_label(label: &str) -> (r: String)
    ensures
        r@ == zone_label(label@),
{
    let l = chars_of(label);
    if chars_eq_str(&l, "+00:00") || chars_eq_str(&l, "+0000") {
        return string_from("UTC");
    }
    string_from(label)
}

/// The clock value: the formatted text with each placeholder replaced by the
/// zone label, zero offsets shown as `UTC`.
pub open spec fn clock_value(formatted: Seq<char>, raw_label: Seq<char>) -> Seq<char> {
    replace_all(formatted, placeholder(), zone_label(raw_label))
}

/// Put the zone label into text formatted from an injected pattern;
/// `raw_label` is what `%Z` formats to for the same instant.
pub fn finish_clock_value(formatted: &str, raw_label: &str) -> (r: String)
    ensures
        r@ == clock_value(formatted@, raw_label@),
{
    proof {
        reveal_strlit("__DWM_STATUS_TZ__");
    }
    let label = normalize_zone_label(raw_label);
    let text = chars_of(formatted);
    let pat = chars_of(timezone_placeholder());
    let rep = chars_of(label.as_str());
    let ghost s = text@;
    let mut out = String::new();
    let mut i: usize = 0;
    assert(s.skip(0) =~= s);
    while i < text.len()
        invariant
            i <= text.len(),
            s == text@,
            pat@ == placeholder(),
            pat@.len() > 0,
            replace_all(s, pat@, rep@) == out@ + replace_all(s.skip(i as int), pat@, rep@),
        decreases text.len() - i,
    {
        let ghost rest = s.skip(i as int);
        let hit = matches_at(&text, &pat, i);
        assert(hit == occurs_at(rest, pat@, 0)) by {
            if i + pat@.len() <= s.len() {
                assert(rest.subrange(0, pat@.len() as int) =~= s.subrange(i as int, i + pat@.len()));
            }
        }
        if hit {
            push_chars(&mut out, &rep);
            assert(rest.skip(pat@.len() as int) =~= s.skip(i + pat.len()));
            i = i + pat.len();
        } else {
            push_char(&mut out, text[i]);
            assert(rest.drop_first() =~= s.skip(i + 1));
            i = i + 1;
        }
    }
    assert(s.skip(text.len() as int) =~= Seq::<char>::empty());
    out
}

/// A format with no `%` passes the placeholder pass unchanged.
pub proof fn law_plain_format_unchanged(format: Seq<char>)
    requires
        !format.contains('%'),
    ensures
        inject_tz(format) == format,
    decreases format.len(),
{
    if format.len() > 0 {
        assert(format[0] != '%');
        let rest = format.drop_first();
        assert(!rest.contains('%')) by {
            if rest.contains('%') {
                let i = choose|i: int| 0 <= i < rest.len() && rest[i] == '%';
                assert(format[i + 1] == '%');
            }
        }
        law_plain_format_unchanged(rest);
        assert(seq![format[0]] + rest =~= format);
    }
}

/// Text without the placeholder comes out of the label pass unchanged,
/// whatever the zone label.
pub proof fn law_text_without_placeholder_unchanged(formatted: Seq<char>, raw_label: Seq<char>)
    requires
        !has_infix(formatted, placeholder()),
    ensures
        clock_value(formatted, raw_label) == formatted,
{
    reveal_strlit("__DWM_STATUS_TZ__");
    lemma_replace_absent(formatted, placeholder(), zone_label(raw_label));
}

/// Replacing a pattern that does not occur changes nothing.
proof fn lemma_replace_absent(s: Seq<char>, pat: Seq<char>, rep: Seq<char>)
    requires
        pat.len() > 0,
        !has_infix(s, pat),
    ensures
        replace_all(s, pat, rep) == s,
    decreases s.len(),
{
    if s.len() > 0 {
        assert(!occurs_at(s, pat, 0));
        let rest = s.drop_first();
        assert(!has_infix(rest, pat)) by {
            if has_infix(rest, pat) {
                let i = choose|i: int| occurs_at(rest, pat, i);
                assert(s.subrange(i + 1, i + 1 + pat.len()) =~= rest.subrange(i, i + pat.len()));
                assert(occurs_at(s, pat, i + 1));
            }
        }
        lemma_replace_absent(rest, pat, rep);
        assert(seq![s[0]] + rest =~= s);
    }
}

/// The block text: glyph, then the clock value without surrounding whitespace.
pub fn format_clock_output(glyph: &str, value: &str) -> (r: String)
    ensures
        r@ == glyph@ + trim(value@),
{
    let v = chars_of(value);
    let t = trim_chars(&v);
    let mut out = string_from(glyph);
    push_chars(&mut out, &t);
    out
}

/// How often the rendered clock text can change.
#[derive(Clone, Copy, Debug, PartialEq, Eq, Structural)]
pub enum ClockGranularity {
    Second,
    Minute,
    Day,
}

/// Some token occurs in the text.
pub open spec fn contains_any_spec(text: Seq<char>, tokens: Seq<&'static str>) -> bool {
    exists|i: int| 0 <= i < tokens.len() && has_infix(text, tokens[i]@)
}

/// Detect any token from a static format set.
pub fn contains_any(format: &str, tokens: &[&'static str]) -> (r: bool)
    ensures
        r == contains_any_spec(format@, tokens@),
{
    let text = chars_of(format);
    let mut i: usize = 0;
    while i < tokens.len()
        invariant
            i <= tokens@.len(),
            text@ == format@,
            forall|j: int| 0 <= j < i ==> !has_infix(format@, #[trigger] tokens@[j]@),
        decreases tokens.len() - i,
    {
        if contains_str(&text, tokens[i]) {
            return true;
        }
        i = i + 1;
    }
    false
}

/// Tokens that usually expose second-level changes.
pub fn second_tokens() -> (r: [&'static str; 7])
    ensures
        r@ == seq!["%S", "%T", "%X", "%c", "%+", "%r", "%f"],
{
    ["%S", "%T", "%X", "%c", "%+", "%r", "%f"]
}

/// Tokens that expose time-of-day without requiring per-second refresh.
pub fn minute_tokens() -> (r: [&'static str; 8])
    ensures
        r@ == seq!["%H", "%I", "%k", "%l", "%M", "%R", "%P", "%p"],
{
    ["%H", "%I", "%k", "%l", "%M", "%R", "%P", "%p"]
}

/// The smallest unit the format shows: seconds when a second-level token
/// occurs, minutes when a time-of-day token does, days otherwise.
pub open spec fn granularity_of(format: Seq<char>) -> ClockGranularity {
    if contains_any_spec(format, seq!["%S", "%T", "%X", "%c", "%+", "%r", "%f"]) {
        ClockGranularity::Second
    } else if contains_any_spec(format, seq!["%H", "%I", "%k", "%l", "%M", "%R", "%P", "%p"]) {
        ClockGranularity::Minute
    } else {
        ClockGranularity::Day
    }
}

/// A token list is found in a text exactly when one of its tokens occurs as
/// a run of characters at some position of the text, the first included.
pub proof fn law_contains_any_anywhere(text: Seq<char>, tokens: Seq<&'static str>)
    ensures
        contains_any_spec(text, tokens) <==> exists|i: int, p: int|
            0 <= i < tokens.len() && 0 <= p && p + tokens[i]@.len() <= text.len()
                && #[trigger] text.subrange(p, p + tokens[i]@.len()) == #[trigger] tokens[i]@,
{
    if contains_any_spec(text, tokens) {
        let i = choose|i: int| 0 <= i < tokens.len() && has_infix(text, tokens[i]@);
        let p = choose|p: int| occurs_at(text, tokens[i]@, p);
        assert(text.subrange(p, p + tokens[i]@.len()) == tokens[i]@);
    }
    if exists|i: int, p: int|
        0 <= i < tokens.len() && 0 <= p && p + tokens[i]@.len() <= text.len()
            && #[trigger] text.subrange(p, p + tokens[i]@.len()) == #[trigger] tokens[i]@ {
        let (i, p) = choose|i: int, p: int|
            0 <= i < tokens.len() && 0 <= p && p + tokens[i]@.len() <= text.len()
                && #[trigger] text.subrange(p, p + tokens[i]@.len()) == #[trigger] tokens[i]@;
        assert(occurs_at(text, tokens[i]@, p));
        assert(has_infix(text, tokens[i]@));
    }
}

/// A format showing seconds anywhere (`%S`, `%T`, `%X`, `%c`, `%+`, `%r` or
/// `%f` at some position, the first included) refreshes every second; one
/// without those but with a time-of-day directive (`%H`, `%I`, `%k`, `%l`,
/// `%M`, `%R`, `%P` or `%p`) refreshes every minute.
pub proof fn law_granularity_from_directives(format: Seq<char>, p: int, c: char)
    requires
        0 <= p,
        p + 2 <= format.len(),
        format[p] == '%',
        format[p + 1] == c,
    ensures
        (c == 'S' || c == 'T' || c == 'X' || c == 'c' || c == '+' || c == 'r' || c == 'f')
            ==> granularity_of(format) == ClockGranularity::Second,
        (c == 'H' || c == 'I' || c == 'k' || c == 'l' || c == 'M' || c == 'R' || c == 'P' || c
            == 'p') ==> granularity_of(format) != ClockGranularity::Day,
{
    let secs = seq!["%S", "%T", "%X", "%c", "%+", "%r", "%f"];
    let mins = seq!["%H", "%I", "%k", "%l", "%M", "%R", "%P", "%p"];
    reveal_strlit("%S");
    reveal_strlit("%T");
    reveal_strlit("%X");
    reveal_strlit("%c");
    reveal_strlit("%+");
    reveal_strlit("%r");
    reveal_strlit("%f");
    reveal_strlit("%H");
    reveal_strlit("%I");
    reveal_strlit("%k");
    reveal_strlit("%l");
    reveal_strlit("%M");
    reveal_strlit("%R");
    reveal_strlit("%P");
    reveal_strlit("%p");
    let w = format.subrange(p, p + 2);
    assert(w =~= seq!['%', c]);
    law_contains_any_anywhere(format, secs);
    law_contains_any_anywhere(format, mins);
    if c == 'S' || c == 'T' || c == 'X' || c == 'c' || c == '+' || c == 'r' || c == 'f' {
        let i: int = if c == 'S' { 0 } else if c == 'T' { 1 } else if c == 'X' { 2 } else if c
            == 'c' { 3 } else if c == '+' { 4 } else if c == 'r' { 5 } else { 6 };
        assert(secs[i]@ =~= seq!['%', c]);
        assert(format.subrange(p, p + secs[i]@.len()) == secs[i]@);
    }
    if c == 'H' || c == 'I' || c == 'k' || c == 'l' || c == 'M' || c == 'R' || c == 'P' || c
        == 'p' {
        let i: int = if c == 'H' { 0 } else if c == 'I' { 1 } else if c == 'k' { 2 } else if c
            == 'l' { 3 } else if c == 'M' { 4 } else if c == 'R' { 5 } else if c == 'P' { 6 } else { 7 };
        assert(mins[i]@ =~= seq!['%', c]);
        assert(format.subrange(p, p + mins[i]@.len()) == mins[i]@);
    }
}

/// Infer the smallest unit visible in the format string.
pub fn clock_granularity(format: &str) -> (r: ClockGranularity)
    ensures
        r == granularity_of(format@),
{
    let seconds = second_tokens();
    if contains_any(format, &seconds) {
        return ClockGranularity::Second;
    }
    let minutes = minute_tokens();
    if contains_any(format, &minutes) {
        return ClockGranularity::Minute;
    }
    ClockGranularity::Day
}

} // verus!
