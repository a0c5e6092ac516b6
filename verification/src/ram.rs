//! RAM usage from `/proc/meminfo`.

use vstd::prelude::*;
use crate::numbers::{parse_u128, parse_u128_spec};
use crate::text::{
    chars_eq_str, chars_of, find_char, find_from, lines, lines_of, push_chars, push_text, seqs_of,
    result_view, slice_chars, string_from, words, words_of,
};

verus! {

/// Total and used bytes of one `/proc/meminfo` reading.
#[derive(Clone, Copy, Debug, PartialEq, Eq, Structural)]
pub struct RamSnapshot {
    pub total: u128,
    pub used: u128,
}

/// The `i`-th word, or nothing when there are fewer words.
pub open spec fn word_or_empty(ws: Seq<Seq<char>>, i: int) -> Seq<char> {
    if 0 <= i < ws.len() {
        ws[i]
    } else {
        seq![]
    }
}

/// A named `meminfo` value, read from kibibytes into bytes.
pub open spec fn meminfo_value_spec(field: Seq<char>, value: Seq<char>) -> Result<u128, Seq<char>> {
    let ws = words(value);
    let raw = word_or_empty(ws, 0);
    let unit = word_or_empty(ws, 1);
    match parse_u128_spec(raw) {
        None => Err("Invalid "@ + field + " value: "@ + raw),
        Some(n) => if unit != "kB"@ {
            Err("Invalid "@ + field + " unit: "@ + unit)
        } else if n * 1024 > u128::MAX {
            Err(field + " value is too large"@)
        } else {
            Ok((n * 1024) as u128)
        },
    }
}

/// Parse one named `meminfo` value from kibibytes to bytes.
pub fn from_meminfo_value(field: &str, value: &str) -> (r: Result<u128, String>)
    ensures
        result_view(r) == meminfo_value_spec(field@, value@),
{
    let text = chars_of(value);
    let ws = words_of(&text);
    let ghost wv = seqs_of(ws@);
    let raw: Vec<char> = if ws.len() > 0 {
        assert(ws@[0]@ == wv[0]);
        slice_chars(&ws[0], 0, ws[0].len())
    } else {
        Vec::new()
    };
    let unit: Vec<char> = if ws.len() > 1 {
        assert(ws@[1]@ == wv[1]);
        slice_chars(&ws[1], 0, ws[1].len())
    } else {
        Vec::new()
    };
    assert(raw@ == word_or_empty(wv, 0));
    assert(unit@ == word_or_empty(wv, 1));
    let number = match parse_u128(&raw) {
        Some(n) => n,
        None => {
            let mut e = string_from("Invalid ");
            push_text(&mut e, field);
            push_text(&mut e, " value: ");
            push_chars(&mut e, &raw);
            return Err(e);
        },
    };
    if !chars_eq_str(&unit, "kB") {
        let mut e = string_from("Invalid ");
        push_text(&mut e, field);
        push_text(&mut e, " unit: ");
        push_chars(&mut e, &unit);
        return Err(e);
    }
    match number.checked_mul(1024) {
        Some(bytes) => Ok(bytes),
        None => {
            let mut e = string_from(field);
            push_text(&mut e, " value is too large");
            Err(e)
        },
    }
}

/// The `meminfo` fields the RAM figure is built from.
#[derive(Clone, Copy, Debug)]
pub struct MeminfoFields {
    pub total: Option<u128>,
    pub available: Option<u128>,
    pub free: u128,
    pub buffers: u128,
    pub cached: u128,
    pub reclaimable: u128,
}

/// No field seen yet.
pub open spec fn meminfo_start() -> MeminfoFields {
    MeminfoFields {
        total: None,
        available: None,
        free: 0,
        buffers: 0,
        cached: 0,
        reclaimable: 0,
    }
}

/// Record one `meminfo` line: a recognised field name before the first `:`
/// stores its value, an unreadable value is an error, other lines change nothing.
pub open spec fn meminfo_step(f: MeminfoFields, line: Seq<char>) -> Result<
    MeminfoFields,
    Seq<char>,
> {
    let k = find_from(line, ':', 0);
    if k >= line.len() {
        Ok(f)
    } else {
        let field = line.subrange(0, k as int);
        let value = line.subrange(k as int + 1, line.len() as int);
        let known = field == "MemTotal"@ || field == "MemAvailable"@ || field == "MemFree"@ || field
            == "Buffers"@ || field == "Cached"@ || field == "SReclaimable"@;
        if !known {
            Ok(f)
        } else {
            match meminfo_value_spec(field, value) {
                Err(e) => Err(e),
                Ok(v) => Ok(
                    if field == "MemTotal"@ {
                        MeminfoFields { total: Some(v), ..f }
                    } else if field == "MemAvailable"@ {
                        MeminfoFields { available: Some(v), ..f }
                    } else if field == "MemFree"@ {
                        MeminfoFields { free: v, ..f }
                    } else if field == "Buffers"@ {
                        MeminfoFields { buffers: v, ..f }
                    } else if field == "Cached"@ {
                        MeminfoFields { cached: v, ..f }
                    } else {
                        MeminfoFields { reclaimable: v, ..f }
                    },
                ),
            }
        }
    }
}

/// Record every line in order, stopping at the first error.
pub open spec fn meminfo_scan(ls: Seq<Seq<char>>) -> Result<MeminfoFields, Seq<char>>
    decreases ls.len(),
{
    if ls.len() == 0 {
        Ok(meminfo_start())
    } else {
        match meminfo_scan(ls.drop_last()) {
            Err(e) => Err(e),
            Ok(f) => meminfo_step(f, ls.last()),
        }
    }
}

/// Addition that stops at `u128::MAX`.
pub open spec fn sat_add(a: u128, b: u128) -> u128 {
    if a + b > u128::MAX {
        u128::MAX
    } else {
        (a + b) as u128
    }
}

/// Available memory: `MemAvailable` when present, otherwise free plus
/// buffers, cache and reclaimable slab, saturating.
pub open spec fn available_of(f: MeminfoFields) -> u128 {
    match f.available {
        Some(a) => a,
        None => sat_add(sat_add(sat_add(f.free, f.buffers), f.cached), f.reclaimable),
    }
}

/// The RAM snapshot that a `/proc/meminfo` text gives, or the reason there is none.
pub open spec fn meminfo_spec(text: Seq<char>) -> Result<RamSnapshot, Seq<char>> {
    match meminfo_scan(lines(text)) {
        Err(e) => Err(e),
        Ok(f) => match f.total {
            None => Err("MemTotal is missing from /proc/meminfo"@),
            Some(t) => if t == 0 {
                Err("MemTotal must be greater than zero"@)
            } else {
                let a = available_of(f);
                Ok(RamSnapshot { total: t, used: if t >= a { (t - a) as u128 } else { 0 } })
            },
        },
    }
}

/// Addition that stops at `u128::MAX`.
fn saturating_add_u128(a: u128, b: u128) -> (r: u128)
    ensures
        r == sat_add(a, b),
{
    match a.checked_add(b) {
        Some(s) => s,
        None => u128::MAX,
    }
}

/// Record one line into the collected fields.
fn meminfo_line(f: MeminfoFields, line: &Vec<char>) -> (r: Result<MeminfoFields, String>)
    ensures
        result_view(r) == meminfo_step(f, line@),
{
    let k = find_char(line, ':');
    if k >= line.len() {
        return Ok(f);
    }
    let field = slice_chars(line, 0, k);
    let value = slice_chars(line, k + 1, line.len());
    let fs = crate::text::string_from_chars(&field);
    let vs = crate::text::string_from_chars(&value);
    let is_total = chars_eq_str(&field, "MemTotal");
    let is_available = chars_eq_str(&field, "MemAvailable");
    let is_free = chars_eq_str(&field, "MemFree");
    let is_buffers = chars_eq_str(&field, "Buffers");
    let is_cached = chars_eq_str(&field, "Cached");
    let is_reclaimable = chars_eq_str(&field, "SReclaimable");
    if !(is_total || is_available || is_free || is_buffers || is_cached || is_reclaimable) {
        return Ok(f);
    }
    let v = match from_meminfo_value(fs.as_str(), vs.as_str()) {
        Ok(v) => v,
        Err(e) => return Err(e),
    };
    let mut g = f;
    if is_total {
        g.total = Some(v);
    } else if is_available {
        g.available = Some(v);
    } else if is_free {
        g.free = v;
    } else if is_buffers {
        g.buffers = v;
    } else if is_cached {
        g.cached = v;
    } else {
        g.reclaimable = v;
    }
    Ok(g)
}

/// Parse the RAM fields used by the current status calculation.
pub fn from_meminfo(meminfo: &str) -> (r: Result<RamSnapshot, String>)
    ensures
        result_view(r) == meminfo_spec(meminfo@),
        r matches Ok(s) ==> 0 < s.total && s.used <= s.total,
{
    let text = chars_of(meminfo);
    let ls = lines_of(&text);
    let ghost lv = seqs_of(ls@);
    let mut f = MeminfoFields {
        total: None,
        available: None,
        free: 0,
        buffers: 0,
        cached: 0,
        reclaimable: 0,
    };
    let mut i: usize = 0;
    assert(lv.take(0) =~= Seq::<Seq<char>>::empty());
    while i < ls.len()
        invariant
            i <= ls.len(),
            lv == seqs_of(ls@),
            lv == lines(meminfo@),
            meminfo_scan(lv.take(i as int)) == Ok::<MeminfoFields, Seq<char>>(f),
        decreases ls.len() - i,
    {
        assert(lv.take(i + 1).drop_last() =~= lv.take(i as int));
        assert(lv.take(i + 1).last() == ls@[i as int]@);
        match meminfo_line(f, &ls[i]) {
            Ok(g) => {
                f = g;
            },
            Err(e) => {
                proof {
                    assert(meminfo_scan(lv.take(i + 1)) == meminfo_step(f, ls@[i as int]@));
                    lemma_scan_error_sticks(lv, i as int + 1);
                }
                return Err(e);
            },
        }
        i = i + 1;
    }
    assert(lv.take(ls.len() as int) =~= lv);
    let total = match f.total {
        Some(t) => t,
        None => return Err(string_from("MemTotal is missing from /proc/meminfo")),
    };
    if total == 0 {
        return Err(string_from("MemTotal must be greater than zero"));
    }
    let available = match f.available {
        Some(a) => a,
        None => saturating_add_u128(
            saturating_add_u128(saturating_add_u128(f.free, f.buffers), f.cached),
            f.reclaimable,
        ),
    };
    let used = if total >= available {
        total - available
    } else {
        0
    };
    Ok(RamSnapshot { total, used })
}

/// Once a prefix of the lines fails, the whole scan fails with the same error.
proof fn lemma_scan_error_sticks(ls: Seq<Seq<char>>, k: int)
    requires
        0 <= k <= ls.len(),
        meminfo_scan(ls.take(k)) is Err,
    ensures
        meminfo_scan(ls) == meminfo_scan(ls.take(k)),
    decreases ls.len() - k,
{
    if k < ls.len() {
        assert(ls.take(k + 1).drop_last() =~= ls.take(k));
        lemma_scan_error_sticks(ls, k + 1);
    } else {
        assert(ls.take(k) =~= ls);
    }
}

/// The RAM block: glyph, the used amount, ` · ` and the used percent, both
/// already formatted.
pub fn format_ram_output(glyph: &str, used: &str, used_percent: &str) -> (r: String)
    ensures
        r@ == glyph@ + used@ + " · "@ + used_percent@ + "%"@,
{
    let mut out = string_from(glyph);
    push_text(&mut out, used);
    push_text(&mut out, " · ");
    push_text(&mut out, used_percent);
    push_text(&mut out, "%");
    out
}

} // verus!
