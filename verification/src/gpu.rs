//! NVIDIA GPU telemetry from the `nvidia-smi` CSV query.

use vstd::prelude::*;
use crate::numbers::{decimal, parse_i64, parse_i64_spec, parse_u64, parse_u64_spec, push_decimal, push_signed, signed_decimal};
use crate::text::result_view;
use crate::text::{
    chars_eq_str, chars_of, join, join_strings, lines, lines_of, lower, lower_chars,
    push_text, seqs_of, split_chars, split_on, string_from, string_from_chars, string_views, trim,
    trim_chars,
};

verus! {

/// The fields asked of `nvidia-smi`, in column order: utilization, used and
/// total frame-buffer memory, temperature and fan speed.
pub const GPU_QUERY: &'static str = "utilization.gpu,memory.used,memory.total,temperature.gpu,fan.speed";

/// One GPU reading; a field the driver does not expose is `None`.
#[derive(Clone, Copy, Debug, Default, PartialEq, Eq, Structural)]
pub struct GpuTelemetry {
    pub usage_percent: Option<u64>,
    pub vram_percent: Option<u64>,
    pub temperature_celsius: Option<i64>,
    pub fan_percent: Option<u64>,
}

/// The first line that is not blank, trimmed.
pub open spec fn first_visible(ls: Seq<Seq<char>>) -> Option<Seq<char>>
    decreases ls.len(),
{
    if ls.len() == 0 {
        None
    } else if trim(ls[0]).len() > 0 {
        Some(trim(ls[0]))
    } else {
        first_visible(ls.drop_first())
    }
}

/// Skip blank lines and use the first visible GPU row.
pub fn first_gpu_line(stdout: &str) -> (r: Option<String>)
    ensures
        match r {
            Some(l) => first_visible(lines(stdout@)) == Some(l@),
            None => first_visible(lines(stdout@)) is None,
        },
{
    let text = chars_of(stdout);
    let ls = lines_of(&text);
    let ghost lv = seqs_of(ls@);
    let mut i: usize = 0;
    assert(lv.skip(0) =~= lv);
    while i < ls.len()
        invariant
            i <= ls.len(),
            lv == seqs_of(ls@),
            lv == lines(stdout@),
            first_visible(lv) == first_visible(lv.skip(i as int)),
        decreases ls.len() - i,
    {
        let t = trim_chars(&ls[i]);
        assert(lv.skip(i as int)[0] == ls@[i as int]@);
        if t.len() > 0 {
            return Some(string_from_chars(&t));
        }
        assert(lv.skip(i as int).drop_first() =~= lv.skip(i + 1));
        i = i + 1;
    }
    None
}

/// The comma-separated fields of a CSV row, each trimmed.
pub open spec fn csv_fields(line: Seq<char>) -> Seq<Seq<char>> {
    split_on(line, ',').map_values(|f: Seq<char>| trim(f))
}

/// Split the simple NVIDIA CSV row without bringing in a parser crate.
pub fn from_csv_fields(line: &str) -> (r: Vec<String>)
    ensures
        string_views(r@) == csv_fields(line@),
{
    let text = chars_of(line);
    let parts = split_chars(&text, ',');
    let ghost pv = seqs_of(parts@);
    let mut out: Vec<String> = Vec::new();
    let mut i: usize = 0;
    while i < parts.len()
        invariant
            i <= parts.len(),
            pv == seqs_of(parts@),
            string_views(out@) == pv.take(i as int).map_values(|f: Seq<char>| trim(f)),
        decreases parts.len() - i,
    {
        let t = trim_chars(&parts[i]);
        assert(parts@[i as int]@ == pv[i as int]);
        let ghost before = string_views(out@);
        let ghost tv = t@;
        out.push(string_from_chars(&t));
        assert(string_views(out@) =~= before.push(tv));
        assert(string_views(out@) =~= pv.take(i + 1).map_values(|f: Seq<char>| trim(f)));
        i = i + 1;
    }
    assert(pv.take(parts.len() as int) =~= pv);
    out
}

/// Text the driver uses for a field it cannot report.
pub open spec fn missing_field(value: Seq<char>) -> bool {
    let n = lower(trim(value));
    n.len() == 0 || n == "n/a"@ || n == "[not supported]"@ || n == "not supported"@
}

/// Treat unsupported telemetry values as absent instead of noisy text.
pub fn is_missing_field(value: &str) -> (r: bool)
    ensures
        r == missing_field(value@),
{
    let text = chars_of(value);
    let t = trim_chars(&text);
    let n = lower_chars(&t);
    n.len() == 0 || chars_eq_str(&n, "n/a") || chars_eq_str(&n, "[not supported]") || chars_eq_str(
        &n,
        "not supported",
    )
}

/// An unsigned field, absent when missing or unreadable.
pub open spec fn unsigned_field(value: Seq<char>) -> Option<u64> {
    if missing_field(value) {
        None
    } else {
        parse_u64_spec(value)
    }
}

/// A signed field, absent when missing or unreadable.
pub open spec fn signed_field(value: Seq<char>) -> Option<i64> {
    if missing_field(value) {
        None
    } else {
        parse_i64_spec(value)
    }
}

/// Parse an unsigned NVIDIA field when the driver exposes one.
pub fn from_unsigned_value(value: &str) -> (r: Option<u64>)
    ensures
        r == unsigned_field(value@),
{
    if is_missing_field(value) {
        return None;
    }
    let text = chars_of(value);
    parse_u64(&text)
}

/// Parse a Celsius field when the driver exposes one.
pub fn from_temperature(value: &str) -> (r: Option<i64>)
    ensures
        r == signed_field(value@),
{
    if is_missing_field(value) {
        return None;
    }
    let text = chars_of(value);
    parse_i64(&text)
}

/// Whole-percent occupancy, rounded half up and capped at 100; absent when
/// either input is absent or the total is zero.
pub open spec fn vram_spec(used: Option<u64>, total: Option<u64>) -> Option<u64> {
    match (used, total) {
        (Some(u), Some(t)) => if t == 0 {
            None
        } else {
            let rounded = (u * 100 + t / 2) / (t as int);
            Some(if rounded > 100 { 100 } else { rounded as u64 })
        },
        _ => None,
    }
}

/// Convert used and total frame-buffer memory to whole-percent occupancy.
pub fn vram_percent(used: Option<u64>, total: Option<u64>) -> (r: Option<u64>)
    ensures
        r == vram_spec(used, total),
        r matches Some(p) ==> p <= 100,
{
    let used = match used {
        Some(u) => u as u128,
        None => return None,
    };
    let total = match total {
        Some(t) => t as u128,
        None => return None,
    };
    if total == 0 {
        return None;
    }
    assert(used * 100 + total / 2 <= u128::MAX) by (nonlinear_arith)
        requires
            used <= u64::MAX,
            total <= u64::MAX,
    ;
    let rounded = (used * 100 + total / 2) / total;
    if rounded > 100 {
        Some(100)
    } else {
        Some(rounded as u64)
    }
}

/// The telemetry a CSV row gives, or the reason there is none.
pub open spec fn telemetry_spec(stdout: Seq<char>) -> Result<GpuTelemetry, Seq<char>> {
    match first_visible(lines(stdout)) {
        None => Err("nvidia-smi returned no GPU rows"@),
        Some(line) => {
            let f = csv_fields(line);
            if f.len() < 5 {
                Err("Incomplete GPU telemetry row: "@ + line)
            } else {
                Ok(
                    GpuTelemetry {
                        usage_percent: unsigned_field(f[0]),
                        vram_percent: vram_spec(unsigned_field(f[1]), unsigned_field(f[2])),
                        temperature_celsius: signed_field(f[3]),
                        fan_percent: unsigned_field(f[4]),
                    },
                )
            }
        },
    }
}

/// Parse the first reported GPU from the CSV query output.
pub fn from_gpu_telemetry(stdout: &str) -> (r: Result<GpuTelemetry, String>)
    ensures
        result_view(r) == telemetry_spec(stdout@),
{
    let line = match first_gpu_line(stdout) {
        Some(line) => line,
        None => return Err(string_from("nvidia-smi returned no GPU rows")),
    };
    let fields = from_csv_fields(line.as_str());
    let ghost fv = string_views(fields@);
    if fields.len() < 5 {
        let mut e = string_from("Incomplete GPU telemetry row: ");
        push_text(&mut e, line.as_str());
        return Err(e);
    }
    assert(fields@[0]@ == fv[0] && fields@[1]@ == fv[1] && fields@[2]@ == fv[2] && fields@[3]@
        == fv[3] && fields@[4]@ == fv[4]);
    let memory_used = from_unsigned_value(fields[1].as_str());
    let memory_total = from_unsigned_value(fields[2].as_str());
    Ok(
        GpuTelemetry {
            usage_percent: from_unsigned_value(fields[0].as_str()),
            vram_percent: vram_percent(memory_used, memory_total),
            temperature_celsius: from_temperature(fields[3].as_str()),
            fan_percent: from_unsigned_value(fields[4].as_str()),
        },
    )
}

/// The segments of the GPU block, in order.
pub open spec fn gpu_segments(usage: u64, t: GpuTelemetry) -> Seq<Seq<char>> {
    let s0 = seq![decimal(usage as nat) + "%"@];
    let s1 = match t.vram_percent {
        Some(v) => s0.push("V: "@ + decimal(v as nat) + "%"@),
        None => s0,
    };
    let s2 = match t.temperature_celsius {
        Some(c) => s1.push("T: "@ + signed_decimal(c as int) + "°"@),
        None => s1,
    };
    match t.fan_percent {
        Some(f) => s2.push("F: "@ + decimal(f as nat) + "%"@),
        None => s2,
    }
}

/// The GPU block: nothing without a utilization reading, otherwise the glyph
/// and the available segments joined by ` · `.
pub open spec fn gpu_output(glyph: Seq<char>, t: GpuTelemetry) -> Seq<char> {
    match t.usage_percent {
        None => seq![],
        Some(u) => glyph + join(gpu_segments(u, t), " · "@),
    }
}

/// Keep the GPU block compact while preserving the key signals.
pub fn format_gpu_output(glyph: &str, telemetry: GpuTelemetry) -> (r: String)
    ensures
        r@ == gpu_output(glyph@, telemetry),
{
    let usage = match telemetry.usage_percent {
        Some(u) => u,
        None => return String::new(),
    };
    let mut segments: Vec<String> = Vec::new();
    let mut first = String::new();
    push_decimal(&mut first, usage as u128);
    push_text(&mut first, "%");
    segments.push(first);
    let ghost s0 = string_views(segments@);
    assert(s0 =~= seq![decimal(usage as nat) + "%"@]);
    if let Some(v) = telemetry.vram_percent {
        let mut seg = string_from("V: ");
        push_decimal(&mut seg, v as u128);
        push_text(&mut seg, "%");
        let ghost before = string_views(segments@);
        let ghost sv = seg@;
        segments.push(seg);
        assert(string_views(segments@) =~= before.push(sv));
    }
    let ghost s1 = string_views(segments@);
    if let Some(c) = telemetry.temperature_celsius {
        let mut seg = string_from("T: ");
        push_signed(&mut seg, c);
        push_text(&mut seg, "°");
        let ghost before = string_views(segments@);
        let ghost sv = seg@;
        segments.push(seg);
        assert(string_views(segments@) =~= before.push(sv));
    }
    if let Some(f) = telemetry.fan_percent {
        let mut seg = string_from("F: ");
        push_decimal(&mut seg, f as u128);
        push_text(&mut seg, "%");
        let ghost before = string_views(segments@);
        let ghost sv = seg@;
        segments.push(seg);
        assert(string_views(segments@) =~= before.push(sv));
    }
    assert(string_views(segments@) == gpu_segments(usage, telemetry));
    let body = join_strings(&segments, " · ");
    let mut out = string_from(glyph);
    push_text(&mut out, body.as_str());
    out
}

} // verus!
