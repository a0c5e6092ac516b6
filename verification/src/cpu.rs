//! CPU counters from `/proc/stat` and CPU temperature from sysfs sensors.

use vstd::prelude::*;
use crate::numbers::{decimal, parse_i64, parse_i64_spec, parse_u64, parse_u64_spec, push_decimal, push_signed, signed_decimal};
use crate::text::{
    chars_eq_str, chars_of, contains_str, ends_with_str, has_infix, has_prefix, has_suffix, lines,
    lines_of, lower, lower_chars, push_text, seqs_of, slice_chars, starts_with_str, string_from,
    string_from_chars, trim, trim_chars, words, words_of,
};

verus! {

/// Cumulative jiffies of one CPU line: all of them, and the idle plus iowait ones.
#[derive(Clone, Copy, Debug, Default, PartialEq, Eq, Structural)]
pub struct CpuSample {
    pub total: u64,
    pub idle: u64,
}

/// The aggregate counters and the per-core counters in file order.
#[derive(Clone, Debug)]
pub struct CpuSnapshot {
    pub total: CpuSample,
    pub cores: Vec<CpuSample>,
}

/// The value of a counter column, zero when it does not read as a `u64`.
pub open spec fn field_val(f: Seq<char>) -> nat {
    match parse_u64_spec(f) {
        Some(v) => v as nat,
        None => 0,
    }
}

/// The position of the first column from `k` on that does not read as a `u64`,
/// or the length when all do.
pub open spec fn first_unparsed(fs: Seq<Seq<char>>, k: nat) -> nat
    decreases fs.len() - k,
{
    if k >= fs.len() {
        fs.len()
    } else if parse_u64_spec(fs[k as int]) is None {
        k
    } else {
        first_unparsed(fs, k + 1)
    }
}

/// The sum of the first `n` counter columns.
pub open spec fn sum_vals(fs: Seq<Seq<char>>, n: nat) -> nat
    decreases n,
{
    if n == 0 || n > fs.len() {
        0
    } else {
        sum_vals(fs, (n - 1) as nat) + field_val(fs[n - 1])
    }
}

/// The counter columns after the name.
pub open spec fn counter_columns(line: Seq<char>) -> Seq<Seq<char>> {
    let f = words(line);
    if f.len() > 0 {
        f.skip(1)
    } else {
        f
    }
}

/// A line whose name begins with `cpu`.
pub open spec fn is_cpu_line(line: Seq<char>) -> bool {
    words(line).len() > 0 && has_prefix(words(line)[0], "cpu"@)
}

/// The running sum of a CPU line's counters stays within `u64`, so adding
/// them up cannot overflow before a column fails to read.
pub open spec fn cpu_line_fits(line: Seq<char>) -> bool {
    let rest = counter_columns(line);
    !is_cpu_line(line) || sum_vals(rest, first_unparsed(rest, 0)) <= u64::MAX
}

/// The name and counters one `/proc/stat` line gives: a first word starting
/// with `cpu`, then at least four columns that all read as `u64`; the total is
/// their sum and idle is columns four and five (idle and iowait).
pub open spec fn cpu_line_spec(line: Seq<char>) -> Option<(Seq<char>, CpuSample)> {
    let rest = counter_columns(line);
    if !is_cpu_line(line) || first_unparsed(rest, 0) < rest.len() || rest.len() < 4 {
        None
    } else {
        Some(
            (
                words(line)[0],
                CpuSample {
                    total: sum_vals(rest, rest.len()) as u64,
                    idle: (field_val(rest[3]) + if rest.len() > 4 {
                        field_val(rest[4])
                    } else {
                        0
                    }) as u64,
                },
            ),
        )
    }
}

/// Where `first_unparsed` lands.
proof fn lemma_first_unparsed(fs: Seq<Seq<char>>, k: nat)
    requires
        k <= fs.len(),
    ensures
        k <= first_unparsed(fs, k) <= fs.len(),
        forall|j: int| k <= j < first_unparsed(fs, k) ==> parse_u64_spec(#[trigger] fs[j]) is Some,
        first_unparsed(fs, k) < fs.len() ==> parse_u64_spec(fs[first_unparsed(fs, k) as int]) is None,
    decreases fs.len() - k,
{
    if k < fs.len() && parse_u64_spec(fs[k as int]) is Some {
        lemma_first_unparsed(fs, k + 1);
    }
}

/// Partial sums grow with the number of columns.
proof fn lemma_sum_vals_monotone(fs: Seq<Seq<char>>, a: nat, b: nat)
    requires
        a <= b <= fs.len(),
    ensures
        sum_vals(fs, a) <= sum_vals(fs, b),
    decreases b,
{
    if a < b {
        lemma_sum_vals_monotone(fs, a, (b - 1) as nat);
    }
}

/// Parse one procfs CPU counter line.
pub fn parse_cpu_line(line: &str) -> (r: Option<(String, CpuSample)>)
    requires
        cpu_line_fits(line@),
    ensures
        match r {
            Some((name, s)) => cpu_line_spec(line@) == Some((name@, s)),
            None => cpu_line_spec(line@) is None,
        },
{
    let text = chars_of(line);
    parse_cpu_chars(&text)
}

/// Parse one CPU counter line given as characters.
fn parse_cpu_chars(text: &Vec<char>) -> (r: Option<(String, CpuSample)>)
    requires
        cpu_line_fits(text@),
    ensures
        match r {
            Some((name, s)) => cpu_line_spec(text@) == Some((name@, s)),
            None => cpu_line_spec(text@) is None,
        },
{
    let fields = words_of(text);
    let ghost fv = seqs_of(fields@);
    if fields.len() == 0 {
        return None;
    }
    assert(fields@[0]@ == fv[0]);
    if !starts_with_str(&fields[0], "cpu") {
        return None;
    }
    let ghost rest = fv.skip(1);
    proof {
        lemma_first_unparsed(rest, 0);
        lemma_sum_vals_monotone(rest, 0, first_unparsed(rest, 0));
    }
    let mut total: u64 = 0;
    let mut idle: u64 = 0;
    let mut index: usize = 0;
    while index + 1 < fields.len()
        invariant
            1 <= fields.len(),
            fv == seqs_of(fields@),
            fv == words(text@),
            has_prefix(fv[0], "cpu"@),
            rest == fv.skip(1),
            index + 1 <= fields.len(),
            index <= first_unparsed(rest, 0),
            first_unparsed(rest, 0) <= rest.len(),
            sum_vals(rest, first_unparsed(rest, 0)) <= u64::MAX,
            forall|j: int| 0 <= j < first_unparsed(rest, 0) ==> parse_u64_spec(#[trigger] rest[j]) is Some,
            first_unparsed(rest, 0) < rest.len() ==> parse_u64_spec(rest[first_unparsed(rest, 0) as int]) is None,
            total as nat == sum_vals(rest, index as nat),
            idle as nat == (if index > 3 { field_val(rest[3]) } else { 0 }) + (if index > 4 {
                field_val(rest[4])
            } else {
                0
            }),
        decreases fields.len() - index,
    {
        assert(fields@[index + 1]@ == rest[index as int]);
        let value = match parse_u64(&fields[index + 1]) {
            Some(v) => v,
            None => {
                proof {
                    assert(parse_u64_spec(rest[index as int]) is None);
                    if (index as nat) < first_unparsed(rest, 0) {
                        assert(parse_u64_spec(rest[index as int]) is Some);
                    }
                    assert(first_unparsed(rest, 0) < rest.len());
                }
                return None;
            },
        };
        proof {
            if (index as nat) == first_unparsed(rest, 0) {
                assert(first_unparsed(rest, 0) < rest.len());
                assert(parse_u64_spec(rest[index as int]) is Some);
            }
            lemma_sum_vals_monotone(rest, (index + 1) as nat, first_unparsed(rest, 0));
        }
        total = total + value;
        if index == 3 || index == 4 {
            idle = idle + value;
        }
        index = index + 1;
    }
    if index < 4 {
        return None;
    }
    Some((string_from_chars(&fields[0]), CpuSample { total, idle }))
}

/// The snapshot fold state: the last aggregate line seen and the cores so far.
pub open spec fn cpu_scan(ls: Seq<Seq<char>>) -> (Option<CpuSample>, Seq<CpuSample>)
    decreases ls.len(),
{
    if ls.len() == 0 {
        (None, seq![])
    } else {
        let prev = cpu_scan(ls.drop_last());
        match cpu_line_spec(ls.last()) {
            None => prev,
            Some((name, s)) => if name == "cpu"@ {
                (Some(s), prev.1)
            } else {
                (prev.0, prev.1.push(s))
            },
        }
    }
}

/// A line that becomes a per-core sample: a CPU line whose name is not
/// exactly `cpu`.
pub open spec fn is_core_line(line: Seq<char>) -> bool {
    match cpu_line_spec(line) {
        Some(p) => p.0 != "cpu"@,
        None => false,
    }
}

/// A line that becomes the aggregate sample: a CPU line named exactly `cpu`.
pub open spec fn is_aggregate_line(line: Seq<char>) -> bool {
    match cpu_line_spec(line) {
        Some(p) => p.0 == "cpu"@,
        None => false,
    }
}

/// The sample a CPU line gives (zeros for a line that gives none).
pub open spec fn line_sample(line: Seq<char>) -> CpuSample {
    match cpu_line_spec(line) {
        Some(p) => p.1,
        None => CpuSample { total: 0, idle: 0 },
    }
}

/// How many per-core lines stand before position `n`.
pub open spec fn cores_before(ls: Seq<Seq<char>>, n: int) -> nat
    decreases n,
{
    if n <= 0 {
        0
    } else {
        cores_before(ls, n - 1) + if is_core_line(ls[n - 1]) {
            1nat
        } else {
            0nat
        }
    }
}

/// Counting per-core lines only looks at the lines before the position.
proof fn lemma_cores_before_prefix(ls: Seq<Seq<char>>, pre: Seq<Seq<char>>, n: int)
    requires
        0 <= n <= pre.len() <= ls.len(),
        forall|j: int| 0 <= j < pre.len() ==> ls[j] == pre[j],
    ensures
        cores_before(ls, n) == cores_before(pre, n),
    decreases n,
{
    if n > 0 {
        lemma_cores_before_prefix(ls, pre, n - 1);
    }
}

/// The count of per-core lines never falls as the position grows.
proof fn lemma_cores_before_monotone(ls: Seq<Seq<char>>, a: int, b: int)
    requires
        0 <= a <= b,
    ensures
        cores_before(ls, a) <= cores_before(ls, b),
    decreases b - a,
{
    if a < b {
        lemma_cores_before_monotone(ls, a, b - 1);
    }
}

/// The per-core samples come in file order: there is one per per-core line,
/// and the line at position `i` gives the sample at the index that counts
/// the per-core lines before it. The aggregate sample is that of the last
/// aggregate line, and there is one exactly when such a line exists.
pub proof fn law_cores_in_file_order(ls: Seq<Seq<char>>)
    ensures
        cpu_scan(ls).1.len() == cores_before(ls, ls.len() as int),
        forall|i: int|
            0 <= i < ls.len() && #[trigger] is_core_line(ls[i]) ==> cpu_scan(ls).1[cores_before(
                ls,
                i,
            ) as int] == line_sample(ls[i]),
        cpu_scan(ls).0 is Some <==> exists|i: int| 0 <= i < ls.len() && #[trigger] is_aggregate_line(ls[i]),
        forall|i: int|
            0 <= i < ls.len() && #[trigger] is_aggregate_line(ls[i]) && (forall|j: int|
                i < j < ls.len() ==> !is_aggregate_line(#[trigger] ls[j])) ==> cpu_scan(ls).0
                == Some(line_sample(ls[i])),
    decreases ls.len(),
{
    if ls.len() > 0 {
        let pre = ls.drop_last();
        let n = pre.len() as int;
        law_cores_in_file_order(pre);
        assert forall|j: int| 0 <= j < pre.len() implies ls[j] == pre[j] by {}
        assert forall|i: int| 0 <= i <= n implies cores_before(ls, i) == cores_before(pre, i) by {
            lemma_cores_before_prefix(ls, pre, i);
        }
        let last = ls.last();
        assert(ls[n] == last);
        assert forall|i: int|
            0 <= i < ls.len() && #[trigger] is_core_line(ls[i]) implies cpu_scan(ls).1[cores_before(
            ls,
            i,
        ) as int] == line_sample(ls[i]) by {
            if i < n {
                assert(ls[i] == pre[i]);
                assert(is_core_line(pre[i]));
                lemma_cores_before_monotone(pre, i + 1, n);
                assert(cores_before(pre, i + 1) == cores_before(pre, i) + 1);
                assert(cores_before(ls, i) == cores_before(pre, i));
            } else {
                assert(cores_before(ls, n) == cores_before(pre, n));
            }
        }
        if cpu_scan(ls).0 is Some {
            if !is_aggregate_line(last) {
                let i = choose|i: int| 0 <= i < pre.len() && #[trigger] is_aggregate_line(pre[i]);
                assert(is_aggregate_line(ls[i]));
            } else {
                assert(is_aggregate_line(ls[n]));
            }
        } else {
            assert forall|i: int| 0 <= i < ls.len() implies !#[trigger] is_aggregate_line(ls[i]) by {
                if i < n {
                    assert(ls[i] == pre[i]);
                }
            }
        }
        assert forall|i: int|
            0 <= i < ls.len() && #[trigger] is_aggregate_line(ls[i]) && (forall|j: int|
                i < j < ls.len() ==> !is_aggregate_line(#[trigger] ls[j])) implies cpu_scan(ls).0
            == Some(line_sample(ls[i])) by {
            if i < n {
                assert(!is_aggregate_line(ls[n]));
                assert(ls[i] == pre[i]);
                assert(is_aggregate_line(pre[i]));
                assert forall|j: int| i < j < pre.len() implies !is_aggregate_line(#[trigger] pre[j]) by {
                    assert(ls[j] == pre[j]);
                    assert(!is_aggregate_line(ls[j]));
                }
            }
        }
    }
}

/// Every CPU line of a `/proc/stat` text can be summed without overflow.
pub open spec fn proc_stat_fits(text: Seq<char>) -> bool {
    forall|i: int| 0 <= i < lines(text).len() ==> cpu_line_fits(#[trigger] lines(text)[i])
}

/// The aggregate `cpu` line (the last one, if several) and the other CPU
/// lines in order; an error when there is no aggregate line.
pub open spec fn cpu_snapshot_spec(text: Seq<char>) -> Result<(CpuSample, Seq<CpuSample>), Seq<char>> {
    let s = cpu_scan(lines(text));
    match s.0 {
        Some(t) => Ok((t, s.1)),
        None => Err("Missing aggregate cpu line in /proc/stat"@),
    }
}

/// Whether the counters of one CPU line add up within `u64`.
fn cpu_line_sums_fit(text: &Vec<char>) -> (r: bool)
    ensures
        r == cpu_line_fits(text@),
{
    let fields = words_of(text);
    let ghost fv = seqs_of(fields@);
    if fields.len() == 0 {
        return true;
    }
    assert(fields@[0]@ == fv[0]);
    if !starts_with_str(&fields[0], "cpu") {
        return true;
    }
    let ghost rest = fv.skip(1);
    proof {
        lemma_first_unparsed(rest, 0);
    }
    let mut total: u64 = 0;
    let mut index: usize = 0;
    while index + 1 < fields.len()
        invariant
            1 <= fields.len(),
            fv == seqs_of(fields@),
            fv == words(text@),
            has_prefix(fv[0], "cpu"@),
            rest == fv.skip(1),
            index + 1 <= fields.len(),
            index <= first_unparsed(rest, 0),
            first_unparsed(rest, 0) <= rest.len(),
            forall|j: int| 0 <= j < first_unparsed(rest, 0) ==> parse_u64_spec(#[trigger] rest[j]) is Some,
            first_unparsed(rest, 0) < rest.len() ==> parse_u64_spec(rest[first_unparsed(rest, 0) as int]) is None,
            total as nat == sum_vals(rest, index as nat),
        decreases fields.len() - index,
    {
        assert(fields@[index + 1]@ == rest[index as int]);
        let value = match parse_u64(&fields[index + 1]) {
            Some(v) => v,
            None => {
                proof {
                    if (index as nat) < first_unparsed(rest, 0) {
                        assert(parse_u64_spec(rest[index as int]) is Some);
                    }
                }
                return true;
            },
        };
        proof {
            if (index as nat) == first_unparsed(rest, 0) {
                assert(parse_u64_spec(rest[index as int]) is Some);
            }
        }
        match total.checked_add(value) {
            Some(t) => {
                total = t;
            },
            None => {
                proof {
                    lemma_sum_vals_monotone(rest, (index + 1) as nat, first_unparsed(rest, 0));
                }
                return false;
            },
        }
        index = index + 1;
    }
    true
}

/// Whether every CPU line of a `/proc/stat` text adds up within `u64`, which
/// `parse_cpu_snapshot` needs.
pub fn proc_stat_sums_fit(proc_stat: &str) -> (r: bool)
    ensures
        r == proc_stat_fits(proc_stat@),
{
    let text = chars_of(proc_stat);
    let ls = lines_of(&text);
    let ghost lv = seqs_of(ls@);
    let mut i: usize = 0;
    while i < ls.len()
        invariant
            i <= ls.len(),
            lv == seqs_of(ls@),
            lv == lines(proc_stat@),
            forall|j: int| 0 <= j < i ==> cpu_line_fits(#[trigger] lv[j]),
        decreases ls.len() - i,
    {
        assert(lv[i as int] == ls@[i as int]@);
        if !cpu_line_sums_fit(&ls[i]) {
            return false;
        }
        i = i + 1;
    }
    true
}

/// Parse the aggregate and per-core counters from procfs.
pub fn parse_cpu_snapshot(proc_stat: &str) -> (r: Result<CpuSnapshot, String>)
    requires
        proc_stat_fits(proc_stat@),
    ensures
        match r {
            Ok(snap) => cpu_snapshot_spec(proc_stat@) == Ok::<(CpuSample, Seq<CpuSample>), Seq<char>>((snap.total, snap.cores@)),
            Err(e) => cpu_snapshot_spec(proc_stat@) == Err::<(CpuSample, Seq<CpuSample>), Seq<char>>(e@),
        },
{
    let text = chars_of(proc_stat);
    let ls = lines_of(&text);
    let ghost lv = seqs_of(ls@);
    let mut total: Option<CpuSample> = None;
    let mut cores: Vec<CpuSample> = Vec::new();
    let mut i: usize = 0;
    assert(lv.take(0) =~= Seq::<Seq<char>>::empty());
    while i < ls.len()
        invariant
            i <= ls.len(),
            lv == seqs_of(ls@),
            lv == lines(proc_stat@),
            proc_stat_fits(proc_stat@),
            cpu_scan(lv.take(i as int)) == (total, cores@),
        decreases ls.len() - i,
    {
        assert(lv.take(i + 1).drop_last() =~= lv.take(i as int));
        assert(lv.take(i + 1).last() == ls@[i as int]@);
        assert(cpu_line_fits(lv[i as int]));
        match parse_cpu_chars(&ls[i]) {
            Some((name, sample)) => {
                let nc = chars_of(name.as_str());
                if chars_eq_str(&nc, "cpu") {
                    total = Some(sample);
                } else {
                    cores.push(sample);
                }
            },
            None => {},
        }
        i = i + 1;
    }
    assert(lv.take(ls.len() as int) =~= lv);
    match total {
        Some(total) => Ok(CpuSnapshot { total, cores }),
        None => Err(string_from("Missing aggregate cpu line in /proc/stat")),
    }
}

// ---------------------------------------------------------------------------
// Temperature
// ---------------------------------------------------------------------------

/// A CPU temperature reading and how strongly its source points at the CPU package.
#[derive(Clone, Copy, Debug, PartialEq, Eq, Structural)]
pub struct TemperatureCandidate {
    pub score: i32,
    pub millidegrees: i64,
}

/// A millidegree reading that is plausible for a CPU in Celsius.
pub open spec fn sane_temperature(m: int) -> bool {
    0 < m < 150_000
}

/// Reject sensors that are obviously broken or not in Celsius.
pub fn is_sane_temperature(millidegrees: i64) -> (r: bool)
    ensures
        r == sane_temperature(millidegrees as int),
{
    millidegrees > 0 && millidegrees < 150_000
}

/// The millidegree value of a sysfs temperature text, when it reads as an
/// `i64` after trimming and is plausible.
pub open spec fn temperature_value_spec(value: Seq<char>) -> Option<i64> {
    match parse_i64_spec(trim(value)) {
        Some(v) => if sane_temperature(v as int) {
            Some(v)
        } else {
            None
        },
        None => None,
    }
}

/// Parse one millidegree sysfs value.
pub fn from_temperature_value(value: &str) -> (r: Option<i64>)
    ensures
        r == temperature_value_spec(value@),
{
    let text = chars_of(value);
    let t = trim_chars(&text);
    let v = match parse_i64(&t) {
        Some(v) => v,
        None => return None,
    };
    if !is_sane_temperature(v) {
        return None;
    }
    Some(v)
}

/// How strongly an hwmon device name points at a CPU temperature source.
pub open spec fn hwmon_name_score(name: Seq<char>) -> int {
    let n = lower(name);
    if has_infix(n, "coretemp"@) || has_infix(n, "k10temp"@) || has_infix(n, "zenpower"@) {
        20
    } else if has_infix(n, "cpu"@) || has_infix(n, "package"@) || has_infix(n, "pkg"@) {
        12
    } else if has_infix(n, "acpitz"@) || has_infix(n, "nvme"@) || has_infix(n, "iwlwifi"@)
        || has_infix(n, "pch"@) || has_infix(n, "amdgpu"@) || has_infix(n, "battery"@) {
        -10
    } else {
        0
    }
}

/// How strongly an hwmon sensor label points at the CPU package.
pub open spec fn hwmon_label_score(label: Seq<char>) -> int {
    let l = lower(label);
    if has_infix(l, "package id 0"@) {
        24
    } else if has_infix(l, "package"@) || has_infix(l, "tctl"@) || has_infix(l, "tdie"@) {
        20
    } else if has_infix(l, "cpu"@) {
        16
    } else if has_infix(l, "core"@) {
        8
    } else {
        0
    }
}

/// How strongly a thermal zone type points at the CPU package.
pub open spec fn thermal_score(zone_type: Seq<char>) -> int {
    let z = lower(zone_type);
    if has_infix(z, "x86_pkg_temp"@) {
        24
    } else if has_infix(z, "cpu"@) || has_infix(z, "package"@) {
        18
    } else if has_infix(z, "soc"@) {
        8
    } else if has_infix(z, "acpitz"@) || has_infix(z, "pch"@) {
        -10
    } else {
        0
    }
}

/// Prefer hwmon devices that are known CPU temperature sources.
pub fn score_hwmon_name(name: &str) -> (r: i32)
    ensures
        r as int == hwmon_name_score(name@),
{
    let text = chars_of(name);
    let n = lower_chars(&text);
    if contains_str(&n, "coretemp") || contains_str(&n, "k10temp") || contains_str(&n, "zenpower") {
        return 20;
    }
    if contains_str(&n, "cpu") || contains_str(&n, "package") || contains_str(&n, "pkg") {
        return 12;
    }
    if contains_str(&n, "acpitz") || contains_str(&n, "nvme") || contains_str(&n, "iwlwifi")
        || contains_str(&n, "pch") || contains_str(&n, "amdgpu") || contains_str(&n, "battery") {
        return -10;
    }
    0
}

/// Prefer labels that point at the package rather than board sensors.
pub fn score_hwmon_label(label: &str) -> (r: i32)
    ensures
        r as int == hwmon_label_score(label@),
{
    let text = chars_of(label);
    let l = lower_chars(&text);
    if contains_str(&l, "package id 0") {
        return 24;
    }
    if contains_str(&l, "package") || contains_str(&l, "tctl") || contains_str(&l, "tdie") {
        return 20;
    }
    if contains_str(&l, "cpu") {
        return 16;
    }
    if contains_str(&l, "core") {
        return 8;
    }
    0
}

/// Score hwmon metadata by how strongly it points at the CPU package.
pub fn score_hwmon_candidate(name: &str, label: &str) -> (r: i32)
    ensures
        r as int == hwmon_name_score(name@) + hwmon_label_score(label@),
{
    score_hwmon_name(name) + score_hwmon_label(label)
}

/// Prefer thermal zones that explicitly expose CPU package state.
pub fn score_thermal_candidate(zone_type: &str) -> (r: i32)
    ensures
        r as int == thermal_score(zone_type@),
{
    let text = chars_of(zone_type);
    let z = lower_chars(&text);
    if contains_str(&z, "x86_pkg_temp") {
        return 24;
    }
    if contains_str(&z, "cpu") || contains_str(&z, "package") {
        return 18;
    }
    if contains_str(&z, "soc") {
        return 8;
    }
    if contains_str(&z, "acpitz") || contains_str(&z, "pch") {
        return -10;
    }
    0
}

/// The characters of `_input`.
pub open spec fn input_suffix() -> Seq<char> {
    seq!['_', 'i', 'n', 'p', 'u', 't']
}

/// Every trailing `_input` removed, as `str::trim_end_matches("_input")` does.
pub open spec fn strip_input(s: Seq<char>) -> Seq<char>
    decreases s.len(),
{
    if s.len() >= 6 && s.subrange(s.len() - 6, s.len() as int) == input_suffix() {
        strip_input(s.subrange(0, s.len() - 6))
    } else {
        s
    }
}

/// The sensor prefix of a `temp*_input` file name.
pub open spec fn temperature_prefix_spec(file_name: Seq<char>) -> Option<Seq<char>> {
    if has_prefix(file_name, "temp"@) && has_suffix(file_name, input_suffix()) {
        Some(strip_input(file_name))
    } else {
        None
    }
}

/// Match `temp*_input` files and return the shared prefix.
pub fn temperature_prefix(file_name: &str) -> (r: Option<String>)
    ensures
        match r {
            Some(p) => temperature_prefix_spec(file_name@) == Some(p@),
            None => temperature_prefix_spec(file_name@) is None,
        },
{
    proof {
        reveal_strlit("_input");
    }
    let text = chars_of(file_name);
    assert("_input"@ =~= input_suffix());
    if !starts_with_str(&text, "temp") || !ends_with_str(&text, "_input") {
        return None;
    }
    let mut end = text.len();
    let ghost full = text@;
    assert(full.subrange(0, end as int) =~= full);
    while end >= 6 && matches_input_at(&text, end - 6)
        invariant
            end <= text.len(),
            full == text@,
            strip_input(full) == strip_input(full.subrange(0, end as int)),
        decreases end,
    {
        assert(full.subrange(0, end as int).subrange(end - 6, end as int) =~= full.subrange(
            end - 6,
            end as int,
        ));
        assert(full.subrange(0, end as int).subrange(0, end - 6) =~= full.subrange(0, end - 6));
        end = end - 6;
    }
    assert(full.subrange(0, end as int).len() >= 6 ==> full.subrange(0, end as int).subrange(
        end - 6,
        end as int,
    ) =~= full.subrange(end - 6, end as int));
    let prefix = slice_chars(&text, 0, end);
    Some(string_from_chars(&prefix))
}

/// `_input` stands in `s` at `i`.
fn matches_input_at(s: &Vec<char>, i: usize) -> (r: bool)
    requires
        i + 6 <= s.len(),
    ensures
        r == (s@.subrange(i as int, i + 6) == input_suffix()),
{
    let r = s[i] == '_' && s[i + 1] == 'i' && s[i + 2] == 'n' && s[i + 3] == 'p' && s[i + 4] == 'u'
        && s[i + 5] == 't';
    proof {
        if r {
            assert(s@.subrange(i as int, i + 6) =~= input_suffix());
        } else if s@.subrange(i as int, i + 6) == input_suffix() {
            assert(s@.subrange(i as int, i + 6)[0] == '_');
            assert(s@.subrange(i as int, i + 6)[1] == 'i');
            assert(s@.subrange(i as int, i + 6)[2] == 'n');
            assert(s@.subrange(i as int, i + 6)[3] == 'p');
            assert(s@.subrange(i as int, i + 6)[4] == 'u');
            assert(s@.subrange(i as int, i + 6)[5] == 't');
        }
    }
    r
}

/// Keep the earlier candidate unless the new one scores strictly higher.
pub open spec fn better(current: Option<TemperatureCandidate>, candidate: TemperatureCandidate) -> TemperatureCandidate {
    match current {
        Some(c) => if c.score >= candidate.score {
            c
        } else {
            candidate
        },
        None => candidate,
    }
}

/// Keep only the strongest temperature match.
pub fn better_candidate(current: Option<TemperatureCandidate>, candidate: TemperatureCandidate) -> (r:
    Option<TemperatureCandidate>)
    ensures
        r == Some(better(current, candidate)),
{
    match current {
        Some(current) if current.score >= candidate.score => Some(current),
        _ => Some(candidate),
    }
}

/// Whole degrees Celsius, rounding half a degree up.
pub open spec fn whole_degrees(millidegrees: int) -> int {
    (millidegrees + 500) / 1000
}

/// Whole degrees Celsius of a plausible reading, for a narrow status block;
/// the readings the scans keep are all positive, where rounding half up is
/// rounding to nearest.
fn round_millidegrees(millidegrees: i64) -> (r: i64)
    requires
        sane_temperature(millidegrees as int),
    ensures
        r as int == whole_degrees(millidegrees as int),
{
    (millidegrees + 500) / 1000
}

/// One file of a sysfs sensor directory: its name and its text, `None` when it
/// could not be read.
pub struct SensorFile {
    pub name: String,
    pub contents: Option<String>,
}

/// One hwmon device directory: the text of its `name` file and its files.
pub struct HwmonDevice {
    pub name: Option<String>,
    pub files: Vec<SensorFile>,
}

/// One thermal zone directory: the text of its `type` and `temp` files.
pub struct ThermalZone {
    pub zone_type: Option<String>,
    pub temp: Option<String>,
}

/// The trimmed text of a file that could be read, empty otherwise.
pub open spec fn trimmed_or_empty(t: Option<String>) -> Seq<char> {
    match t {
        Some(s) => trim(s@),
        None => seq![],
    }
}

/// The trimmed text of the first file called `name`, empty when there is none
/// or it could not be read.
pub open spec fn file_text(files: Seq<SensorFile>, name: Seq<char>) -> Seq<char>
    decreases files.len(),
{
    if files.len() == 0 {
        seq![]
    } else if files[0].name@ == name {
        trimmed_or_empty(files[0].contents)
    } else {
        file_text(files.drop_first(), name)
    }
}

/// The candidate one hwmon file gives: a `temp*_input` file whose trimmed text
/// is a plausible reading, scored by the device name and the matching
/// `temp*_label` file, kept only with a positive score.
pub open spec fn hwmon_candidate(device_name: Seq<char>, files: Seq<SensorFile>, f: SensorFile) -> Option<TemperatureCandidate> {
    match temperature_prefix_spec(f.name@) {
        None => None,
        Some(prefix) => match f.contents {
            None => None,
            Some(c) => match temperature_value_spec(trim(c@)) {
                None => None,
                Some(v) => {
                    let score = hwmon_name_score(device_name) + hwmon_label_score(
                        file_text(files, prefix + "_label"@),
                    );
                    if score <= 0 {
                        None
                    } else {
                        Some(TemperatureCandidate { score: score as i32, millidegrees: v })
                    }
                },
            },
        },
    }
}

/// The best candidate after the first `n` files of one device.
pub open spec fn scan_files(
    best: Option<TemperatureCandidate>,
    device_name: Seq<char>,
    files: Seq<SensorFile>,
    n: nat,
) -> Option<TemperatureCandidate>
    decreases n,
{
    if n == 0 || n > files.len() {
        best
    } else {
        let b = scan_files(best, device_name, files, (n - 1) as nat);
        match hwmon_candidate(device_name, files, files[n - 1]) {
            Some(c) => Some(better(b, c)),
            None => b,
        }
    }
}

/// The best hwmon candidate over all devices, earlier ones kept on ties.
pub open spec fn scan_hwmon(devices: Seq<HwmonDevice>) -> Option<TemperatureCandidate>
    decreases devices.len(),
{
    if devices.len() == 0 {
        None
    } else {
        let d = devices.last();
        scan_files(scan_hwmon(devices.drop_last()), trimmed_or_empty(d.name), d.files@, d.files@.len())
    }
}

/// The candidate one thermal zone gives.
pub open spec fn thermal_candidate(z: ThermalZone) -> Option<TemperatureCandidate> {
    match z.zone_type {
        None => None,
        Some(t) => match z.temp {
            None => None,
            Some(c) => match temperature_value_spec(trim(c@)) {
                None => None,
                Some(v) => {
                    let score = thermal_score(trim(t@));
                    if score <= 0 {
                        None
                    } else {
                        Some(TemperatureCandidate { score: score as i32, millidegrees: v })
                    }
                },
            },
        },
    }
}

/// The best thermal-zone candidate, earlier ones kept on ties.
pub open spec fn scan_thermal(zones: Seq<ThermalZone>) -> Option<TemperatureCandidate>
    decreases zones.len(),
{
    if zones.len() == 0 {
        None
    } else {
        let b = scan_thermal(zones.drop_last());
        match thermal_candidate(zones.last()) {
            Some(c) => Some(better(b, c)),
            None => b,
        }
    }
}

/// The trimmed text of a file that could be read, empty otherwise.
fn read_trimmed(t: &Option<String>) -> (r: Vec<char>)
    ensures
        r@ == trimmed_or_empty(*t),
{
    match t {
        Some(s) => {
            let c = chars_of(s.as_str());
            trim_chars(&c)
        },
        None => Vec::new(),
    }
}

/// Find the trimmed text of the file called `name`.
fn find_file_text(files: &Vec<SensorFile>, name: &Vec<char>) -> (r: Vec<char>)
    ensures
        r@ == file_text(files@, name@),
{
    let mut i: usize = 0;
    assert(files@.skip(0) =~= files@);
    while i < files.len()
        invariant
            i <= files.len(),
            file_text(files@, name@) == file_text(files@.skip(i as int), name@),
        decreases files.len() - i,
    {
        let fname = chars_of(files[i].name.as_str());
        assert(files@.skip(i as int)[0] == files@[i as int]);
        if crate::text::chars_eq(&fname, name) {
            return read_trimmed(&files[i].contents);
        }
        assert(files@.skip(i as int).drop_first() =~= files@.skip(i + 1));
        i = i + 1;
    }
    Vec::new()
}

/// The candidate of one hwmon file.
fn hwmon_file_candidate(device_name: &Vec<char>, files: &Vec<SensorFile>, i: usize) -> (r: Option<
    TemperatureCandidate,
>)
    requires
        i < files.len(),
    ensures
        r == hwmon_candidate(device_name@, files@, files@[i as int]),
{
    let f = &files[i];
    let prefix = match temperature_prefix(f.name.as_str()) {
        Some(p) => p,
        None => return None,
    };
    let contents = match &f.contents {
        Some(c) => c,
        None => return None,
    };
    let ct = chars_of(contents.as_str());
    let ct = trim_chars(&ct);
    let ct = string_from_chars(&ct);
    let value = match from_temperature_value(ct.as_str()) {
        Some(v) => v,
        None => return None,
    };
    let mut label_name = prefix;
    push_text(&mut label_name, "_label");
    let label_chars = chars_of(label_name.as_str());
    let label = find_file_text(files, &label_chars);
    let label = string_from_chars(&label);
    let dn = string_from_chars(device_name);
    let score = score_hwmon_candidate(dn.as_str(), label.as_str());
    if score <= 0 {
        return None;
    }
    Some(TemperatureCandidate { score, millidegrees: value })
}

/// Prefer hwmon labels that clearly belong to the CPU package.
pub fn best_hwmon_temperature(devices: &Vec<HwmonDevice>) -> (r: Option<TemperatureCandidate>)
    ensures
        r == scan_hwmon(devices@),
{
    let mut best: Option<TemperatureCandidate> = None;
    let mut d: usize = 0;
    assert(devices@.take(0) =~= Seq::<HwmonDevice>::empty());
    while d < devices.len()
        invariant
            d <= devices.len(),
            best == scan_hwmon(devices@.take(d as int)),
        decreases devices.len() - d,
    {
        let dev = &devices[d];
        let name = read_trimmed(&dev.name);
        let ghost start = best;
        let mut i: usize = 0;
        while i < dev.files.len()
            invariant
                i <= dev.files.len(),
                name@ == trimmed_or_empty(dev.name),
                best == scan_files(start, name@, dev.files@, i as nat),
            decreases dev.files.len() - i,
        {
            match hwmon_file_candidate(&name, &dev.files, i) {
                Some(c) => {
                    best = better_candidate(best, c);
                },
                None => {},
            }
            i = i + 1;
        }
        assert(devices@.take(d + 1).drop_last() =~= devices@.take(d as int));
        assert(devices@.take(d + 1).last() == devices@[d as int]);
        d = d + 1;
    }
    assert(devices@.take(devices.len() as int) =~= devices@);
    best
}

/// Fall back to thermal zones when hwmon labels are missing.
pub fn best_thermal_temperature(zones: &Vec<ThermalZone>) -> (r: Option<TemperatureCandidate>)
    ensures
        r == scan_thermal(zones@),
{
    let mut best: Option<TemperatureCandidate> = None;
    let mut i: usize = 0;
    assert(zones@.take(0) =~= Seq::<ThermalZone>::empty());
    while i < zones.len()
        invariant
            i <= zones.len(),
            best == scan_thermal(zones@.take(i as int)),
        decreases zones.len() - i,
    {
        let z = &zones[i];
        assert(zones@.take(i + 1).drop_last() =~= zones@.take(i as int));
        assert(zones@.take(i + 1).last() == zones@[i as int]);
        if let Some(t) = &z.zone_type {
            if let Some(c) = &z.temp {
                let ct = chars_of(c.as_str());
                let ct = trim_chars(&ct);
                let ct = string_from_chars(&ct);
                if let Some(value) = from_temperature_value(ct.as_str()) {
                    let tt = chars_of(t.as_str());
                    let tt = trim_chars(&tt);
                    let tt = string_from_chars(&tt);
                    let score = score_thermal_candidate(tt.as_str());
                    if score > 0 {
                        best = better_candidate(best, TemperatureCandidate { score, millidegrees: value });
                    }
                }
            }
        }
        i = i + 1;
    }
    assert(zones@.take(zones.len() as int) =~= zones@);
    best
}

/// The CPU temperature in whole degrees: the best hwmon sensor, else the best
/// thermal zone, else none.
pub open spec fn cpu_temperature_spec(devices: Seq<HwmonDevice>, zones: Seq<ThermalZone>) -> Option<int> {
    match scan_hwmon(devices) {
        Some(c) => Some(whole_degrees(c.millidegrees as int)),
        None => match scan_thermal(zones) {
            Some(c) => Some(whole_degrees(c.millidegrees as int)),
            None => None,
        },
    }
}

/// Every candidate the scans keep is a plausible reading.
proof fn lemma_scan_sane(devices: Seq<HwmonDevice>, zones: Seq<ThermalZone>)
    ensures
        scan_hwmon(devices) matches Some(c) ==> sane_temperature(c.millidegrees as int),
        scan_thermal(zones) matches Some(c) ==> sane_temperature(c.millidegrees as int),
    decreases devices.len() + zones.len(),
{
    if devices.len() > 0 {
        lemma_scan_sane(devices.drop_last(), zones);
        let d = devices.last();
        lemma_scan_files_sane(scan_hwmon(devices.drop_last()), trimmed_or_empty(d.name), d.files@, d.files@.len());
    }
    if zones.len() > 0 {
        lemma_scan_sane(devices, zones.drop_last());
    }
}

/// Scanning files keeps only plausible readings.
proof fn lemma_scan_files_sane(
    best: Option<TemperatureCandidate>,
    device_name: Seq<char>,
    files: Seq<SensorFile>,
    n: nat,
)
    requires
        best matches Some(c) ==> sane_temperature(c.millidegrees as int),
    ensures
        scan_files(best, device_name, files, n) matches Some(c) ==> sane_temperature(c.millidegrees as int),
    decreases n,
{
    if n > 0 && n <= files.len() {
        lemma_scan_files_sane(best, device_name, files, (n - 1) as nat);
    }
}

/// The thermal scan keeps the strongest zone: it finds a candidate exactly
/// when some zone gives one, no zone gives a stronger one, and it is the
/// candidate of the first zone with that score.
pub proof fn law_thermal_pick_is_strongest(zones: Seq<ThermalZone>)
    ensures
        scan_thermal(zones) is None <==> forall|i: int|
            0 <= i < zones.len() ==> #[trigger] thermal_candidate(zones[i]) is None,
        forall|i: int|
            0 <= i < zones.len() && #[trigger] thermal_candidate(zones[i]) is Some ==> (scan_thermal(
                zones,
            ) matches Some(b) && b.score >= thermal_candidate(zones[i])->0.score),
        scan_thermal(zones) matches Some(b) ==> exists|i: int|
            0 <= i < zones.len() && #[trigger] thermal_candidate(zones[i]) == Some(b) && forall|j: int|
                0 <= j < i && #[trigger] thermal_candidate(zones[j]) is Some
                    ==> thermal_candidate(zones[j])->0.score < b.score,
    decreases zones.len(),
{
    if zones.len() > 0 {
        let pre = zones.drop_last();
        let n = zones.len() - 1;
        law_thermal_pick_is_strongest(pre);
        assert forall|i: int| 0 <= i < n implies zones[i] == pre[i] by {}
        let s = scan_thermal(pre);
        match thermal_candidate(zones.last()) {
            None => {
                if let Some(b) = s {
                    let i = choose|i: int|
                        0 <= i < pre.len() && #[trigger] thermal_candidate(pre[i]) == Some(b)
                            && forall|j: int|
                            0 <= j < i && #[trigger] thermal_candidate(pre[j]) is Some
                                ==> thermal_candidate(pre[j])->0.score < b.score;
                    assert(thermal_candidate(zones[i]) == Some(b));
                    assert forall|j: int|
                        0 <= j < i && #[trigger] thermal_candidate(zones[j]) is Some implies thermal_candidate(
                            zones[j],
                        )->0.score < b.score by {
                        assert(zones[j] == pre[j]);
                    }
                } else {
                    assert forall|i: int| 0 <= i < zones.len() implies #[trigger] thermal_candidate(
                        zones[i],
                    ) is None by {
                        if i < n {
                            assert(zones[i] == pre[i]);
                        }
                    }
                }
            },
            Some(c) => {
                match s {
                    None => {
                        assert(thermal_candidate(zones[n]) == Some(c));
                        assert forall|j: int|
                            0 <= j < n && #[trigger] thermal_candidate(zones[j]) is Some implies thermal_candidate(
                                zones[j],
                            )->0.score < c.score by {
                            assert(zones[j] == pre[j]);
                        }
                    },
                    Some(b) => {
                        if b.score >= c.score {
                            let i = choose|i: int|
                                0 <= i < pre.len() && #[trigger] thermal_candidate(pre[i]) == Some(b)
                                    && forall|j: int|
                                    0 <= j < i && #[trigger] thermal_candidate(pre[j]) is Some
                                        ==> thermal_candidate(pre[j])->0.score < b.score;
                            assert(thermal_candidate(zones[i]) == Some(b));
                            assert forall|j: int|
                                0 <= j < i && #[trigger] thermal_candidate(zones[j]) is Some implies thermal_candidate(
                                    zones[j],
                                )->0.score < b.score by {
                                assert(zones[j] == pre[j]);
                            }
                        } else {
                            assert(thermal_candidate(zones[n]) == Some(c));
                            assert forall|j: int|
                                0 <= j < n && #[trigger] thermal_candidate(zones[j]) is Some implies thermal_candidate(
                                    zones[j],
                                )->0.score < c.score by {
                                assert(zones[j] == pre[j]);
                            }
                        }
                    },
                }
                assert forall|i: int|
                    0 <= i < zones.len() && #[trigger] thermal_candidate(zones[i]) is Some implies (
                    scan_thermal(zones) matches Some(r) && r.score >= thermal_candidate(zones[i])->0.score) by {
                    if i < n {
                        assert(zones[i] == pre[i]);
                    }
                }
            },
        }
    }
}

/// Scanning the first `n` files of a device never loses the best reading so
/// far, matches or beats every candidate it meets, and only ever returns the
/// reading it started with or one of those candidates.
proof fn lemma_scan_files_strongest(
    best: Option<TemperatureCandidate>,
    device_name: Seq<char>,
    files: Seq<SensorFile>,
    n: nat,
)
    requires
        n <= files.len(),
    ensures
        best matches Some(b0) ==> (scan_files(best, device_name, files, n) matches Some(b)
            && b.score >= b0.score),
        forall|k: int|
            0 <= k < n && #[trigger] hwmon_candidate(device_name, files, files[k]) is Some ==> (
            scan_files(best, device_name, files, n) matches Some(b) && b.score >= hwmon_candidate(
                device_name,
                files,
                files[k],
            )->0.score),
        scan_files(best, device_name, files, n) matches Some(b) ==> (best == Some(b) || exists|k: int|
            0 <= k < n && #[trigger] hwmon_candidate(device_name, files, files[k]) == Some(b)),
        scan_files(best, device_name, files, n) is None ==> best is None,
    decreases n,
{
    if n > 0 {
        lemma_scan_files_strongest(best, device_name, files, (n - 1) as nat);
    }
}

/// A candidate of some file of some hwmon device.
pub open spec fn is_hwmon_candidate(devices: Seq<HwmonDevice>, c: TemperatureCandidate) -> bool {
    exists|d: int, k: int|
        0 <= d < devices.len() && 0 <= k < devices[d].files@.len() && #[trigger] hwmon_candidate(
            trimmed_or_empty(devices[d].name),
            devices[d].files@,
            devices[d].files@[k],
        ) == Some(c)
}

/// The hwmon scan keeps the strongest sensor: no file of any device gives a
/// candidate with a higher score, and what it returns is one of the candidates.
pub proof fn law_hwmon_pick_is_strongest(devices: Seq<HwmonDevice>)
    ensures
        forall|d: int, k: int|
            0 <= d < devices.len() && 0 <= k < devices[d].files@.len() && (#[trigger] hwmon_candidate(
                trimmed_or_empty(devices[d].name),
                devices[d].files@,
                devices[d].files@[k],
            )) is Some ==> (scan_hwmon(devices) matches Some(b) && b.score >= hwmon_candidate(
                trimmed_or_empty(devices[d].name),
                devices[d].files@,
                devices[d].files@[k],
            )->0.score),
        scan_hwmon(devices) matches Some(b) ==> is_hwmon_candidate(devices, b),
    decreases devices.len(),
{
    if devices.len() > 0 {
        let pre = devices.drop_last();
        let n = devices.len() - 1;
        let last = devices.last();
        law_hwmon_pick_is_strongest(pre);
        lemma_scan_files_strongest(
            scan_hwmon(pre),
            trimmed_or_empty(last.name),
            last.files@,
            last.files@.len(),
        );
        assert forall|d: int| 0 <= d < n implies devices[d] == pre[d] by {}
        if let Some(b) = scan_hwmon(devices) {
            if scan_hwmon(pre) == Some(b) {
                let (d, k) = choose|d: int, k: int|
                    0 <= d < pre.len() && 0 <= k < pre[d].files@.len() && #[trigger] hwmon_candidate(
                        trimmed_or_empty(pre[d].name),
                        pre[d].files@,
                        pre[d].files@[k],
                    ) == Some(b);
                assert(devices[d] == pre[d]);
                assert(hwmon_candidate(
                    trimmed_or_empty(devices[d].name),
                    devices[d].files@,
                    devices[d].files@[k],
                ) == Some(b));
            } else {
                let k = choose|k: int|
                    0 <= k < last.files@.len() && #[trigger] hwmon_candidate(
                        trimmed_or_empty(last.name),
                        last.files@,
                        last.files@[k],
                    ) == Some(b);
                assert(devices[n] == last);
                assert(hwmon_candidate(
                    trimmed_or_empty(devices[n].name),
                    devices[n].files@,
                    devices[n].files@[k],
                ) == Some(b));
            }
        }
        assert forall|d: int, k: int|
            0 <= d < devices.len() && 0 <= k < devices[d].files@.len() && (#[trigger] hwmon_candidate(
                trimmed_or_empty(devices[d].name),
                devices[d].files@,
                devices[d].files@[k],
            )) is Some implies (scan_hwmon(devices) matches Some(b) && b.score >= hwmon_candidate(
                trimmed_or_empty(devices[d].name),
                devices[d].files@,
                devices[d].files@[k],
            )->0.score) by {
            if d < n {
                assert(devices[d] == pre[d]);
            } else {
                assert(devices[d] == last);
            }
        }
    }
}

/// Thermal zones are only a fallback: when some hwmon file gives a
/// candidate, the temperature is the rounded reading of a hwmon candidate
/// that no other hwmon candidate outscores, whatever the thermal zones hold;
/// when none does, it is the rounded reading of the strongest thermal zone.
pub proof fn law_hwmon_before_thermal(
    devices: Seq<HwmonDevice>,
    zones: Seq<ThermalZone>,
    other_zones: Seq<ThermalZone>,
)
    ensures
        (exists|c: TemperatureCandidate| is_hwmon_candidate(devices, c)) ==> {
            &&& cpu_temperature_spec(devices, zones) == cpu_temperature_spec(devices, other_zones)
            &&& exists|b: TemperatureCandidate|
                #![trigger is_hwmon_candidate(devices, b)]
                is_hwmon_candidate(devices, b) && cpu_temperature_spec(devices, zones) == Some(
                    whole_degrees(b.millidegrees as int),
                ) && forall|c: TemperatureCandidate|
                    is_hwmon_candidate(devices, c) ==> b.score >= c.score
        },
        !(exists|c: TemperatureCandidate| is_hwmon_candidate(devices, c)) ==> cpu_temperature_spec(
            devices,
            zones,
        ) == match scan_thermal(zones) {
            Some(t) => Some(whole_degrees(t.millidegrees as int)),
            None => None::<int>,
        },
{
    law_hwmon_pick_is_strongest(devices);
    if exists|c: TemperatureCandidate| is_hwmon_candidate(devices, c) {
        let c = choose|c: TemperatureCandidate| is_hwmon_candidate(devices, c);
        let (d, k) = choose|d: int, k: int|
            0 <= d < devices.len() && 0 <= k < devices[d].files@.len() && #[trigger] hwmon_candidate(
                trimmed_or_empty(devices[d].name),
                devices[d].files@,
                devices[d].files@[k],
            ) == Some(c);
        assert(scan_hwmon(devices) is Some);
        let b = scan_hwmon(devices)->0;
        assert(is_hwmon_candidate(devices, b));
        assert forall|c2: TemperatureCandidate| is_hwmon_candidate(devices, c2) implies b.score
            >= c2.score by {
            let (d2, k2) = choose|d2: int, k2: int|
                0 <= d2 < devices.len() && 0 <= k2 < devices[d2].files@.len()
                    && #[trigger] hwmon_candidate(
                    trimmed_or_empty(devices[d2].name),
                    devices[d2].files@,
                    devices[d2].files@[k2],
                ) == Some(c2);
        }
    } else {
        if let Some(b) = scan_hwmon(devices) {
            assert(is_hwmon_candidate(devices, b));
        }
    }
}

/// Probe sensor readings for a CPU temperature without external tools.
pub fn read_cpu_temperature(devices: &Vec<HwmonDevice>, zones: &Vec<ThermalZone>) -> (r: Option<i64>)
    ensures
        match r {
            Some(t) => cpu_temperature_spec(devices@, zones@) == Some(t as int),
            None => cpu_temperature_spec(devices@, zones@) is None,
        },
{
    proof {
        lemma_scan_sane(devices@, zones@);
    }
    if let Some(candidate) = best_hwmon_temperature(devices) {
        return Some(round_millidegrees(candidate.millidegrees));
    }
    match best_thermal_temperature(zones) {
        Some(candidate) => Some(round_millidegrees(candidate.millidegrees)),
        None => None,
    }
}

/// The CPU block: glyph, usage percent, then the sparkline and the
/// temperature when there are any.
pub open spec fn cpu_output(glyph: Seq<char>, usage: u64, sparkline: Seq<char>, temperature: Option<i64>) -> Seq<char> {
    let head = glyph + decimal(usage as nat) + "%"@;
    let with_spark = if sparkline.len() > 0 {
        head + " "@ + sparkline
    } else {
        head
    };
    match temperature {
        Some(t) => with_spark + " "@ + signed_decimal(t as int) + "°"@,
        None => with_spark,
    }
}

/// The busy and total jiffies between two samples of one CPU; a counter that
/// went backwards contributes nothing.
pub open spec fn usage_deltas_spec(current: CpuSample, previous: CpuSample) -> (u64, u64) {
    let total = if current.total >= previous.total {
        (current.total - previous.total) as u64
    } else {
        0u64
    };
    let idle = if current.idle >= previous.idle {
        (current.idle - previous.idle) as u64
    } else {
        0u64
    };
    let busy = if total >= idle {
        (total - idle) as u64
    } else {
        0u64
    };
    (busy, total)
}

/// The integer part of a usage reading: busy and total jiffies since the
/// previous sample. The share `busy / total` is the usage; a zero total reads
/// as no usage.
pub fn usage_deltas(current: CpuSample, previous: CpuSample) -> (r: (u64, u64))
    ensures
        r == usage_deltas_spec(current, previous),
        r.0 <= r.1,
{
    let total = current.total.saturating_sub(previous.total);
    let idle = current.idle.saturating_sub(previous.idle);
    (total.saturating_sub(idle), total)
}

/// The sample a core is compared with: its previous sample, or zeros when
/// the history has none for it.
pub open spec fn previous_core(previous: Seq<CpuSample>, i: int) -> CpuSample {
    if 0 <= i < previous.len() {
        previous[i]
    } else {
        CpuSample { total: 0, idle: 0 }
    }
}

/// Keep per-core deltas aligned with the stored history: one pair per
/// current core, against the previous sample at the same position.
pub fn core_deltas(current: &Vec<CpuSample>, previous: &Vec<CpuSample>) -> (r: Vec<(u64, u64)>)
    ensures
        r@.len() == current@.len(),
        forall|i: int|
            0 <= i < current@.len() ==> #[trigger] r@[i] == usage_deltas_spec(
                current@[i],
                previous_core(previous@, i),
            ),
{
    let mut out: Vec<(u64, u64)> = Vec::new();
    let mut i: usize = 0;
    while i < current.len()
        invariant
            i <= current.len(),
            out@.len() == i,
            forall|j: int|
                0 <= j < i ==> #[trigger] out@[j] == usage_deltas_spec(
                    current@[j],
                    previous_core(previous@, j),
                ),
        decreases current.len() - i,
    {
        let prev = if i < previous.len() {
            previous[i]
        } else {
            CpuSample { total: 0, idle: 0 }
        };
        out.push(usage_deltas(current[i], prev));
        i = i + 1;
    }
    out
}

/// The counters of the previous sample, which the next one is compared with.
pub struct CpuHistory {
    pub previous_total: CpuSample,
    pub previous_cores: Vec<CpuSample>,
}

/// Busy and total jiffies since the previous sample: for all CPUs together
/// and for each core.
pub struct CpuDeltas {
    pub total: (u64, u64),
    pub cores: Vec<(u64, u64)>,
}

impl CpuHistory {
    /// No sample yet: every counter reads as zero.
    pub fn new() -> (r: Self)
        ensures
            r.previous_total == (CpuSample { total: 0, idle: 0 }),
            r.previous_cores@.len() == 0,
    {
        CpuHistory { previous_total: CpuSample { total: 0, idle: 0 }, previous_cores: Vec::new() }
    }

    /// Compare a new snapshot with the stored one, then keep the new one.
    pub fn advance(&mut self, snapshot: CpuSnapshot) -> (r: CpuDeltas)
        ensures
            r.total == usage_deltas_spec(snapshot.total, old(self).previous_total),
            r.cores@.len() == snapshot.cores@.len(),
            forall|i: int|
                0 <= i < snapshot.cores@.len() ==> #[trigger] r.cores@[i] == usage_deltas_spec(
                    snapshot.cores@[i],
                    previous_core(old(self).previous_cores@, i),
                ),
            final(self).previous_total == snapshot.total,
            final(self).previous_cores@ == snapshot.cores@,
    {
        let total = usage_deltas(snapshot.total, self.previous_total);
        let cores = core_deltas(&snapshot.cores, &self.previous_cores);
        self.previous_total = snapshot.total;
        self.previous_cores = snapshot.cores;
        CpuDeltas { total, cores }
    }
}

/// How many sparkline cells `len` core readings fill at `width`: one per
/// core when there is no width limit or the cores fit, else `width`.
pub open spec fn bucket_count(len: nat, width: nat) -> nat {
    if width == 0 || len <= width {
        len
    } else {
        width
    }
}

/// The half-open range of core indices that cell `b` averages: the core
/// itself when the cores fit, else `[b * len / width, (b + 1) * len / width)`.
pub open spec fn bucket_bounds(len: nat, width: nat, b: nat) -> (nat, nat) {
    if width == 0 || len <= width {
        (b, b + 1)
    } else {
        ((b * len / width) as nat, ((b + 1) * len / width) as nat)
    }
}

/// Two neighbouring proportional buckets are ordered and in range.
proof fn lemma_bucket_step(len: int, width: int, b: int)
    requires
        0 < width < len,
        0 <= b < width,
    ensures
        0 <= b * len / width < (b + 1) * len / width <= len,
{
    assert(0 <= b * len) by (nonlinear_arith)
        requires
            0 <= b,
            0 < len,
    ;
    assert((b + 1) * len == b * len + len) by (nonlinear_arith);
    let x = b * len;
    assert((b + 1) * len <= width * len) by (nonlinear_arith)
        requires
            b + 1 <= width,
            0 < len,
    ;
    vstd::arithmetic::div_mod::lemma_div_pos_is_pos(x, width);
    vstd::arithmetic::div_mod::lemma_div_plus_one(x, width);
    vstd::arithmetic::div_mod::lemma_div_is_ordered(width + x, x + len, width);
    vstd::arithmetic::div_mod::lemma_multiply_divide_le((b + 1) * len, width, len);
}

/// The cells cover the core indices `0..len` exactly once, in order, and no
/// cell is empty.
pub proof fn law_buckets_partition(len: nat, width: nat)
    ensures
        forall|b: nat|
            b < bucket_count(len, width) ==> #[trigger] bucket_bounds(len, width, b).0
                < bucket_bounds(len, width, b).1 <= len,
        forall|b: nat|
            b + 1 < bucket_count(len, width) ==> #[trigger] bucket_bounds(len, width, b).1
                == bucket_bounds(len, width, b + 1).0,
        bucket_count(len, width) > 0 ==> bucket_bounds(len, width, 0).0 == 0,
        bucket_count(len, width) > 0 ==> bucket_bounds(
            len,
            width,
            (bucket_count(len, width) - 1) as nat,
        ).1 == len,
{
    if !(width == 0 || len <= width) {
        assert forall|b: nat| b < bucket_count(len, width) implies #[trigger] bucket_bounds(
            len,
            width,
            b,
        ).0 < bucket_bounds(len, width, b).1 <= len by {
            lemma_bucket_step(len as int, width as int, b as int);
        }
        assert((0 * len) as int == 0);
        assert((width as int) * (len as int) / (width as int) == len as int) by {
            vstd::arithmetic::div_mod::lemma_div_multiples_vanish(len as int, width as int);
        }
        assert(((width - 1) + 1) as int == width as int);
    }
}

/// Split `len` core readings into at most `width` sparkline cells (no limit
/// when `width` is zero): the index range each cell averages, in order.
pub fn bucket_ranges(len: usize, width: usize) -> (r: Vec<(usize, usize)>)
    requires
        width == 0 || len <= width || width * len <= usize::MAX,
    ensures
        r@.len() == bucket_count(len as nat, width as nat),
        forall|b: int|
            0 <= b < r@.len() ==> (#[trigger] r@[b].0 as nat, r@[b].1 as nat) == bucket_bounds(
                len as nat,
                width as nat,
                b as nat,
            ),
{
    let mut out: Vec<(usize, usize)> = Vec::new();
    if width == 0 || len <= width {
        let mut i: usize = 0;
        while i < len
            invariant
                i <= len,
                width == 0 || len <= width,
                out@.len() == i,
                forall|b: int|
                    0 <= b < i ==> (#[trigger] out@[b].0 as nat, out@[b].1 as nat) == bucket_bounds(
                        len as nat,
                        width as nat,
                        b as nat,
                    ),
            decreases len - i,
        {
            out.push((i, i + 1));
            i = i + 1;
        }
        return out;
    }
    let mut bucket: usize = 0;
    while bucket < width
        invariant
            bucket <= width,
            0 < width < len,
            width * len <= usize::MAX,
            out@.len() == bucket,
            forall|b: int|
                0 <= b < bucket ==> (#[trigger] out@[b].0 as nat, out@[b].1 as nat)
                    == bucket_bounds(len as nat, width as nat, b as nat),
        decreases width - bucket,
    {
        assert((bucket + 1) * len <= width * len) by (nonlinear_arith)
            requires
                bucket + 1 <= width,
        ;
        assert(bucket * len <= (bucket + 1) * len) by (nonlinear_arith);
        let start = bucket * len / width;
        let end = (bucket + 1) * len / width;
        out.push((start, end));
        bucket = bucket + 1;
    }
    out
}

/// The cell glyphs from lowest to highest load.
pub open spec fn sparkline_levels() -> Seq<char> {
    seq!['▁', '▂', '▃', '▄', '▅', '▆', '▇', '█', '▉']
}

/// The glyph of a load level from 0 to 8; higher levels show the top glyph.
pub fn sparkline_char(level: usize) -> (r: char)
    ensures
        r == sparkline_levels()[if level < 8 { level as int } else { 8 }],
{
    let sparkline = ['▁', '▂', '▃', '▄', '▅', '▆', '▇', '█', '▉'];
    let i = if level < 8 { level } else { 8 };
    sparkline[i]
}

/// Keep the CPU block terse and consistent; `usage_percent` is the rounded
/// total usage.
pub fn format_cpu_output(glyph: &str, usage_percent: u64, sparkline: &str, temperature: Option<i64>) -> (r: String)
    ensures
        r@ == cpu_output(glyph@, usage_percent, sparkline@, temperature),
{
    let mut output = string_from(glyph);
    push_decimal(&mut output, usage_percent as u128);
    push_text(&mut output, "%");
    let spark = chars_of(sparkline);
    if spark.len() > 0 {
        push_text(&mut output, " ");
        push_text(&mut output, sparkline);
    }
    if let Some(t) = temperature {
        push_text(&mut output, " ");
        push_signed(&mut output, t);
        push_text(&mut output, "°");
    }
    assert(output@ =~= cpu_output(glyph@, usage_percent, sparkline@, temperature));
    output
}

} // verus!
