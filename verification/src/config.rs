//! Settings: which features run, in which order, and how each renders.

use vstd::prelude::*;
use crate::text::{chars_eq_str, chars_of, join, join_strings, push_text, string_from, string_views};

verus! {

/// The features a status line can show.
#[derive(Clone, Copy, Debug, PartialEq, Eq, Structural)]
pub enum FeatureName {
    Connectivity,
    Traffic,
    Cpu,
    Clock,
    Ram,
    Gpu,
}

/// The spelling of a feature in the config file.
pub open spec fn feature_text(f: FeatureName) -> Seq<char> {
    match f {
        FeatureName::Connectivity => "connectivity"@,
        FeatureName::Traffic => "traffic"@,
        FeatureName::Cpu => "cpu"@,
        FeatureName::Clock => "clock"@,
        FeatureName::Ram => "ram"@,
        FeatureName::Gpu => "gpu"@,
    }
}

impl FeatureName {
    /// Return the spelling accepted in TOML.
    pub fn as_str(&self) -> (r: &'static str)
        ensures
            r@ == feature_text(*self),
    {
        match self {
            FeatureName::Connectivity => "connectivity",
            FeatureName::Traffic => "traffic",
            FeatureName::Cpu => "cpu",
            FeatureName::Clock => "clock",
            FeatureName::Ram => "ram",
            FeatureName::Gpu => "gpu",
        }
    }
}

/// Layout of the connectivity block.
#[derive(Clone, Copy, Debug, PartialEq, Eq, Structural)]
pub enum ConnectivityFormat {
    Compact,
    Full,
}

/// Connectivity block settings.
#[derive(Clone, Debug)]
pub struct ConnectivityConfig {
    pub glyph: String,
    pub idle: u64,
    pub format: ConnectivityFormat,
    pub show_iface: bool,
    pub show_route: bool,
    pub show_dns: bool,
    pub show_kind: bool,
}

impl Default for ConnectivityConfig {
    /// Default passive connectivity settings.
    fn default() -> (r: Self)
        ensures
            r.glyph@ == Seq::<char>::empty(),
            r.idle == 1,
            r.format == ConnectivityFormat::Compact,
            r.show_iface && r.show_route && r.show_dns && r.show_kind,
    {
        ConnectivityConfig {
            glyph: String::new(),
            idle: 1,
            format: ConnectivityFormat::Compact,
            show_iface: true,
            show_route: true,
            show_dns: true,
            show_kind: true,
        }
    }
}

/// Clock block settings.
#[derive(Clone, Debug)]
pub struct ClockConfig {
    pub glyph: String,
    pub format: String,
    pub timezone: String,
}

impl Default for ClockConfig {
    /// Default clock formatting.
    fn default() -> (r: Self)
        ensures
            r.glyph@ == Seq::<char>::empty(),
            r.format@ == "%a %d %b %Y %X %Z"@,
            r.timezone@ == Seq::<char>::empty(),
    {
        ClockConfig {
            glyph: String::new(),
            format: string_from("%a %d %b %Y %X %Z"),
            timezone: String::new(),
        }
    }
}

/// RAM block settings.
#[derive(Clone, Debug)]
pub struct RamConfig {
    pub glyph: String,
}

impl Default for RamConfig {
    /// Default RAM reporting settings.
    fn default() -> (r: Self)
        ensures
            r.glyph@ == Seq::<char>::empty(),
    {
        RamConfig { glyph: String::new() }
    }
}

/// CPU block settings.
#[derive(Clone, Debug)]
pub struct CpuConfig {
    pub glyph: String,
    pub sparkline_width: usize,
}

impl Default for CpuConfig {
    /// Default CPU reporting settings.
    fn default() -> (r: Self)
        ensures
            r.glyph@ == Seq::<char>::empty(),
            r.sparkline_width == 8,
    {
        CpuConfig { glyph: String::new(), sparkline_width: 8 }
    }
}

/// GPU block settings.
#[derive(Clone, Debug)]
pub struct GpuConfig {
    pub glyph: String,
}

impl Default for GpuConfig {
    /// Default GPU reporting settings.
    fn default() -> (r: Self)
        ensures
            r.glyph@ == Seq::<char>::empty(),
    {
        GpuConfig { glyph: String::new() }
    }
}

/// Traffic block settings.
#[derive(Clone, Debug)]
pub struct TrafficConfig {
    pub glyph: String,
}

impl Default for TrafficConfig {
    /// Default traffic reporting settings.
    fn default() -> (r: Self)
        ensures
            r.glyph@ == Seq::<char>::empty(),
    {
        TrafficConfig { glyph: String::new() }
    }
}

/// The whole configuration.
#[derive(Clone, Debug)]
pub struct Config {
    pub features: Vec<FeatureName>,
    pub connectivity: ConnectivityConfig,
    pub clock: ClockConfig,
    pub ram: RamConfig,
    pub cpu: CpuConfig,
    pub gpu: GpuConfig,
    pub traffic: TrafficConfig,
}

impl Default for Config {
    /// No features, every block at its defaults.
    fn default() -> (r: Self)
        ensures
            r.features@.len() == 0,
            r.connectivity.idle == 1,
            r.connectivity.format == ConnectivityFormat::Compact,
            r.cpu.sparkline_width == 8,
    {
        Config {
            features: Vec::new(),
            connectivity: ConnectivityConfig::default(),
            clock: ClockConfig::default(),
            ram: RamConfig::default(),
            cpu: CpuConfig::default(),
            gpu: GpuConfig::default(),
            traffic: TrafficConfig::default(),
        }
    }
}

/// The first position from `i` on whose feature already occurs earlier in the list.
pub open spec fn first_repeat_from(fs: Seq<FeatureName>, i: nat) -> Option<nat>
    decreases fs.len() - i,
{
    if i >= fs.len() {
        None
    } else if fs.take(i as int).contains(fs[i as int]) {
        Some(i)
    } else {
        first_repeat_from(fs, i + 1)
    }
}

/// Why a configuration cannot run, if it cannot: no features, a feature
/// listed twice (reported at its second listing, the earliest such), or a zero
/// connectivity resync interval, checked in that order.
pub open spec fn validate_spec(c: Config) -> Result<(), Seq<char>> {
    let fs = c.features@;
    if fs.len() == 0 {
        Err("At least one feature is required"@)
    } else {
        match first_repeat_from(fs, 0) {
            Some(i) => Err("Duplicate feature: "@ + feature_text(fs[i as int])),
            None => if c.connectivity.idle == 0 {
                Err("connectivity.idle must be greater than zero"@)
            } else {
                Ok(())
            },
        }
    }
}

impl Config {
    /// Reject settings that deserialize but cannot run safely.
    pub fn validate(&self) -> (r: Result<(), String>)
        ensures
            crate::text::result_view(r) == validate_spec(*self),
    {
        if self.features.len() == 0 {
            return Err(string_from("At least one feature is required"));
        }
        let ghost fs = self.features@;
        let mut index: usize = 0;
        while index < self.features.len()
            invariant
                fs == self.features@,
                index <= fs.len(),
                first_repeat_from(fs, 0) == first_repeat_from(fs, index as nat),
            decreases fs.len() - index,
        {
            let feature = self.features[index];
            let mut j: usize = 0;
            let mut seen = false;
            while j < index
                invariant
                    fs == self.features@,
                    j <= index < fs.len(),
                    feature == fs[index as int],
                    seen == fs.take(j as int).contains(feature),
                decreases index - j,
            {
                let ghost before = fs.take(j as int);
                let ghost after = fs.take(j + 1);
                assert(after =~= before.push(fs[j as int]));
                proof {
                    if before.contains(feature) {
                        let k = choose|k: int| 0 <= k < before.len() && before[k] == feature;
                        assert(after[k] == feature);
                    }
                    if fs[j as int] == feature {
                        assert(after[j as int] == feature);
                    }
                    if after.contains(feature) {
                        let k = choose|k: int| 0 <= k < after.len() && after[k] == feature;
                        if k < j {
                            assert(before[k] == feature);
                        }
                    }
                }
                if self.features[j] == feature {
                    seen = true;
                }
                j = j + 1;
            }
            if seen {
                let mut e = string_from("Duplicate feature: ");
                push_text(&mut e, feature.as_str());
                return Err(e);
            }
            index = index + 1;
        }
        if self.connectivity.idle == 0 {
            return Err(string_from("connectivity.idle must be greater than zero"));
        }
        Ok(())
    }
}

/// `first_repeat_from` finds nothing exactly when no feature from `i` on
/// repeats an earlier one.
proof fn lemma_first_repeat_none(fs: Seq<FeatureName>, i: nat)
    requires
        i <= fs.len(),
    ensures
        (first_repeat_from(fs, i) is None) == (forall|a: int, b: int|
            0 <= a < b < fs.len() && i <= b ==> fs[a] != fs[b]),
    decreases fs.len() - i,
{
    if i < fs.len() {
        lemma_first_repeat_none(fs, i + 1);
        if fs.take(i as int).contains(fs[i as int]) {
            let a = choose|a: int| 0 <= a < i && fs.take(i as int)[a] == fs[i as int];
            assert(fs[a] == fs[i as int]);
        } else {
            assert forall|a: int| 0 <= a < i implies fs[a] != fs[i as int] by {
                if fs[a] == fs[i as int] {
                    assert(fs.take(i as int)[a] == fs[i as int]);
                }
            }
        }
    }
}

/// A configuration passes validation exactly when it lists at least one
/// feature, lists none twice, and has a positive connectivity resync interval.
pub proof fn law_validate_accepts_exactly(c: Config)
    ensures
        validate_spec(c) is Ok <==> (c.features@.len() > 0 && c.features@.no_duplicates()
            && c.connectivity.idle > 0),
{
    lemma_first_repeat_none(c.features@, 0);
}

/// The feature a name in the `features` list selects, if it is one of the
/// supported spellings.
pub open spec fn feature_named(name: Seq<char>) -> Option<FeatureName> {
    if name == "connectivity"@ {
        Some(FeatureName::Connectivity)
    } else if name == "traffic"@ {
        Some(FeatureName::Traffic)
    } else if name == "cpu"@ {
        Some(FeatureName::Cpu)
    } else if name == "clock"@ {
        Some(FeatureName::Clock)
    } else if name == "ram"@ {
        Some(FeatureName::Ram)
    } else if name == "gpu"@ {
        Some(FeatureName::Gpu)
    } else {
        None
    }
}

/// The names that select no feature, in list order.
pub open spec fn unsupported_names(names: Seq<Seq<char>>) -> Seq<Seq<char>>
    decreases names.len(),
{
    if names.len() == 0 {
        seq![]
    } else {
        let rest = unsupported_names(names.drop_last());
        if feature_named(names.last()) is None {
            rest.push(names.last())
        } else {
            rest
        }
    }
}

/// The error for a feature list with unsupported names: those names, then
/// the supported ones.
pub open spec fn unsupported_features_text(unsupported: Seq<Seq<char>>) -> Seq<char> {
    "Unsupported features: "@ + join(unsupported, ", "@)
        + ". Supported features: connectivity, traffic, cpu, clock, ram, gpu"@
}

/// Read one name of the `features` list.
pub fn feature_from_name(name: &str) -> (r: Option<FeatureName>)
    ensures
        r == feature_named(name@),
{
    let n = chars_of(name);
    if chars_eq_str(&n, "connectivity") {
        Some(FeatureName::Connectivity)
    } else if chars_eq_str(&n, "traffic") {
        Some(FeatureName::Traffic)
    } else if chars_eq_str(&n, "cpu") {
        Some(FeatureName::Cpu)
    } else if chars_eq_str(&n, "clock") {
        Some(FeatureName::Clock)
    } else if chars_eq_str(&n, "ram") {
        Some(FeatureName::Ram)
    } else if chars_eq_str(&n, "gpu") {
        Some(FeatureName::Gpu)
    } else {
        None
    }
}

/// Read the `features` list: every name must be a supported feature,
/// otherwise the error names each unsupported one and lists the supported
/// ones.
pub fn parse_features(names: &Vec<String>) -> (r: Result<Vec<FeatureName>, String>)
    ensures
        match r {
            Ok(fs) => unsupported_names(string_views(names@)).len() == 0 && fs@.len()
                == names@.len() && forall|i: int|
                0 <= i < names@.len() ==> feature_named(#[trigger] names@[i]@) == Some(fs@[i]),
            Err(e) => unsupported_names(string_views(names@)).len() > 0 && e@
                == unsupported_features_text(unsupported_names(string_views(names@))),
        },
{
    let ghost nv = string_views(names@);
    let mut features: Vec<FeatureName> = Vec::new();
    let mut unsupported: Vec<String> = Vec::new();
    let mut i: usize = 0;
    assert(nv.take(0) =~= Seq::<Seq<char>>::empty());
    while i < names.len()
        invariant
            i <= names.len(),
            nv == string_views(names@),
            string_views(unsupported@) == unsupported_names(nv.take(i as int)),
            unsupported@.len() == 0 ==> (features@.len() == i && forall|j: int|
                0 <= j < i ==> feature_named(#[trigger] names@[j]@) == Some(features@[j])),
        decreases names.len() - i,
    {
        assert(nv.take(i + 1).drop_last() =~= nv.take(i as int));
        assert(nv.take(i + 1).last() == names@[i as int]@);
        match feature_from_name(names[i].as_str()) {
            Some(f) => {
                features.push(f);
            },
            None => {
                let ghost before = string_views(unsupported@);
                let ghost nm = names@[i as int]@;
                unsupported.push(names[i].clone());
                assert(string_views(unsupported@) =~= before.push(nm));
            },
        }
        i = i + 1;
    }
    assert(nv.take(names.len() as int) =~= nv);
    if unsupported.len() > 0 {
        let mut e = string_from("Unsupported features: ");
        let listed = join_strings(&unsupported, ", ");
        push_text(&mut e, listed.as_str());
        push_text(&mut e, ". Supported features: connectivity, traffic, cpu, clock, ram, gpu");
        return Err(e);
    }
    Ok(features)
}

/// A name selects a feature exactly when it is that feature's spelling, so
/// reading a name and writing the feature back gives the same text.
pub proof fn law_feature_names_round_trip(name: Seq<char>, f: FeatureName)
    ensures
        feature_named(name) == Some(f) <==> feature_text(f) == name,
        feature_named(feature_text(f)) == Some(f),
{
    reveal_strlit("connectivity");
    reveal_strlit("traffic");
    reveal_strlit("cpu");
    reveal_strlit("clock");
    reveal_strlit("ram");
    reveal_strlit("gpu");
    assert("connectivity"@.len() == 12 && "traffic"@.len() == 7 && "clock"@.len() == 5);
    assert("cpu"@.len() == 3 && "ram"@.len() == 3 && "gpu"@.len() == 3);
    assert("cpu"@[0] != "ram"@[0] && "cpu"@[0] != "gpu"@[0] && "ram"@[0] != "gpu"@[0]);
}

} // verus!
