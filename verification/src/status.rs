//! Assembling the root-window text from the feature blocks, deciding when to
//! rewrite it, and naming a worker that stopped.

use vstd::prelude::*;
use crate::config::{feature_text, FeatureName};
use crate::text::{
    chars_eq, chars_of, drop_empty, join, join_strings, push_text, string_from, string_views,
};

verus! {

/// The latest text of every feature block.
#[derive(Clone, Debug, Default)]
pub struct StatusSlots {
    pub connectivity: String,
    pub clock: String,
    pub cpu: String,
    pub gpu: String,
    pub ram: String,
    pub traffic: String,
}

/// The block text a feature currently shows.
pub open spec fn slot_of(slots: StatusSlots, f: FeatureName) -> Seq<char> {
    match f {
        FeatureName::Connectivity => slots.connectivity@,
        FeatureName::Traffic => slots.traffic@,
        FeatureName::Cpu => slots.cpu@,
        FeatureName::Clock => slots.clock@,
        FeatureName::Ram => slots.ram@,
        FeatureName::Gpu => slots.gpu@,
    }
}

/// The root-window text for block texts given in configured order: the
/// non-empty blocks in reverse order, joined by `▕▏` and wrapped in `▏`…`▕`.
pub open spec fn status_line(outputs: Seq<Seq<char>>) -> Seq<char> {
    "▏"@ + join(drop_empty(outputs.reverse()), "▕▏"@) + "▕"@
}

/// The block texts of the configured features, in configured order.
pub open spec fn feature_outputs(features: Seq<FeatureName>, slots: StatusSlots) -> Seq<Seq<char>> {
    features.map_values(|f: FeatureName| slot_of(slots, f))
}

/// Build the root-window payload from block texts in configured order.
pub fn render_status_line(outputs: &Vec<String>) -> (r: String)
    ensures
        r@ == status_line(string_views(outputs@)),
{
    let ghost ov = string_views(outputs@);
    let mut rendered: Vec<String> = Vec::new();
    let mut i: usize = outputs.len();
    assert(ov.reverse().take(0) =~= Seq::<Seq<char>>::empty());
    while i > 0
        invariant
            i <= outputs.len(),
            ov == string_views(outputs@),
            string_views(rendered@) == drop_empty(ov.reverse().take(outputs.len() - i)),
        decreases i,
    {
        i = i - 1;
        let k = outputs.len() - 1 - i;
        assert(ov.reverse().take(k + 1).drop_last() =~= ov.reverse().take(k as int));
        assert(ov.reverse().take(k + 1).last() == outputs@[i as int]@);
        if !outputs[i].as_str().is_empty() {
            let ghost before = string_views(rendered@);
            let t = outputs[i].clone();
            let ghost tv = t@;
            rendered.push(t);
            assert(string_views(rendered@) =~= before.push(tv));
        } else {
            proof {
                let s = outputs@[i as int]@;
                if s.len() != 0 {
                    assert(outputs@[i as int]@.len() > 0);
                }
            }
        }
    }
    assert(ov.reverse().take(outputs.len() as int) =~= ov.reverse());
    let body = join_strings(&rendered, "▕▏");
    let mut out = string_from("▏");
    push_text(&mut out, body.as_str());
    push_text(&mut out, "▕");
    out
}

/// Build the root-window payload for the configured features.
pub fn build_output(features: &Vec<FeatureName>, slots: &StatusSlots) -> (r: String)
    ensures
        r@ == status_line(feature_outputs(features@, *slots)),
{
    let mut outputs: Vec<String> = Vec::new();
    let mut i: usize = 0;
    while i < features.len()
        invariant
            i <= features.len(),
            string_views(outputs@) == feature_outputs(features@.take(i as int), *slots),
        decreases features.len() - i,
    {
        let text = match features[i] {
            FeatureName::Connectivity => slots.connectivity.clone(),
            FeatureName::Traffic => slots.traffic.clone(),
            FeatureName::Cpu => slots.cpu.clone(),
            FeatureName::Clock => slots.clock.clone(),
            FeatureName::Ram => slots.ram.clone(),
            FeatureName::Gpu => slots.gpu.clone(),
        };
        let ghost before = string_views(outputs@);
        let ghost tv = text@;
        outputs.push(text);
        assert(string_views(outputs@) =~= before.push(tv));
        assert(feature_outputs(features@.take(i + 1), *slots) =~= feature_outputs(
            features@.take(i as int),
            *slots,
        ).push(slot_of(*slots, features@[i as int])));
        i = i + 1;
    }
    assert(features@.take(features.len() as int) =~= features@);
    render_status_line(&outputs)
}

/// Two blocks `a` and `b`, shown in that configured order, render as
/// `▏b▕▏a▕`; an empty block leaves no trace.
pub proof fn law_two_blocks_render_reversed(a: Seq<char>, b: Seq<char>)
    ensures
        a.len() > 0 && b.len() > 0 ==> status_line(seq![a, b]) == "▏"@ + b + "▕▏"@ + a + "▕"@,
        b.len() > 0 ==> status_line(seq![Seq::<char>::empty(), b]) == "▏"@ + b + "▕"@,
        a.len() > 0 ==> status_line(seq![a, Seq::<char>::empty()]) == "▏"@ + a + "▕"@,
{
    reveal_with_fuel(drop_empty, 3);
    reveal_with_fuel(join, 3);
    let e = Seq::<char>::empty();
    assert(seq![a, b].reverse() =~= seq![b, a]);
    assert(seq![e, b].reverse() =~= seq![b, e]);
    assert(seq![a, e].reverse() =~= seq![e, a]);
    assert(seq![b, a].drop_last() =~= seq![b]);
    assert(seq![b, e].drop_last() =~= seq![b]);
    assert(seq![e, a].drop_last() =~= seq![e]);
    assert(seq![b].drop_last() =~= Seq::<Seq<char>>::empty());
    assert(seq![e].drop_last() =~= Seq::<Seq<char>>::empty());
    assert(Seq::<Seq<char>>::empty().push(b) =~= seq![b]);
    assert(Seq::<Seq<char>>::empty().push(a) =~= seq![a]);
    assert(seq![b].push(a) =~= seq![b, a]);
}

/// The last text written to the root window.
pub struct RootNameState {
    last_output: String,
}

impl RootNameState {
    /// The text last written.
    pub closed spec fn last(&self) -> Seq<char> {
        self.last_output@
    }

    /// Nothing written yet.
    pub fn new() -> (r: Self)
        ensures
            r.last() == Seq::<char>::empty(),
    {
        RootNameState { last_output: String::new() }
    }

    /// Decide whether a freshly built payload must be written: only when it
    /// differs from the last one written, which it then becomes.
    pub fn on_redraw(&mut self, output: String) -> (r: Option<String>)
        ensures
            match r {
                Some(w) => w@ == output@ && output@ != old(self).last() && final(self).last()
                    == output@,
                None => output@ == old(self).last() && final(self).last() == old(self).last(),
            },
    {
        let a = chars_of(output.as_str());
        let b = chars_of(self.last_output.as_str());
        if chars_eq(&a, &b) {
            return None;
        }
        self.last_output = output.clone();
        Some(output)
    }
}

/// How a feature worker ended: it returned normally, it returned an error, or
/// its task failed with the given description.
#[derive(Debug)]
pub enum WorkerEnd {
    Completed,
    Failed(String),
    Crashed(String),
}

/// The error a worker's end becomes; a worker never ends successfully.
pub open spec fn worker_exit_spec(feature: FeatureName, end: WorkerEnd) -> Seq<char> {
    match end {
        WorkerEnd::Completed => "Feature "@ + feature_text(feature) + " worker completed unexpectedly"@,
        WorkerEnd::Failed(e) => e@,
        WorkerEnd::Crashed(e) => "Feature "@ + feature_text(feature) + " worker task failed: "@ + e@,
    }
}

/// Add feature context to a completed or failed worker task.
pub fn worker_exit(feature: FeatureName, end: WorkerEnd) -> (r: Result<(), String>)
    ensures
        match r {
            Ok(_) => false,
            Err(e) => e@ == worker_exit_spec(feature, end),
        },
{
    match end {
        WorkerEnd::Completed => {
            let mut e = string_from("Feature ");
            push_text(&mut e, feature.as_str());
            push_text(&mut e, " worker completed unexpectedly");
            Err(e)
        },
        WorkerEnd::Failed(err) => Err(err),
        WorkerEnd::Crashed(err) => {
            let mut e = string_from("Feature ");
            push_text(&mut e, feature.as_str());
            push_text(&mut e, " worker task failed: ");
            push_text(&mut e, err.as_str());
            Err(e)
        },
    }
}

/// The error for a worker whose endless loop returned.
pub fn worker_returned_error(feature: FeatureName) -> (r: String)
    ensures
        r@ == "Feature "@ + feature_text(feature) + " worker returned unexpectedly"@,
{
    let mut e = string_from("Feature ");
    push_text(&mut e, feature.as_str());
    push_text(&mut e, " worker returned unexpectedly");
    e
}

} // verus!
