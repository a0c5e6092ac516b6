//! Health of a sampling feature: publish each sample and report only the
//! transitions between working and failing.

use vstd::prelude::*;
use crate::text::{push_text, string_from};

verus! {

/// Whether the last sample of a feature failed.
pub struct FeatureState {
    failed: bool,
}

/// What one sample publishes: the block text and, on a health transition, a
/// message for stderr.
#[derive(Debug)]
pub struct FeatureUpdate {
    pub output: String,
    pub event: Option<String>,
}

/// The message for a feature that starts failing.
pub open spec fn failed_event(feature: Seq<char>, err: Seq<char>) -> Seq<char> {
    "Feature "@ + feature + " failed: "@ + err
}

/// The message for a feature that works again.
pub open spec fn recovered_event(feature: Seq<char>) -> Seq<char> {
    "Feature "@ + feature + " recovered"@
}

/// The event's text, if any.
pub open spec fn event_view(e: Option<String>) -> Option<Seq<char>> {
    match e {
        Some(s) => Some(s@),
        None => None,
    }
}

impl Default for FeatureState {
    /// A feature starts out healthy.
    fn default() -> (r: Self)
        ensures
            !r.has_failed(),
    {
        FeatureState { failed: false }
    }
}

impl FeatureState {
    /// The last sample failed.
    pub closed spec fn has_failed(&self) -> bool {
        self.failed
    }

    /// A healthy state.
    pub fn new() -> (r: Self)
        ensures
            !r.has_failed(),
    {
        FeatureState { failed: false }
    }

    /// Convert one sample into output and a transition-only event: a sample
    /// publishes its text, a failure publishes nothing, and a message comes
    /// only with the first failure and the first success after failures.
    pub fn update(&mut self, feature: &str, sample: Result<String, String>) -> (r: FeatureUpdate)
        ensures
            final(self).has_failed() == sample is Err,
            (r.event is Some) == (old(self).has_failed() != final(self).has_failed()),
            match sample {
                Ok(o) => r.output@ == o@ && event_view(r.event) == if old(self).has_failed() {
                    Some(recovered_event(feature@))
                } else {
                    None
                },
                Err(e) => r.output@ == Seq::<char>::empty() && event_view(r.event) == if old(
                    self,
                ).has_failed() {
                    None
                } else {
                    Some(failed_event(feature@, e@))
                },
            },
    {
        match sample {
            Ok(output) => {
                let event = if self.failed {
                    let mut m = string_from("Feature ");
                    push_text(&mut m, feature);
                    push_text(&mut m, " recovered");
                    Some(m)
                } else {
                    None
                };
                self.failed = false;
                FeatureUpdate { output, event }
            },
            Err(err) => {
                let event = if self.failed {
                    None
                } else {
                    let mut m = string_from("Feature ");
                    push_text(&mut m, feature);
                    push_text(&mut m, " failed: ");
                    push_text(&mut m, err.as_str());
                    Some(m)
                };
                self.failed = true;
                FeatureUpdate { output: String::new(), event }
            },
        }
    }
}

} // verus!
