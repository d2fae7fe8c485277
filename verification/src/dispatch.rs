//! The dispatcher's decision core: one step of the event loop, from event
//! and shared dedup state to the next action.  The queue, the worker pool
//! and every network call live outside the library and perform the action.

use vstd::prelude::*;

use crate::dedup::{claim_kept, rics_keys, DedupSet};
use crate::parser::{parse, spec_extract};
use crate::types::{Configuration, ParsedData, ParsedDataV, RicV, SubmitPayload};

verus! {

/// One event of the dispatch loop.
pub enum Event {
    /// A raw inbound payload was received by the webhook.
    RawReceived(SubmitPayload),
    /// A worker finished extraction; the record awaits dedup and submission.
    Normalized(ParsedData),
    /// Stop consuming events; in-flight work runs to completion.
    Shutdown,
}

/// What the worker must do next after one step.
pub enum Outcome {
    /// Re-enqueue the normalized record for the second phase.
    Enqueue(ParsedData),
    /// Submit the record, now holding only the claimed targets; the flag
    /// says whether the configured post-submission trigger runs afterwards.
    Deliver(ParsedData, bool),
    /// Every target was already submitted for this incident: submit nothing
    /// and log a warning.
    Skip,
    /// Leave the dispatch loop.
    Stop,
}

/// `d` with its target list replaced.
pub open spec fn with_rics(d: ParsedDataV, rics: Seq<RicV>) -> ParsedDataV {
    ParsedDataV {
        rics,
        einsatznrlst: d.einsatznrlst,
        strasse: d.strasse,
        hausnummer: d.hausnummer,
        ort: d.ort,
        ortsteil: d.ortsteil,
        objektname: d.objektname,
        koordinaten: d.koordinaten,
        einsatzstichwort: d.einsatzstichwort,
        zusatzinfo: d.zusatzinfo,
    }
}

/// One step of the dispatch loop.  A raw payload is extracted and comes
/// back as a record to enqueue; a normalized record is claimed against the
/// dedup state and is delivered with the claimed targets, or skipped when
/// every target was already submitted; shutdown stops the loop.  Only the
/// claim step touches the dedup state.
pub fn step(event: Event, configuration: &Configuration, dedup: &mut DedupSet) -> (r: Outcome)
    ensures
        match event {
            Event::RawReceived(p) => final(dedup)@ == old(dedup)@ && (r matches Outcome::Enqueue(
                rec,
            ) && rec@ == spec_extract(p@, configuration.extract_view())),
            Event::Normalized(d) => {
                let kept = claim_kept(d@.rics, d@.einsatznrlst, old(dedup)@);
                &&& final(dedup)@ == old(dedup)@.union(rics_keys(d@.einsatznrlst, d@.rics))
                &&& if kept.len() == 0 {
                    r is Skip
                } else {
                    r matches Outcome::Deliver(out, trigger) && out@ == with_rics(d@, kept)
                        && trigger == (configuration.simple_trigger is Some)
                }
            },
            Event::Shutdown => final(dedup)@ == old(dedup)@ && r is Stop,
        },
{
    match event {
        Event::RawReceived(p) => Outcome::Enqueue(parse(&p, configuration)),
        Event::Normalized(d) => {
            let kept = dedup.claim(&d);
            if kept.len() == 0 {
                proof {
                    assert(kept@.map_values(|x: crate::types::Ric| x@).len() == 0);
                }
                Outcome::Skip
            } else {
                let run_trigger = configuration.simple_trigger.is_some();
                let out = ParsedData {
                    rics: kept,
                    einsatznrlst: d.einsatznrlst,
                    strasse: d.strasse,
                    hausnummer: d.hausnummer,
                    ort: d.ort,
                    ortsteil: d.ortsteil,
                    objektname: d.objektname,
                    koordinaten: d.koordinaten,
                    einsatzstichwort: d.einsatzstichwort,
                    zusatzinfo: d.zusatzinfo,
                };
                proof {
                    assert(out@ =~= with_rics(
                        d@,
                        claim_kept(d@.rics, d@.einsatznrlst, old(dedup)@),
                    ));
                }
                Outcome::Deliver(out, run_trigger)
            }
        },
        Event::Shutdown => Outcome::Stop,
    }
}

} // verus!
