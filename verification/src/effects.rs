//! What a step of the session manager asks its caller to do: writes to the
//! local store and the notice shown on a distraction.

use crate::clock::Timestamp;
use crate::session::{FocusSession, SessionView};
use crate::types::{AppUsageEvent, SessionId, UsageEventView};
use vstd::prelude::*;

verus! {

/// One request to the caller. The requests of a step are carried out in the
/// order in which the step lists them.
#[derive(Debug)]
pub enum Effect {
    /// Store the session that has just started.
    InsertSession(FocusSession),
    /// Store the new number of distractions of the session `id`.
    UpdateDistractionCount { id: SessionId, count: u32 },
    /// Store the final state of the session `id`; `work_apps` holds its
    /// applications separated by commas.
    UpdateSession { id: SessionId, end_time: Timestamp, work_apps: String, distraction_count: u32 },
    /// Store a closed usage interval.
    InsertUsageEvent(AppUsageEvent),
    /// Tell the user that the blocked application `app_name` has the focus.
    ShowDistractionNotice { app_name: String },
}

/// What an [`Effect`] holds, with its texts as character sequences.
pub ghost enum EffectView {
    InsertSession(SessionView),
    UpdateDistractionCount { id: SessionId, count: u32 },
    UpdateSession { id: SessionId, end_time: Timestamp, work_apps: Seq<char>, distraction_count: u32 },
    InsertUsageEvent(UsageEventView),
    ShowDistractionNotice { app_name: Seq<char> },
}

impl View for Effect {
    type V = EffectView;

    open spec fn view(&self) -> EffectView {
        match self {
            Effect::InsertSession(session) => EffectView::InsertSession(session@),
            Effect::UpdateDistractionCount { id, count } => EffectView::UpdateDistractionCount {
                id: *id,
                count: *count,
            },
            Effect::UpdateSession {
                id,
                end_time,
                work_apps,
                distraction_count,
            } => EffectView::UpdateSession {
                id: *id,
                end_time: *end_time,
                work_apps: work_apps@,
                distraction_count: *distraction_count,
            },
            Effect::InsertUsageEvent(event) => EffectView::InsertUsageEvent(event@),
            Effect::ShowDistractionNotice { app_name } => EffectView::ShowDistractionNotice {
                app_name: app_name@,
            },
        }
    }
}

/// The requests of `effects`, in order.
pub open spec fn effect_views(effects: Seq<Effect>) -> Seq<EffectView> {
    Seq::new(effects.len(), |i: int| effects[i]@)
}

/// Appends `effect` to `effects`.
pub fn emit(effects: &mut Vec<Effect>, effect: Effect)
    ensures
        effect_views(final(effects)@) == effect_views(old(effects)@).push(effect@),
{
    effects.push(effect);
    assert(effect_views(effects@) =~= effect_views(old(effects)@).push(effect@));
}

} // verus!
