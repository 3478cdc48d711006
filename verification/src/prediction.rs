//! Decisions of the prediction history: when a predicted component gets a history of its
//! past values, and what that history starts with.
//!
//! The entity-component world is read and written around these functions; each takes
//! what a hook or observer reads from the world and says what it does to it.

use vstd::prelude::*;
use crate::packet::Tick;

verus! {

/// How the prediction history of a component is set up on an entity.
pub enum HistoryBootstrap<C> {
    /// No history is added: the entity already has one, or does not qualify.
    Skip,
    /// An empty history is added; the value is recorded when the component appears.
    Empty,
    /// A history is added that holds the component's current value at the given tick.
    Seeded(Tick, C),
}

/// The bootstrap of a history for an entity that `qualifies`, holding `component`, at
/// `tick`.
pub open spec fn bootstrap_spec<C>(qualifies: bool, component: Option<C>, tick: Tick) -> HistoryBootstrap<C> {
    if !qualifies {
        HistoryBootstrap::Skip
    } else {
        match component {
            Some(c) => HistoryBootstrap::Seeded(tick, c),
            None => HistoryBootstrap::Empty,
        }
    }
}

fn bootstrap<C>(component: Option<C>, tick: Tick) -> (r: HistoryBootstrap<C>)
    ensures
        r == bootstrap_spec(true, component, tick),
{
    match component {
        Some(c) => HistoryBootstrap::Seeded(tick, c),
        None => HistoryBootstrap::Empty,
    }
}

/// The history set up when the component, its confirmed copy, or one of the prediction
/// markers is added.
pub open spec fn on_prediction_added_spec<C>(
    has_history: bool,
    has_confirmed: bool,
    component: Option<C>,
    is_predicted: bool,
    is_prespawned: bool,
    is_deterministic: bool,
    tick: Tick,
) -> HistoryBootstrap<C> {
    bootstrap_spec(
        !has_history && (has_confirmed || component is Some) && (is_predicted || is_prespawned
            || is_deterministic),
        component,
        tick,
    )
}

/// The history set up when the predicted marker is added.
pub open spec fn on_predicted_added_spec<C>(
    is_predicted: bool,
    has_history: bool,
    has_confirmed: bool,
    component: Option<C>,
    tick: Tick,
) -> HistoryBootstrap<C> {
    bootstrap_spec(is_predicted && !has_history && (has_confirmed || component is Some), component, tick)
}

/// Decides the history set up when the component, its confirmed copy, or one of the
/// prediction markers (predicted, pre-spawned, deterministically predicted) is added:
/// an entity without a history that holds the component or its confirmed copy, and
/// carries one of those markers, gets a history, seeded with the component's value at
/// `tick` when the component is present.
pub fn history_on_prediction_added<C>(
    has_history: bool,
    has_confirmed: bool,
    component: Option<C>,
    is_predicted: bool,
    is_prespawned: bool,
    is_deterministic: bool,
    tick: Tick,
) -> (r: HistoryBootstrap<C>)
    ensures
        r == on_prediction_added_spec(
            has_history,
            has_confirmed,
            component,
            is_predicted,
            is_prespawned,
            is_deterministic,
            tick,
        ),
{
    let qualifies = !has_history && (has_confirmed || component.is_some()) && (is_predicted
        || is_prespawned || is_deterministic);
    if qualifies {
        bootstrap(component, tick)
    } else {
        HistoryBootstrap::Skip
    }
}

/// Decides the history set up when the predicted marker is added to an entity that may
/// already hold prediction-relevant state: a predicted entity without a history that
/// holds the component or its confirmed copy gets one, seeded with the component's value
/// at `tick` when the component is present.
pub fn history_on_predicted_added<C>(
    is_predicted: bool,
    has_history: bool,
    has_confirmed: bool,
    component: Option<C>,
    tick: Tick,
) -> (r: HistoryBootstrap<C>)
    ensures
        r == on_predicted_added_spec(is_predicted, has_history, has_confirmed, component, tick),
{
    let qualifies = is_predicted && !has_history && (has_confirmed || component.is_some());
    if qualifies {
        bootstrap(component, tick)
    } else {
        HistoryBootstrap::Skip
    }
}

/// When the predicted marker is added to an entity, both observers that react to it set
/// up the same history, whatever else the entity holds, so it does not matter which runs
/// last.
pub proof fn law_observers_agree_on_predicted<C>(
    has_history: bool,
    has_confirmed: bool,
    component: Option<C>,
    is_prespawned: bool,
    is_deterministic: bool,
    tick: Tick,
)
    ensures
        on_predicted_added_spec(true, has_history, has_confirmed, component, tick)
            == on_prediction_added_spec(
            has_history,
            has_confirmed,
            component,
            true,
            is_prespawned,
            is_deterministic,
            tick,
        ),
{
}

/// What the observer of the component, its confirmed copy and the prediction markers
/// sets up, over every input: nothing for an entity that already has a history, that
/// carries none of the predicted, pre-spawned or deterministic markers, or that holds
/// neither the component nor its confirmed copy; otherwise a history seeded with the
/// component's value at the current tick when the component is there, whichever marker
/// the entity carries and whether or not the confirmed copy is there too, and an empty
/// history when only the confirmed copy is there.
pub proof fn law_history_on_prediction_added<C>(
    has_history: bool,
    has_confirmed: bool,
    c: C,
    is_predicted: bool,
    is_prespawned: bool,
    is_deterministic: bool,
    tick: Tick,
)
    ensures
        has_history ==> on_prediction_added_spec(
            has_history,
            has_confirmed,
            Some(c),
            is_predicted,
            is_prespawned,
            is_deterministic,
            tick,
        ) is Skip,
        !(is_predicted || is_prespawned || is_deterministic) ==> on_prediction_added_spec(
            has_history,
            has_confirmed,
            Some(c),
            is_predicted,
            is_prespawned,
            is_deterministic,
            tick,
        ) is Skip,
        on_prediction_added_spec(
            has_history,
            false,
            None::<C>,
            is_predicted,
            is_prespawned,
            is_deterministic,
            tick,
        ) is Skip,
        !has_history && (is_predicted || is_prespawned || is_deterministic)
            ==> on_prediction_added_spec(
            has_history,
            has_confirmed,
            Some(c),
            is_predicted,
            is_prespawned,
            is_deterministic,
            tick,
        ) == HistoryBootstrap::Seeded(tick, c),
        !has_history && (is_predicted || is_prespawned || is_deterministic)
            ==> on_prediction_added_spec(
            has_history,
            true,
            None::<C>,
            is_predicted,
            is_prespawned,
            is_deterministic,
            tick,
        ) is Empty,
{
}

/// What the observer of the predicted marker sets up, over every input: nothing unless
/// the entity is predicted, has no history, and holds the component or its confirmed
/// copy; otherwise a history seeded with the component's value at the current tick
/// when the component is there, whether or not the confirmed copy is there too, and an
/// empty history when only the confirmed copy is there.
pub proof fn law_history_on_predicted_added<C>(
    is_predicted: bool,
    has_history: bool,
    has_confirmed: bool,
    c: C,
    tick: Tick,
)
    ensures
        !is_predicted || has_history ==> on_predicted_added_spec(
            is_predicted,
            has_history,
            has_confirmed,
            Some(c),
            tick,
        ) is Skip,
        on_predicted_added_spec(is_predicted, has_history, false, None::<C>, tick) is Skip,
        is_predicted && !has_history ==> on_predicted_added_spec(
            is_predicted,
            has_history,
            has_confirmed,
            Some(c),
            tick,
        ) == HistoryBootstrap::Seeded(tick, c),
        is_predicted && !has_history ==> on_predicted_added_spec(
            is_predicted,
            has_history,
            true,
            None::<C>,
            tick,
        ) is Empty,
{
}

} // verus!
