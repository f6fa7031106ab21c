use vstd::prelude::*;

use crate::dimension::Dimension;

verus! {

/// The kind of action that can affect reputation.
#[derive(Clone, Copy, Debug, PartialEq, Eq, Structural)]
pub enum ActionKind {
    HelpedPlayer,
    SharedBlueprint,
    CompletedQuest,
    /// Carries a severity; its magnitude scales the penalty.
    BrokeConservation,
    /// Carries a teaching quality; its magnitude scales the credit.
    TaughtPeer,
    GiftedItem,
    AbandonedCollab,
    CreatedChallenge,
    ReceivedPraise,
    ReceivedReport,
}

/// The fraction of an event's impact that reaches one dimension.
#[derive(Clone, Copy, Debug, PartialEq, Eq, Structural)]
pub enum Scale {
    /// The whole impact.
    Whole,
    /// One half of the impact.
    Half,
    /// One fifth of the impact.
    Fifth,
}

/// How one recorded event moves one dimension of the acting player's score:
/// the amount is the event's impact, first multiplied by the magnitude of the
/// action's own value when `by_magnitude` holds, then taken at `scale`; it is
/// added when `raises` holds and subtracted otherwise.
#[derive(Clone, Copy, Debug, PartialEq, Eq, Structural)]
pub struct Effect {
    pub dimension: Dimension,
    pub raises: bool,
    pub scale: Scale,
    pub by_magnitude: bool,
}

/// An effect that adds the plain impact, taken at `scale`.
pub open spec fn plus(dimension: Dimension, scale: Scale) -> Effect {
    Effect { dimension, raises: true, scale, by_magnitude: false }
}

/// An effect that subtracts the plain impact, taken at `scale`.
pub open spec fn minus(dimension: Dimension, scale: Scale) -> Effect {
    Effect { dimension, raises: false, scale, by_magnitude: false }
}

/// The same effect on every dimension, in canonical order.
pub open spec fn on_all(raises: bool, scale: Scale) -> Seq<Effect> {
    seq![
        Effect { dimension: Dimension::Helpfulness, raises, scale, by_magnitude: false },
        Effect { dimension: Dimension::Creativity, raises, scale, by_magnitude: false },
        Effect { dimension: Dimension::Reliability, raises, scale, by_magnitude: false },
        Effect { dimension: Dimension::Generosity, raises, scale, by_magnitude: false },
        Effect { dimension: Dimension::Teaching, raises, scale, by_magnitude: false },
        Effect { dimension: Dimension::Conservation, raises, scale, by_magnitude: false },
    ]
}

/// The reputation rules: what recording an action of each kind does to the score.
pub open spec fn effect_table(kind: ActionKind) -> Seq<Effect> {
    match kind {
        ActionKind::HelpedPlayer => seq![plus(Dimension::Helpfulness, Scale::Whole)],
        ActionKind::SharedBlueprint => seq![
            plus(Dimension::Generosity, Scale::Whole),
            plus(Dimension::Creativity, Scale::Half),
        ],
        ActionKind::CompletedQuest => seq![plus(Dimension::Reliability, Scale::Whole)],
        ActionKind::BrokeConservation => seq![
            Effect {
                dimension: Dimension::Conservation,
                raises: false,
                scale: Scale::Whole,
                by_magnitude: true,
            },
        ],
        ActionKind::TaughtPeer => seq![
            Effect {
                dimension: Dimension::Teaching,
                raises: true,
                scale: Scale::Whole,
                by_magnitude: true,
            },
        ],
        ActionKind::GiftedItem => seq![plus(Dimension::Generosity, Scale::Whole)],
        ActionKind::AbandonedCollab => seq![minus(Dimension::Reliability, Scale::Whole)],
        ActionKind::CreatedChallenge => seq![plus(Dimension::Creativity, Scale::Whole)],
        ActionKind::ReceivedPraise => on_all(true, Scale::Fifth),
        ActionKind::ReceivedReport => on_all(false, Scale::Fifth),
    }
}

/// Whether the action carries a value whose magnitude scales its effect.
pub open spec fn carries_magnitude(kind: ActionKind) -> bool {
    kind == ActionKind::BrokeConservation || kind == ActionKind::TaughtPeer
}

/// Whether recording the action can only lower the score (for a non-negative impact).
pub open spec fn is_penalty(kind: ActionKind) -> bool {
    kind == ActionKind::BrokeConservation || kind == ActionKind::AbandonedCollab || kind
        == ActionKind::ReceivedReport
}

fn effect(dimension: Dimension, raises: bool, scale: Scale, by_magnitude: bool) -> (e: Effect)
    ensures
        e == (Effect { dimension, raises, scale, by_magnitude }),
{
    Effect { dimension, raises, scale, by_magnitude }
}

fn all_dimensions(raises: bool, scale: Scale) -> (v: Vec<Effect>)
    ensures
        v@ == on_all(raises, scale),
{
    let mut v: Vec<Effect> = Vec::new();
    v.push(effect(Dimension::Helpfulness, raises, scale, false));
    v.push(effect(Dimension::Creativity, raises, scale, false));
    v.push(effect(Dimension::Reliability, raises, scale, false));
    v.push(effect(Dimension::Generosity, raises, scale, false));
    v.push(effect(Dimension::Teaching, raises, scale, false));
    v.push(effect(Dimension::Conservation, raises, scale, false));
    assert(v@ =~= on_all(raises, scale));
    v
}

/// The effects that recording an action of this kind has on the acting
/// player's score, in the order they are applied.
pub fn effects(kind: ActionKind) -> (v: Vec<Effect>)
    ensures
        v@ == effect_table(kind),
{
    let mut v: Vec<Effect> = Vec::new();
    match kind {
        ActionKind::HelpedPlayer => {
            v.push(effect(Dimension::Helpfulness, true, Scale::Whole, false));
        },
        ActionKind::SharedBlueprint => {
            v.push(effect(Dimension::Generosity, true, Scale::Whole, false));
            v.push(effect(Dimension::Creativity, true, Scale::Half, false));
        },
        ActionKind::CompletedQuest => {
            v.push(effect(Dimension::Reliability, true, Scale::Whole, false));
        },
        ActionKind::BrokeConservation => {
            v.push(effect(Dimension::Conservation, false, Scale::Whole, true));
        },
        ActionKind::TaughtPeer => {
            v.push(effect(Dimension::Teaching, true, Scale::Whole, true));
        },
        ActionKind::GiftedItem => {
            v.push(effect(Dimension::Generosity, true, Scale::Whole, false));
        },
        ActionKind::AbandonedCollab => {
            v.push(effect(Dimension::Reliability, false, Scale::Whole, false));
        },
        ActionKind::CreatedChallenge => {
            v.push(effect(Dimension::Creativity, true, Scale::Whole, false));
        },
        ActionKind::ReceivedPraise => {
            v = all_dimensions(true, Scale::Fifth);
        },
        ActionKind::ReceivedReport => {
            v = all_dimensions(false, Scale::Fifth);
        },
    }
    assert(v@ =~= effect_table(kind));
    v
}

/// No action moves the same dimension twice.
pub proof fn lemma_dimensions_distinct(kind: ActionKind, i: int, j: int)
    requires
        0 <= i < j < effect_table(kind).len(),
    ensures
        effect_table(kind)[i].dimension != effect_table(kind)[j].dimension,
{
}

/// Every action moves at least one dimension.
pub proof fn lemma_every_action_counts(kind: ActionKind)
    ensures
        effect_table(kind).len() >= 1,
{
}

/// An action's effect is scaled by its own value exactly when the action
/// carries one, and then only that single effect exists.
pub proof fn lemma_magnitude_scaling(kind: ActionKind, i: int)
    requires
        0 <= i < effect_table(kind).len(),
    ensures
        effect_table(kind)[i].by_magnitude <==> carries_magnitude(kind),
        carries_magnitude(kind) ==> effect_table(kind).len() == 1,
{
}

/// Penalties only lower the score; every other action only raises it.
pub proof fn lemma_direction(kind: ActionKind, i: int)
    requires
        0 <= i < effect_table(kind).len(),
    ensures
        effect_table(kind)[i].raises <==> !is_penalty(kind),
{
}

/// Praise and a report touch every dimension by the same fifth of the impact,
/// in opposite directions: a report undoes a praise of the same impact.
pub proof fn lemma_praise_and_report_mirror(d: Dimension)
    ensures
        effect_table(ActionKind::ReceivedPraise).len() == 6,
        effect_table(ActionKind::ReceivedReport).len() == 6,
        effect_table(ActionKind::ReceivedPraise)[d.position()] == plus(d, Scale::Fifth),
        effect_table(ActionKind::ReceivedReport)[d.position()] == minus(d, Scale::Fifth),
{
}

} // verus!
