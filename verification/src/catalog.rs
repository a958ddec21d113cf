//! The transition catalog: ten named rules, each a pure function from scale to
//! scale built from the category flip and the cyclic index shift. The catalog
//! is total over the state space, so the space is closed under every rule.

use vstd::prelude::*;
use crate::state::Scale;
use crate::state::ScaleKind;
use crate::state::all_states;
use crate::state::lemma_change_index_range;
use crate::state::lemma_state_id;

verus! {

/// A named transformation rule. `ChangeIndex` carries its shift amount.
#[derive(Copy, Clone, PartialEq, Eq, Structural, Debug)]
pub enum ScaleTransition {
    /// Swap the kind, keep the index.
    Vertical,
    /// Swap the kind and shift the index by -1 (from minor) or +1 (from major).
    Diagonal,
    /// Keep the kind and shift the index by the carried amount.
    ChangeIndex(isize),
    /// Swap the kind and shift the index by +3 (from minor) or -3 (from major).
    MajorToMinor,
    /// Swap the kind and shift the index by +4 (from minor) or -4 (from major).
    FlatToMinor,
}

/// The fixed, ordered catalog of the ten rules.
pub open spec fn catalog() -> Seq<ScaleTransition> {
    seq![
        ScaleTransition::Vertical,
        ScaleTransition::Diagonal,
        ScaleTransition::MajorToMinor,
        ScaleTransition::FlatToMinor,
        ScaleTransition::ChangeIndex(1),
        ScaleTransition::ChangeIndex(2),
        ScaleTransition::ChangeIndex(7),
        ScaleTransition::ChangeIndex(-1isize),
        ScaleTransition::ChangeIndex(-2isize),
        ScaleTransition::ChangeIndex(-7isize),
    ]
}

/// The catalog as a vector, in its fixed order.
pub fn possible_transitions() -> (v: Vec<ScaleTransition>)
    ensures
        v@ == catalog(),
{
    let mut v: Vec<ScaleTransition> = Vec::new();
    v.push(ScaleTransition::Vertical);
    v.push(ScaleTransition::Diagonal);
    v.push(ScaleTransition::MajorToMinor);
    v.push(ScaleTransition::FlatToMinor);
    v.push(ScaleTransition::ChangeIndex(1));
    v.push(ScaleTransition::ChangeIndex(2));
    v.push(ScaleTransition::ChangeIndex(7));
    v.push(ScaleTransition::ChangeIndex(-1));
    v.push(ScaleTransition::ChangeIndex(-2));
    v.push(ScaleTransition::ChangeIndex(-7));
    proof {
        assert(v@ =~= catalog());
    }
    v
}

/// The state a rule derives from a given state.
pub open spec fn spec_make_transition(s: Scale, t: ScaleTransition) -> Scale {
    match t {
        ScaleTransition::Vertical => s.spec_swap_kind(),
        ScaleTransition::ChangeIndex(amount) => s.spec_change_index(amount as int),
        ScaleTransition::Diagonal => if s.kind == ScaleKind::Major {
            s.spec_swap_kind().spec_change_index(1)
        } else {
            s.spec_swap_kind().spec_change_index(-1)
        },
        ScaleTransition::FlatToMinor => if s.kind == ScaleKind::Minor {
            s.spec_swap_kind().spec_change_index(4)
        } else {
            s.spec_swap_kind().spec_change_index(-4)
        },
        ScaleTransition::MajorToMinor => if s.kind == ScaleKind::Minor {
            s.spec_swap_kind().spec_change_index(3)
        } else {
            s.spec_swap_kind().spec_change_index(-3)
        },
    }
}

/// Apply a rule to a scale. Every rule is defined for every well-formed scale.
pub fn make_transition(scale: Scale, transition: ScaleTransition) -> (r: Scale)
    requires
        scale.wf(),
    ensures
        r == spec_make_transition(scale, transition),
        r.wf(),
{
    match transition {
        ScaleTransition::Vertical => scale.swap_kind(),
        ScaleTransition::ChangeIndex(amount) => scale.change_index(amount),
        ScaleTransition::Diagonal => match scale.kind {
            ScaleKind::Major => scale.swap_kind().change_index(1),
            ScaleKind::Minor => scale.swap_kind().change_index(-1),
        },
        ScaleTransition::FlatToMinor => match scale.kind {
            ScaleKind::Minor => scale.swap_kind().change_index(4),
            ScaleKind::Major => scale.swap_kind().change_index(-4),
        },
        ScaleTransition::MajorToMinor => match scale.kind {
            ScaleKind::Minor => scale.swap_kind().change_index(3),
            ScaleKind::Major => scale.swap_kind().change_index(-3),
        },
    }
}

/// Closure of the space: every rule maps every well-formed scale to a
/// well-formed scale, hence to one of the 24 enumerated states.
pub proof fn lemma_catalog_closed(s: Scale, t: ScaleTransition)
    requires
        s.wf(),
    ensures
        spec_make_transition(s, t).wf(),
        all_states().contains(spec_make_transition(s, t)),
{
    match t {
        ScaleTransition::Vertical => {
        },
        ScaleTransition::ChangeIndex(amount) => {
            lemma_change_index_range(s, amount as int);
        },
        ScaleTransition::Diagonal => {
            lemma_change_index_range(s.spec_swap_kind(), 1);
            lemma_change_index_range(s.spec_swap_kind(), -1);
        },
        ScaleTransition::FlatToMinor => {
            lemma_change_index_range(s.spec_swap_kind(), -4);
            lemma_change_index_range(s.spec_swap_kind(), 4);
        },
        ScaleTransition::MajorToMinor => {
            lemma_change_index_range(s.spec_swap_kind(), 3);
            lemma_change_index_range(s.spec_swap_kind(), -3);
        },
    }
    lemma_state_id(spec_make_transition(s, t));
}

} // verus!
