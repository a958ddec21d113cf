use scale_paths::state::Scale;
use scale_paths::state::ScaleKind;
use scale_paths::state::make_nodes;
use scale_paths::state::mod_cyclic;
use scale_paths::state::scale;
use scale_paths::catalog::ScaleTransition;
use scale_paths::catalog::make_transition;
use scale_paths::catalog::possible_transitions;

#[test]
fn flip_is_involutive_on_every_state() {
    for s in make_nodes() {
        assert_eq!(s.swap_kind().swap_kind(), s);
    }
}

#[test]
fn flip_swaps_kind_and_keeps_index() {
    let s = scale(4, ScaleKind::Minor);
    let f = s.swap_kind();
    assert_eq!(f.index, 4);
    assert_eq!(f.kind, ScaleKind::Major);
}

#[test]
fn shift_keeps_kind_and_stays_in_range() {
    let shifts: [isize; 9] = [0, 1, -1, 7, -7, 12, -12, 25, -25];
    for s in make_nodes() {
        for k in shifts {
            let r = s.change_index(k);
            assert_eq!(r.kind, s.kind);
            assert!(r.index < 12);
        }
    }
}

#[test]
fn shift_wraps_modulo_twelve() {
    let s = scale(11, ScaleKind::Major);
    assert_eq!(s.change_index(1).index, 0);
    assert_eq!(s.change_index(2).index, 1);
    assert_eq!(s.change_index(-12).index, 11);
    assert_eq!(s.change_index(13).index, 0);
    let z = scale(0, ScaleKind::Minor);
    assert_eq!(z.change_index(-1).index, 11);
    assert_eq!(z.change_index(-7).index, 5);
}

#[test]
fn mod_cyclic_normalizes_negatives() {
    assert_eq!(mod_cyclic(0, 12), 0);
    assert_eq!(mod_cyclic(13, 12), 1);
    assert_eq!(mod_cyclic(-1, 12), 11);
    assert_eq!(mod_cyclic(-13, 12), 11);
    assert_eq!(mod_cyclic(-24, 12), 0);
    assert_eq!(mod_cyclic(5, 3), 2);
    assert_eq!(mod_cyclic(-5, 3), 1);
}

#[test]
fn enumeration_holds_all_24_states_once() {
    let nodes = make_nodes();
    assert_eq!(nodes.len(), 24);
    assert_eq!(nodes[0], scale(0, ScaleKind::Minor));
    assert_eq!(nodes[1], scale(0, ScaleKind::Major));
    assert_eq!(nodes[23], scale(11, ScaleKind::Major));
    for i in 0..nodes.len() {
        for j in 0..i {
            assert_ne!(nodes[i], nodes[j]);
        }
    }
}

#[test]
fn catalog_lists_the_ten_rules_in_order() {
    let rules = possible_transitions();
    assert_eq!(rules.len(), 10);
    assert_eq!(rules[0], ScaleTransition::Vertical);
    assert_eq!(rules[1], ScaleTransition::Diagonal);
    assert_eq!(rules[2], ScaleTransition::MajorToMinor);
    assert_eq!(rules[3], ScaleTransition::FlatToMinor);
    assert_eq!(rules[4], ScaleTransition::ChangeIndex(1));
    assert_eq!(rules[5], ScaleTransition::ChangeIndex(2));
    assert_eq!(rules[6], ScaleTransition::ChangeIndex(7));
    assert_eq!(rules[7], ScaleTransition::ChangeIndex(-1));
    assert_eq!(rules[8], ScaleTransition::ChangeIndex(-2));
    assert_eq!(rules[9], ScaleTransition::ChangeIndex(-7));
}

#[test]
fn rules_transform_as_defined() {
    let s = scale(0, ScaleKind::Major);
    assert_eq!(
        make_transition(s, ScaleTransition::Vertical),
        scale(0, ScaleKind::Minor)
    );
    assert_eq!(
        make_transition(s, ScaleTransition::Diagonal),
        scale(1, ScaleKind::Minor)
    );
    assert_eq!(
        make_transition(s, ScaleTransition::MajorToMinor),
        scale(9, ScaleKind::Minor)
    );
    assert_eq!(
        make_transition(s, ScaleTransition::FlatToMinor),
        scale(8, ScaleKind::Minor)
    );
    let m = scale(0, ScaleKind::Minor);
    assert_eq!(
        make_transition(m, ScaleTransition::Diagonal),
        scale(11, ScaleKind::Major)
    );
    assert_eq!(
        make_transition(m, ScaleTransition::MajorToMinor),
        scale(3, ScaleKind::Major)
    );
    assert_eq!(
        make_transition(m, ScaleTransition::FlatToMinor),
        scale(4, ScaleKind::Major)
    );
    assert_eq!(
        make_transition(m, ScaleTransition::ChangeIndex(7)),
        scale(7, ScaleKind::Minor)
    );
}

#[test]
fn catalog_is_closed_over_the_state_space() {
    let nodes = make_nodes();
    let rules = possible_transitions();
    for s in &nodes {
        for r in &rules {
            let out = make_transition(*s, *r);
            assert!(nodes.contains(&out));
        }
    }
}
