use lau_reputation::action::{effects, ActionKind, Effect, Scale};
use lau_reputation::dimension::{Dimension, DIMENSION_COUNT};
use lau_reputation::ranking::{indices_above, rank_descending};
use lau_reputation::selection::{
    first_min_index, last_max_index, strongest_dimension, weakest_dimension,
};
use lau_reputation::table::PlayerTable;

const ALL_KINDS: [ActionKind; 10] = [
    ActionKind::HelpedPlayer,
    ActionKind::SharedBlueprint,
    ActionKind::CompletedQuest,
    ActionKind::BrokeConservation,
    ActionKind::TaughtPeer,
    ActionKind::GiftedItem,
    ActionKind::AbandonedCollab,
    ActionKind::CreatedChallenge,
    ActionKind::ReceivedPraise,
    ActionKind::ReceivedReport,
];

fn plain(dimension: Dimension, raises: bool, scale: Scale) -> Effect {
    Effect { dimension, raises, scale, by_magnitude: false }
}

#[test]
fn helped_player_raises_helpfulness() {
    assert_eq!(
        effects(ActionKind::HelpedPlayer),
        vec![plain(Dimension::Helpfulness, true, Scale::Whole)]
    );
}

#[test]
fn shared_blueprint_raises_generosity_and_half_creativity() {
    assert_eq!(
        effects(ActionKind::SharedBlueprint),
        vec![
            plain(Dimension::Generosity, true, Scale::Whole),
            plain(Dimension::Creativity, true, Scale::Half),
        ]
    );
}

#[test]
fn magnitude_actions_scale_by_their_value() {
    assert_eq!(
        effects(ActionKind::BrokeConservation),
        vec![Effect {
            dimension: Dimension::Conservation,
            raises: false,
            scale: Scale::Whole,
            by_magnitude: true
        }]
    );
    assert_eq!(
        effects(ActionKind::TaughtPeer),
        vec![Effect {
            dimension: Dimension::Teaching,
            raises: true,
            scale: Scale::Whole,
            by_magnitude: true
        }]
    );
}

#[test]
fn single_dimension_actions() {
    assert_eq!(
        effects(ActionKind::CompletedQuest),
        vec![plain(Dimension::Reliability, true, Scale::Whole)]
    );
    assert_eq!(
        effects(ActionKind::GiftedItem),
        vec![plain(Dimension::Generosity, true, Scale::Whole)]
    );
    assert_eq!(
        effects(ActionKind::AbandonedCollab),
        vec![plain(Dimension::Reliability, false, Scale::Whole)]
    );
    assert_eq!(
        effects(ActionKind::CreatedChallenge),
        vec![plain(Dimension::Creativity, true, Scale::Whole)]
    );
}

#[test]
fn praise_and_report_mirror_each_other_on_every_dimension() {
    let praise = effects(ActionKind::ReceivedPraise);
    let report = effects(ActionKind::ReceivedReport);
    assert_eq!(praise.len(), DIMENSION_COUNT);
    assert_eq!(report.len(), DIMENSION_COUNT);
    for i in 0..DIMENSION_COUNT {
        let d = Dimension::from_index(i);
        assert_eq!(praise[i], plain(d, true, Scale::Fifth));
        assert_eq!(report[i], plain(d, false, Scale::Fifth));
    }
}

#[test]
fn no_action_moves_a_dimension_twice_and_directions_follow_penalties() {
    for kind in ALL_KINDS {
        let es = effects(kind);
        assert!(!es.is_empty());
        for i in 0..es.len() {
            for j in (i + 1)..es.len() {
                assert_ne!(es[i].dimension, es[j].dimension);
            }
            let penalty = matches!(
                kind,
                ActionKind::BrokeConservation
                    | ActionKind::AbandonedCollab
                    | ActionKind::ReceivedReport
            );
            assert_eq!(es[i].raises, !penalty);
        }
    }
}

#[test]
fn dimension_names_and_order() {
    let names: Vec<String> = (0..DIMENSION_COUNT).map(|i| Dimension::from_index(i).name()).collect();
    assert_eq!(
        names,
        vec!["helpfulness", "creativity", "reliability", "generosity", "teaching", "conservation"]
    );
    for i in 0..DIMENSION_COUNT {
        assert_eq!(Dimension::from_index(i).index(), i);
    }
}

#[test]
fn overall_weights_sum_to_one_whole() {
    let total: u32 = (0..DIMENSION_COUNT).map(|i| Dimension::from_index(i).overall_weight()).sum();
    assert_eq!(total, 100);
    assert_eq!(Dimension::Helpfulness.overall_weight(), 20);
    assert_eq!(Dimension::Reliability.overall_weight(), 20);
    assert_eq!(Dimension::Teaching.overall_weight(), 15);
}

#[test]
fn strongest_is_last_maximum_and_weakest_is_first_minimum() {
    let keys = vec![Some(8), Some(3), Some(5), Some(1), Some(2), Some(0)];
    assert_eq!(strongest_dimension(&keys), Dimension::Helpfulness);
    assert_eq!(weakest_dimension(&keys), Dimension::Conservation);
    let ties = vec![Some(4), Some(1), Some(4), Some(1), Some(4), Some(1)];
    assert_eq!(last_max_index(&ties), 4);
    assert_eq!(first_min_index(&ties), 1);
    assert_eq!(strongest_dimension(&ties), Dimension::Teaching);
    assert_eq!(weakest_dimension(&ties), Dimension::Creativity);
    let flat = vec![Some(0); 6];
    assert_eq!(strongest_dimension(&flat), Dimension::Conservation);
    assert_eq!(weakest_dimension(&flat), Dimension::Helpfulness);
}

#[test]
fn reliability_needs_work() {
    let keys = vec![Some(5), Some(3), Some(-2), Some(1), Some(2), Some(0)];
    assert_eq!(weakest_dimension(&keys), Dimension::Reliability);
}

#[test]
fn unordered_values_follow_the_scan_rule() {
    // A value comparable with nothing is never strictly above or below another:
    // the max scan always moves on past it, the min scan never does.
    let keys = vec![Some(9), None, Some(1)];
    assert_eq!(last_max_index(&keys), 2);
    assert_eq!(first_min_index(&keys), 2);
    let keys = vec![None, Some(3), Some(1)];
    assert_eq!(last_max_index(&keys), 1);
    assert_eq!(first_min_index(&keys), 0);
}

#[test]
fn ranking_is_descending_and_stable() {
    let keys = vec![2, 8, 5, 8, 1];
    assert_eq!(rank_descending(&keys, 2), vec![1, 3]);
    assert_eq!(rank_descending(&keys, 10), vec![1, 3, 2, 0, 4]);
    assert_eq!(rank_descending(&keys, 0), Vec::<usize>::new());
    assert_eq!(rank_descending(&Vec::new(), 3), Vec::<usize>::new());
}

#[test]
fn top_players_ordering_by_keys() {
    // alice 0.8, carol 0.2, eve 0.5 (as order keys)
    let keys = vec![80, 20, 50];
    assert_eq!(rank_descending(&keys, 2), vec![0, 2]);
}

#[test]
fn filtering_above_a_threshold() {
    let keys = vec![Some(3), Some(-2), None, Some(0), Some(7)];
    assert_eq!(indices_above(&keys, Some(0)), vec![0, 4]);
    assert_eq!(indices_above(&keys, Some(-5)), vec![0, 1, 3, 4]);
    assert_eq!(indices_above(&keys, None), Vec::<usize>::new());
}

#[test]
fn table_read_after_write() {
    let mut t: PlayerTable<u32> = PlayerTable::new();
    assert_eq!(t.get("alice"), None);
    t.insert("alice", 3);
    t.insert("bob", 4);
    t.insert("alice", 5);
    assert_eq!(t.get("alice"), Some(&5));
    assert_eq!(t.get("bob"), Some(&4));
    assert!(t.contains("bob"));
    assert!(!t.contains("carol"));
    assert_eq!(t.len(), 2);
    assert_eq!(t.key_at(0), "alice");
    assert_eq!(t.key_at(1), "bob");
    t.set_value_at(1, 9);
    assert_eq!(*t.value_at(1), 9);
    let c = t.clone();
    assert_eq!(c.get("alice"), Some(&5));
    assert_eq!(c.key_at(1), "bob");
}

#[test]
fn table_push_counts() {
    let mut t: PlayerTable<Vec<u8>> = PlayerTable::new();
    assert_eq!(t.count_for("alice"), 0);
    t.push_to("alice", 1);
    t.push_to("bob", 2);
    t.push_to("alice", 3);
    assert_eq!(t.count_for("alice"), 2);
    assert_eq!(t.count_for("bob"), 1);
    assert_eq!(t.get("alice"), Some(&vec![1, 3]));
    assert_eq!(t.len(), 2);
}

#[test]
fn trusted_players_by_keys() {
    // alice's overall 0.16 and eve's -0.18 against a threshold of 0, as order keys.
    let keys = vec![Some(16), Some(-18)];
    assert_eq!(indices_above(&keys, Some(0)), vec![0]);
}

#[test]
fn counts_follow_a_history_of_pushes() {
    let mut events: PlayerTable<Vec<u32>> = PlayerTable::new();
    let mut scores: PlayerTable<u32> = PlayerTable::new();
    events.push_to("alice", 1);
    scores.insert("alice", 10);
    events.push_to("bob", 2);
    // A step that only touches the other table leaves every count alone.
    scores.set_value_at(0, 9);
    assert_eq!(events.count_for("alice"), 1);
    events.push_to("alice", 3);
    assert_eq!(events.count_for("alice"), 2);
    assert_eq!(events.count_for("bob"), 1);
    assert_eq!(events.count_for("carol"), 0);
    assert_eq!(events.key_at(0), "alice");
    assert_eq!(events.key_at(1), "bob");
}
