use sweep::rank::{RankAction, RankerCmd, RankerState};

#[test]
fn ranker_decisions() {
    let mut state = RankerState::new();
    assert_eq!(state.rank(), RankAction::DoNothing);
    assert_eq!(state.rank_gen, 0);

    assert!(!state.process(RankerCmd::HaystackAppend(3)));
    assert_eq!(state.action, RankAction::Offset(0));
    assert_eq!(state.rank(), RankAction::Offset(0));
    assert_eq!(state.haystack_len, 3);
    assert_eq!(state.rank_gen, 1);

    // the action is never reset after a ranking
    assert!(!state.process(RankerCmd::HaystackAppend(2)));
    assert_eq!(state.action, RankAction::Offset(0));
    assert_eq!(state.rank(), RankAction::Offset(0));
    assert_eq!(state.haystack_len, 5);

    assert!(state.process(RankerCmd::Needle("o".to_string())));
    assert_eq!(state.action, RankAction::All);
    assert!(state.process(RankerCmd::Needle("oe".to_string())));
    assert_eq!(state.action, RankAction::All);

    assert!(state.process(RankerCmd::Scorer));
    assert!(!state.process(RankerCmd::KeepOrder(None)));
    assert!(state.keep_order);
    assert!(!state.process(RankerCmd::KeepOrder(Some(false))));
    assert!(!state.keep_order);

    assert!(!state.process(RankerCmd::Sync));
    assert_eq!(state.synced, 1);
    assert_eq!(state.rank(), RankAction::All);
    assert_eq!(state.synced, 0);

    assert!(!state.process(RankerCmd::HaystackClear));
    assert_eq!(state.haystack_gen, 1);
    assert_eq!(state.haystack_len, 0);
}

#[test]
fn ranker_needle_refinement() {
    let mut state = RankerState::new();
    // same needle with nothing due: nothing to do, no new scorer
    assert!(!state.process(RankerCmd::Needle(String::new())));
    assert_eq!(state.action, RankAction::DoNothing);
    assert!(state.process(RankerCmd::Needle("a".to_string())));
    assert_eq!(state.action, RankAction::CurrentMatch);
    assert!(state.process(RankerCmd::Needle("ab".to_string())));
    assert_eq!(state.action, RankAction::CurrentMatch);
    assert!(state.process(RankerCmd::Needle("b".to_string())));
    assert_eq!(state.action, RankAction::All);
    assert_eq!(state.needle, "b");

    let mut synced = RankerState::new();
    synced.process(RankerCmd::Sync);
    assert_eq!(synced.action, RankAction::Notify);
    assert_eq!(synced.rank(), RankAction::Notify);
}
