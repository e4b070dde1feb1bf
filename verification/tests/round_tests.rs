use mcs_binary::round::{RoundState, RoundSynchronizer, TakeOutcome};

// the count of verified submissions always equals the number of collected
// values, at every observable point
#[test]
fn count_matches_values_at_every_step() {
    let mut sync = RoundSynchronizer::new(5);
    for (i, v) in [10_000i64, 20_000, 30_000].iter().enumerate() {
        sync.submit(*v);
        assert_eq!(sync.state.verified_count, i + 1);
        assert_eq!(sync.state.collected_values.len(), i + 1);
    }
    assert!(!sync.state.published);
}

// a result request before quorum changes nothing
#[test]
fn take_before_quorum_is_not_ready() {
    let mut sync = RoundSynchronizer::new(2);
    sync.submit(10_000);
    assert!(matches!(sync.take_result(), TakeOutcome::NotReady));
    assert_eq!(sync.state.verified_count, 1);
    assert_eq!(sync.state.collected_values, vec![10_000]);
    assert!(!sync.state.published);
}

// exactly one submission triggers the quorum transition, and the taken
// result is the mean of precisely the collected values
#[test]
fn quorum_triggers_exactly_once() {
    let mut sync = RoundSynchronizer::new(3);
    assert!(!sync.submit(1_000_000));
    assert!(!sync.submit(1_020_000));
    assert!(sync.submit(1_010_000));
    assert!(sync.state.published);
    match sync.take_result() {
        TakeOutcome::Published { values, mean } => {
            assert_eq!(values, vec![1_000_000, 1_020_000, 1_010_000]);
            assert_eq!(mean, Some(1_010_000));
        }
        _ => panic!("expected a published mean"),
    }
    // after the round publishes, the record is empty before any further
    // submission is accepted
    assert_eq!(sync.state.verified_count, 0);
    assert!(sync.state.collected_values.is_empty());
    assert!(!sync.state.published);
    // the next round starts fresh: its values cannot merge into the last
    assert!(!sync.submit(50_000));
    assert_eq!(sync.state.collected_values, vec![50_000]);
}

// a submission after quorum but before the reset does not trigger again
#[test]
fn late_submission_does_not_retrigger() {
    let mut sync = RoundSynchronizer::new(2);
    assert!(!sync.submit(10_000));
    assert!(sync.submit(30_000));
    assert!(!sync.submit(50_000));
    assert!(sync.state.published);
    match sync.take_result() {
        TakeOutcome::Published { values, mean } => {
            assert_eq!(values, vec![10_000, 30_000, 50_000]);
            assert_eq!(mean, Some(30_000));
        }
        _ => panic!("expected a published mean"),
    }
}

// quorum reached with nothing collected is served defensively as no data
#[test]
fn published_with_nothing_collected_is_no_data() {
    let mut sync = RoundSynchronizer {
        state: RoundState { collected_values: Vec::new(), verified_count: 0, published: true },
        quorum: 0,
    };
    match sync.take_result() {
        TakeOutcome::Published { values, mean } => {
            assert!(values.is_empty());
            assert_eq!(mean, None);
        }
        _ => panic!("expected a published outcome"),
    }
    assert_eq!(sync.state.verified_count, 0);
    assert!(!sync.state.published);
}

// the state machine cycles indefinitely: collect, publish, reset, repeat
#[test]
fn many_rounds_cycle_cleanly() {
    let mut sync = RoundSynchronizer::new(4);
    for round in 0..50i64 {
        for i in 0..4i64 {
            let triggered = sync.submit((round * 4 + i) * 10_000);
            assert_eq!(triggered, i == 3);
            assert_eq!(sync.state.verified_count, (i + 1) as usize);
            assert_eq!(sync.state.collected_values.len(), (i + 1) as usize);
        }
        match sync.take_result() {
            TakeOutcome::Published { values, mean } => {
                assert_eq!(values.len(), 4);
                // mean of 4k, 4k+1, 4k+2, 4k+3 (scaled) is 4k+1 and a half
                assert_eq!(mean, Some(round * 40_000 + 15_000));
            }
            _ => panic!("round did not publish"),
        }
        assert_eq!(sync.state.verified_count, 0);
        assert!(sync.state.collected_values.is_empty());
        assert!(!sync.state.published);
    }
}
