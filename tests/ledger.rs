use net_connect::ledger::{ConnectionOutcomeParams, ConnectionOutcomes, OutcomeRecord, OutcomeUpdate};

const PARAMS: ConnectionOutcomeParams = ConnectionOutcomeParams { age_cutoff: 100_000, max_delay: 5_000 };

fn update(route: u64, finished_at: u64, success: bool) -> OutcomeUpdate {
    OutcomeUpdate { route, record: OutcomeRecord { finished_at, success } }
}

fn ledger_after(updates: &[OutcomeUpdate]) -> Vec<Option<OutcomeRecord>> {
    let mut l = ConnectionOutcomes::new(PARAMS);
    l.apply_outcome_updates(&updates.to_vec());
    (0..4).map(|r| l.record(r)).collect()
}

#[test]
fn new_ledger_is_empty() {
    let l = ConnectionOutcomes::new(PARAMS);
    assert_eq!(l.record(1), None);
    assert_eq!(l.params(), PARAMS);
    assert_eq!(l.delay_for(1, 0), 0);
}

#[test]
fn later_outcome_replaces_earlier() {
    let mut l = ConnectionOutcomes::new(PARAMS);
    l.apply_outcome_update(update(1, 10, false));
    l.apply_outcome_update(update(1, 20, true));
    assert_eq!(l.record(1), Some(OutcomeRecord { finished_at: 20, success: true }));
    l.apply_outcome_update(update(1, 15, false));
    assert_eq!(l.record(1), Some(OutcomeRecord { finished_at: 20, success: true }));
}

#[test]
fn failure_wins_a_tie() {
    let mut l = ConnectionOutcomes::new(PARAMS);
    l.apply_outcome_update(update(1, 10, true));
    l.apply_outcome_update(update(1, 10, false));
    assert_eq!(l.record(1), Some(OutcomeRecord { finished_at: 10, success: false }));
    l.apply_outcome_update(update(1, 10, true));
    assert_eq!(l.record(1), Some(OutcomeRecord { finished_at: 10, success: false }));
}

#[test]
fn update_order_does_not_matter() {
    let a = update(1, 10, false);
    let b = update(1, 30, true);
    let c = update(2, 5, false);
    let d = update(1, 30, false);
    let e = update(3, 7, true);
    let base = ledger_after(&[a, b, c, d, e]);
    assert_eq!(base, ledger_after(&[e, d, c, b, a]));
    assert_eq!(base, ledger_after(&[c, a, e, d, b]));
    assert_eq!(base, ledger_after(&[d, b, a, e, c]));
    assert_eq!(base[1], Some(OutcomeRecord { finished_at: 30, success: false }));
    assert_eq!(base[0], None);
}

#[test]
fn recent_failure_delays_route() {
    let mut l = ConnectionOutcomes::new(PARAMS);
    l.apply_outcome_update(update(1, 1_000, false));
    l.apply_outcome_update(update(2, 1_000, true));
    // the rest of the cutoff exceeds the cap
    assert_eq!(l.delay_for(1, 2_000), 5_000);
    // near the end of the cutoff the rest is owed
    assert_eq!(l.delay_for(1, 98_000), 3_000);
    // past the cutoff nothing is owed
    assert_eq!(l.delay_for(1, 101_000), 0);
    // a success is never delayed
    assert_eq!(l.delay_for(2, 2_000), 0);
    // a clock reading before the failure counts as no time passed
    assert_eq!(l.delay_for(1, 0), 5_000);
}
