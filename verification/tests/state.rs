use bones_core::crdt::state::{EpochPhaseState, Phase, StateError};

// === Phase ordering ===

#[test]
fn phase_ranking() {
    assert!(Phase::Open < Phase::Doing);
    assert!(Phase::Doing < Phase::Done);
    assert!(Phase::Done < Phase::Archived);
}

#[test]
fn phase_rank_values() {
    assert_eq!(Phase::Open.rank(), 0);
    assert_eq!(Phase::Doing.rank(), 1);
    assert_eq!(Phase::Done.rank(), 2);
    assert_eq!(Phase::Archived.rank(), 3);
}

#[test]
fn phase_display_and_parse() {
    for phase in Phase::ALL {
        let s = phase.to_string();
        let parsed: Phase = s.parse().unwrap();
        assert_eq!(phase, parsed);
    }
}

// === EpochPhaseState basics ===

#[test]
fn new_state_is_epoch_0_open() {
    let s = EpochPhaseState::new();
    assert_eq!(s.epoch, 0);
    assert_eq!(s.phase, Phase::Open);
}

#[test]
fn advance_forward() {
    let mut s = EpochPhaseState::new();
    s.advance(Phase::Doing).unwrap();
    assert_eq!(s.phase, Phase::Doing);
    s.advance(Phase::Done).unwrap();
    assert_eq!(s.phase, Phase::Done);
    s.advance(Phase::Archived).unwrap();
    assert_eq!(s.phase, Phase::Archived);
}

#[test]
fn advance_backward_fails() {
    let mut s = EpochPhaseState::with(0, Phase::Done);
    let err = s.advance(Phase::Doing).unwrap_err();
    assert!(matches!(err, StateError::InvalidTransition { .. }));
}

#[test]
fn advance_same_phase_fails() {
    let mut s = EpochPhaseState::with(0, Phase::Doing);
    let err = s.advance(Phase::Doing).unwrap_err();
    assert!(matches!(err, StateError::InvalidTransition { .. }));
}

// === Reopen ===

#[test]
fn reopen_increments_epoch() {
    let mut s = EpochPhaseState::with(0, Phase::Done);
    s.reopen();
    assert_eq!(s.epoch, 1);
    assert_eq!(s.phase, Phase::Open);
}

#[test]
fn reopen_from_archived() {
    let mut s = EpochPhaseState::with(0, Phase::Archived);
    s.reopen();
    assert_eq!(s.epoch, 1);
    assert_eq!(s.phase, Phase::Open);
}

#[test]
fn multiple_reopens_monotonic_epochs() {
    let mut s = EpochPhaseState::new();
    for expected_epoch in 1..=5 {
        s.advance(Phase::Done).unwrap_or(()); // may fail if already past Done
        s.reopen();
        assert_eq!(s.epoch, expected_epoch);
        assert_eq!(s.phase, Phase::Open);
    }
}

// === Merge: same epoch ===

#[test]
fn merge_same_epoch_higher_phase_wins() {
    let mut a = EpochPhaseState::with(0, Phase::Open);
    let b = EpochPhaseState::with(0, Phase::Done);
    a.merge(&b);
    assert_eq!(a.phase, Phase::Done);
    assert_eq!(a.epoch, 0);
}

#[test]
fn merge_same_epoch_lower_phase_no_change() {
    let mut a = EpochPhaseState::with(0, Phase::Done);
    let b = EpochPhaseState::with(0, Phase::Open);
    a.merge(&b);
    assert_eq!(a.phase, Phase::Done);
}

#[test]
fn merge_same_epoch_same_phase_idempotent() {
    let mut a = EpochPhaseState::with(0, Phase::Doing);
    let b = EpochPhaseState::with(0, Phase::Doing);
    a.merge(&b);
    assert_eq!(a.phase, Phase::Doing);
    assert_eq!(a.epoch, 0);
}

// === Merge: different epochs ===

#[test]
fn merge_higher_epoch_wins() {
    let mut a = EpochPhaseState::with(1, Phase::Open);
    let b = EpochPhaseState::with(2, Phase::Doing);
    a.merge(&b);
    assert_eq!(a.epoch, 2);
    assert_eq!(a.phase, Phase::Doing);
}

#[test]
fn merge_lower_epoch_no_change() {
    let mut a = EpochPhaseState::with(3, Phase::Doing);
    let b = EpochPhaseState::with(1, Phase::Archived);
    a.merge(&b);
    assert_eq!(a.epoch, 3);
    assert_eq!(a.phase, Phase::Doing);
}

// === Concurrent close/reopen ===

#[test]
fn concurrent_close_and_reopen_reopen_wins() {
    // Agent A closes: epoch 0, Done
    let close = EpochPhaseState::with(0, Phase::Done);
    // Agent B reopens: epoch 1, Open
    let reopen = EpochPhaseState::with(1, Phase::Open);

    // Merge order 1: close into reopen
    let mut m1 = close.clone();
    m1.merge(&reopen);
    assert_eq!(m1.epoch, 1);
    assert_eq!(m1.phase, Phase::Open);

    // Merge order 2: reopen into close
    let mut m2 = reopen.clone();
    m2.merge(&close);
    assert_eq!(m2.epoch, 1);
    assert_eq!(m2.phase, Phase::Open);

    // Both orderings produce same result
    assert_eq!(m1, m2);
}

// === Semilattice properties ===

#[test]
fn state_semilattice_commutative() {
    let cases = vec![
        (EpochPhaseState::with(0, Phase::Open), EpochPhaseState::with(0, Phase::Done)),
        (EpochPhaseState::with(1, Phase::Doing), EpochPhaseState::with(0, Phase::Archived)),
        (EpochPhaseState::with(2, Phase::Open), EpochPhaseState::with(2, Phase::Doing)),
    ];
    for (a, b) in cases {
        let mut ab = a.clone();
        ab.merge(&b);
        let mut ba = b.clone();
        ba.merge(&a);
        assert_eq!(ab, ba, "commutative failed for {a:?} and {b:?}");
    }
}

#[test]
fn state_semilattice_associative() {
    let a = EpochPhaseState::with(1, Phase::Open);
    let b = EpochPhaseState::with(0, Phase::Done);
    let c = EpochPhaseState::with(1, Phase::Doing);

    // (a merge b) merge c
    let mut left = a.clone();
    left.merge(&b);
    left.merge(&c);

    // a merge (b merge c)
    let mut bc = b.clone();
    bc.merge(&c);
    let mut right = a.clone();
    right.merge(&bc);

    assert_eq!(left, right);
}

#[test]
fn semilattice_idempotent() {
    let a = EpochPhaseState::with(2, Phase::Doing);
    let mut m = a.clone();
    m.merge(&a);
    assert_eq!(m, a);
}

// === Edge cases ===

#[test]
fn state_merge_default_with_default() {
    let mut a = EpochPhaseState::default();
    let b = EpochPhaseState::default();
    a.merge(&b);
    assert_eq!(a, EpochPhaseState::new());
}

#[test]
fn display() {
    let s = EpochPhaseState::with(3, Phase::Done);
    assert_eq!(s.to_string(), "epoch=3 phase=done");
}
