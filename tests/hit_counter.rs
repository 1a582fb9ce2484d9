use hollowknight_autosplit::hit_counter::{HitCause, HitCounter, HitReadings};

fn read(recoiling: bool, hazard: bool, dead: bool) -> HitReadings {
    HitReadings { recoiling: Some(recoiling), hazard: Some(hazard), dead: Some(dead) }
}

#[test]
fn idle_timer_changes_nothing() {
    let mut c = HitCounter::new();
    let a = c.load_removal(false, 0, read(true, true, true));
    assert!(!a.pause && !a.resume && a.hits.is_empty());
    assert_eq!(c.hits(), 0);
}

#[test]
fn rising_edges_count_and_start_clock() {
    let mut c = HitCounter::new();
    let a = c.load_removal(true, 0, read(true, false, false));
    assert!(a.resume);
    assert_eq!(a.hits, vec![(HitCause::Recoiling, 1)]);
    let b = c.load_removal(true, 0, read(true, true, false));
    assert!(!b.resume);
    assert_eq!(b.hits, vec![(HitCause::Hazard, 2)]);
    assert_eq!(c.hits(), 2);
}

#[test]
fn clock_pauses_after_as_many_seconds_as_hits() {
    let mut c = HitCounter::new();
    c.load_removal(true, 0, read(true, false, false));
    c.load_removal(true, 0, read(false, true, false));
    let early = c.load_removal(true, 1, read(false, true, false));
    assert!(!early.pause);
    let due = c.load_removal(true, 2, read(false, true, false));
    assert!(due.pause);
    assert_eq!(c.hits(), 0);
}

#[test]
fn failed_reads_are_skipped() {
    let mut c = HitCounter::new();
    let a = c.load_removal(true, 0, HitReadings { recoiling: None, hazard: None, dead: Some(true) });
    assert_eq!(a.hits, vec![(HitCause::Dead, 1)]);
}
