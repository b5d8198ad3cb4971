use emul8tor::timing::TimingScheduler;

#[test]
fn test_scheduler_periods() {
    let s = TimingScheduler::new(700, 0);
    assert_eq!(s.cycle_period, 1_000_000_000 / 700);
    assert_eq!(s.frame_period, 16_666_666);
}

#[test]
fn test_scheduler_grants_cycles_and_frames_independently() {
    let mut s = TimingScheduler::new(700, 0);
    assert_eq!(s.tick(0), (false, false));
    // One cycle period later a cycle is due, but no frame yet.
    assert_eq!(s.tick(1_500_000), (true, false));
    // Just after the grant nothing is due again.
    assert_eq!(s.tick(1_600_000), (false, false));
    // At the frame period both actions are due.
    assert_eq!(s.tick(16_700_000), (true, true));
    assert_eq!(s.tick(16_800_000), (false, false));
}

#[test]
fn test_scheduler_resets_only_the_granted_clock() {
    let mut s = TimingScheduler::new(60, 0);
    let (cycle, frame) = s.tick(16_666_666);
    assert!(cycle && frame);
    assert_eq!(s.last_cycle, 16_666_666);
    assert_eq!(s.last_frame, 16_666_666);
    let (cycle2, frame2) = s.tick(20_000_000);
    assert!(!cycle2 && !frame2);
    assert_eq!(s.last_cycle, 16_666_666);
}
