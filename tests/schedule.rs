use chinchilib::schedule::{DoneStatus, IdleAction, TickScheduler};

#[test]
fn hz_to_nanosec_period() {
    assert_eq!(chinchilib::schedule::hz_to_nanosec_period(60), 16_666_666);
    assert_eq!(chinchilib::schedule::hz_to_nanosec_period(1), 1_000_000_000);
}

#[test]
fn zero_hz_has_no_period() {
    assert_eq!(chinchilib::schedule::hz_to_nanosec_period(0), u64::MAX);
    assert_eq!(chinchilib::schedule::hz_to_nanosec_period(7), 142_857_142);
}

#[test]
fn idle_waits_for_events_when_nothing_held() {
    let mut s = TickScheduler::new(60, 0);
    assert_eq!(s.tick_period, 16_666_666);
    assert_eq!(s.on_idle(10, DoneStatus::NotDone, false), IdleAction::Wait);
    assert_eq!(s.last_tick, 0);
}

#[test]
fn idle_wakes_at_next_tick_while_held() {
    let mut s = TickScheduler::new(60, 0);
    assert_eq!(s.on_idle(10, DoneStatus::NotDone, true), IdleAction::WaitUntil(16_666_666));
    s.set_always_tick(true);
    assert_eq!(s.on_idle(20, DoneStatus::Remain, false), IdleAction::WaitUntil(16_666_666));
}

#[test]
fn idle_ticks_after_a_period() {
    let mut s = TickScheduler::new(60, 0);
    assert_eq!(s.on_idle(16_666_666, DoneStatus::NotDone, false), IdleAction::Tick);
    assert_eq!(s.last_tick, 16_666_666);
    assert_eq!(s.on_idle(16_666_667, DoneStatus::NotDone, true), IdleAction::WaitUntil(33_333_332));
}

#[test]
fn idle_exits_when_app_is_done() {
    let mut s = TickScheduler::new(60, 0);
    assert_eq!(s.on_idle(99_999_999, DoneStatus::Exit, true), IdleAction::Exit);
    assert_eq!(s.last_tick, 0);
}

#[test]
fn idle_with_clock_behind_and_no_period() {
    let mut s = TickScheduler::new(60, 1_000);
    assert_eq!(s.on_idle(500, DoneStatus::NotDone, true), IdleAction::WaitUntil(16_667_166));
    let mut z = TickScheduler::new(0, 0);
    assert_eq!(z.on_idle(5, DoneStatus::NotDone, true), IdleAction::WaitUntil(u64::MAX));
}
