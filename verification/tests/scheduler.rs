use keyboard::keycode::{KEY_A, KEY_B, KEY_C};
use keyboard::{
    Action, Event, Fault, HostReadOutcome, Indicator, Keyboard, LineRead, Phase, Scheduler,
    ServiceOutcome, SubmitOutcome, BOOT_REPORT_CAPACITY, SCAN_PERIOD_MS, SERVICE_PERIOD_MS,
};

fn default_scheduler(now: u64) -> Scheduler {
    Scheduler::new(
        Keyboard::new(),
        BOOT_REPORT_CAPACITY,
        SCAN_PERIOD_MS,
        SERVICE_PERIOD_MS,
        now,
    )
    .unwrap()
}

fn awaiting_lines() -> Scheduler {
    let mut scheduler = default_scheduler(0);
    assert_eq!(scheduler.step(10_000, Event::Wake), Action::ReadLines);
    scheduler
}

fn awaiting_submit() -> Scheduler {
    let mut scheduler = awaiting_lines();
    let action = scheduler.step(10_100, Event::Lines(vec![LineRead::High; 3]));
    assert!(matches!(action, Action::Submit(_)));
    scheduler
}

#[test]
fn default_periods_are_ten_and_one_milliseconds() {
    assert_eq!(SCAN_PERIOD_MS, 10);
    assert_eq!(SERVICE_PERIOD_MS, 1);
    let scheduler = default_scheduler(0);
    assert_eq!(scheduler.scan_timer().period(), 10_000);
    assert_eq!(scheduler.scan_timer().deadline(), 10_000);
    assert_eq!(scheduler.service_timer().period(), 1_000);
    assert_eq!(scheduler.service_timer().deadline(), 1_000);
    assert_eq!(scheduler.phase(), Phase::Idle);
    assert_eq!(scheduler.fault(), None);
    assert_eq!(scheduler.capacity(), 6);
    assert_eq!(scheduler.keyboard().keymap(), &[KEY_A, KEY_B, KEY_C]);
}

#[test]
fn service_period_longer_than_scan_period_is_refused() {
    let made = Scheduler::new(Keyboard::new(), 6, 1, 10, 0);
    assert_eq!(made.err(), Some(Fault::ServicePeriodExceedsScan));
}

#[test]
fn equal_periods_are_accepted() {
    let scheduler = Scheduler::new(Keyboard::new(), 6, 5, 5, 0).unwrap();
    assert_eq!(scheduler.scan_timer().period(), 5_000);
    assert_eq!(scheduler.service_timer().period(), 5_000);
}

#[test]
fn a_pass_with_no_timer_due_only_polls_the_bus() {
    let mut scheduler = default_scheduler(0);
    assert_eq!(scheduler.step(500, Event::Wake), Action::Poll);
    assert_eq!(scheduler.phase(), Phase::AwaitPoll);
    assert_eq!(scheduler.step(510, Event::Polled(false)), Action::Repeat);
    assert_eq!(scheduler.phase(), Phase::Idle);
}

#[test]
fn service_runs_when_its_timer_fires() {
    let mut scheduler = default_scheduler(0);
    assert_eq!(scheduler.step(999, Event::Wake), Action::Poll);
    assert_eq!(scheduler.step(999, Event::Polled(false)), Action::Repeat);
    assert_eq!(scheduler.step(1_000, Event::Wake), Action::Service);
    assert_eq!(scheduler.phase(), Phase::AwaitService);
    assert_eq!(scheduler.service_timer().deadline(), 2_000);
    assert_eq!(scheduler.step(1_010, Event::Serviced(ServiceOutcome::Done)), Action::Poll);
    assert_eq!(scheduler.step(1_020, Event::Polled(false)), Action::Repeat);
    assert_eq!(scheduler.step(1_030, Event::Wake), Action::Poll);
}

#[test]
fn service_would_block_is_not_a_fault() {
    let mut scheduler = default_scheduler(0);
    assert_eq!(scheduler.step(1_000, Event::Wake), Action::Service);
    let action = scheduler.step(1_010, Event::Serviced(ServiceOutcome::WouldBlock));
    assert_eq!(action, Action::Poll);
    assert_eq!(scheduler.fault(), None);
}

#[test]
fn failed_service_halts() {
    let mut scheduler = default_scheduler(0);
    assert_eq!(scheduler.step(1_000, Event::Wake), Action::Service);
    let action = scheduler.step(1_010, Event::Serviced(ServiceOutcome::Failed));
    assert_eq!(action, Action::Halt(Fault::Service));
    assert_eq!(scheduler.phase(), Phase::Halted(Fault::Service));
    assert_eq!(scheduler.fault(), Some(Fault::Service));
}

#[test]
fn scan_comes_before_service_and_service_before_the_bus_poll() {
    let mut scheduler = default_scheduler(0);
    assert_eq!(scheduler.step(10_000, Event::Wake), Action::ReadLines);
    assert_eq!(scheduler.phase(), Phase::AwaitLines);
    assert_eq!(scheduler.scan_timer().deadline(), 20_000);
    assert_eq!(scheduler.service_timer().deadline(), 1_000);
    let action = scheduler.step(
        10_200,
        Event::Lines(vec![LineRead::High, LineRead::Low, LineRead::High]),
    );
    match action {
        Action::Submit(done) => {
            assert_eq!(done.report.slots(), &[KEY_B, 0, 0, 0, 0, 0]);
            assert_eq!(done.indicator, Indicator::On);
        }
        other => panic!("expected a submission, got {:?}", other),
    }
    assert_eq!(scheduler.phase(), Phase::AwaitSubmit);
    assert_eq!(scheduler.step(10_400, Event::Submitted(SubmitOutcome::Sent)), Action::Service);
    assert_eq!(scheduler.service_timer().deadline(), 2_000);
    assert_eq!(scheduler.step(10_500, Event::Serviced(ServiceOutcome::Done)), Action::Poll);
    assert_eq!(scheduler.step(10_600, Event::Polled(false)), Action::Repeat);
    assert_eq!(scheduler.phase(), Phase::Idle);
}

#[test]
fn would_block_and_duplicate_submissions_are_not_faults() {
    for outcome in [SubmitOutcome::Sent, SubmitOutcome::WouldBlock, SubmitOutcome::Duplicate] {
        let mut scheduler = awaiting_submit();
        assert_eq!(scheduler.step(10_200, Event::Submitted(outcome)), Action::Service);
        assert_eq!(scheduler.fault(), None);
    }
}

#[test]
fn failed_submission_halts() {
    let mut scheduler = awaiting_submit();
    let action = scheduler.step(10_200, Event::Submitted(SubmitOutcome::Failed));
    assert_eq!(action, Action::Halt(Fault::Submit));
    assert_eq!(scheduler.fault(), Some(Fault::Submit));
}

#[test]
fn service_that_is_not_due_after_a_scan_is_skipped() {
    let mut scheduler = Scheduler::new(Keyboard::new(), 6, 10, 10, 0).unwrap();
    assert_eq!(scheduler.step(10_000, Event::Wake), Action::ReadLines);
    let action = scheduler.step(10_001, Event::Lines(vec![LineRead::High; 3]));
    assert!(matches!(action, Action::Submit(_)));
    assert_eq!(scheduler.step(10_002, Event::Submitted(SubmitOutcome::Sent)), Action::Service);
    assert_eq!(scheduler.step(10_003, Event::Serviced(ServiceOutcome::Done)), Action::Poll);
    assert_eq!(scheduler.step(10_004, Event::Polled(false)), Action::Repeat);
    assert_eq!(scheduler.step(20_000, Event::Wake), Action::ReadLines);
    let action = scheduler.step(20_001, Event::Lines(vec![LineRead::High; 3]));
    assert!(matches!(action, Action::Submit(_)));
    assert_eq!(scheduler.step(20_002, Event::Submitted(SubmitOutcome::Sent)), Action::Service);
    assert_eq!(scheduler.step(20_003, Event::Serviced(ServiceOutcome::Done)), Action::Poll);
    assert_eq!(scheduler.step(20_004, Event::Polled(false)), Action::Repeat);
    assert_eq!(scheduler.step(25_000, Event::Wake), Action::Poll);
}

#[test]
fn host_report_is_read_when_the_bus_poll_finds_one() {
    let mut scheduler = default_scheduler(0);
    assert_eq!(scheduler.step(100, Event::Wake), Action::Poll);
    assert_eq!(scheduler.step(110, Event::Polled(true)), Action::ReadHostReport);
    assert_eq!(scheduler.phase(), Phase::AwaitHostReport);
    let action = scheduler.step(120, Event::HostReport(HostReadOutcome::Received(0b0000_0010)));
    assert_eq!(action, Action::UpdateLeds(2));
    assert_eq!(scheduler.phase(), Phase::Idle);
}

#[test]
fn host_read_would_block_ends_the_pass() {
    let mut scheduler = default_scheduler(0);
    assert_eq!(scheduler.step(100, Event::Wake), Action::Poll);
    assert_eq!(scheduler.step(110, Event::Polled(true)), Action::ReadHostReport);
    let action = scheduler.step(120, Event::HostReport(HostReadOutcome::WouldBlock));
    assert_eq!(action, Action::Repeat);
    assert_eq!(scheduler.phase(), Phase::Idle);
}

#[test]
fn failed_host_read_halts() {
    let mut scheduler = default_scheduler(0);
    assert_eq!(scheduler.step(100, Event::Wake), Action::Poll);
    assert_eq!(scheduler.step(110, Event::Polled(true)), Action::ReadHostReport);
    let action = scheduler.step(120, Event::HostReport(HostReadOutcome::Failed));
    assert_eq!(action, Action::Halt(Fault::HostRead));
    assert_eq!(scheduler.fault(), Some(Fault::HostRead));
}

#[test]
fn an_event_that_was_not_asked_for_halts() {
    let mut scheduler = default_scheduler(0);
    let action = scheduler.step(100, Event::Polled(false));
    assert_eq!(action, Action::Halt(Fault::UnexpectedEvent));
    let mut scheduler = awaiting_lines();
    let action = scheduler.step(10_100, Event::Wake);
    assert_eq!(action, Action::Halt(Fault::UnexpectedEvent));
    let mut scheduler = awaiting_submit();
    let action = scheduler.step(10_200, Event::Serviced(ServiceOutcome::Done));
    assert_eq!(action, Action::Halt(Fault::UnexpectedEvent));
}

#[test]
fn a_halted_scheduler_stays_halted() {
    let mut scheduler = awaiting_submit();
    let halt = Action::Halt(Fault::Submit);
    assert_eq!(scheduler.step(10_200, Event::Submitted(SubmitOutcome::Failed)), halt);
    assert_eq!(scheduler.step(10_300, Event::Wake), halt);
    assert_eq!(scheduler.step(10_400, Event::Lines(vec![LineRead::Low; 3])), halt);
    assert_eq!(scheduler.step(10_500, Event::Submitted(SubmitOutcome::Sent)), halt);
    assert_eq!(scheduler.step(10_600, Event::Polled(true)), halt);
    assert_eq!(scheduler.phase(), Phase::Halted(Fault::Submit));
}

#[test]
fn wrong_number_of_reads_halts() {
    let mut scheduler = awaiting_lines();
    let action = scheduler.step(10_100, Event::Lines(vec![LineRead::High; 2]));
    assert_eq!(action, Action::Halt(Fault::LineCountMismatch));
}

#[test]
fn idle_scans_keep_submitting_the_empty_report() {
    let mut scheduler = Scheduler::new(Keyboard::new(), 6, 10, 10, 0).unwrap();
    let mut now = 10_000;
    for _ in 0..50 {
        assert_eq!(scheduler.step(now, Event::Wake), Action::ReadLines);
        match scheduler.step(now + 1, Event::Lines(vec![LineRead::High; 3])) {
            Action::Submit(done) => {
                assert_eq!(done.report.slots(), &[0; 6]);
                assert!(!done.report.overflowed());
                assert_eq!(done.indicator, Indicator::Off);
            }
            other => panic!("expected a submission, got {:?}", other),
        }
        let action = scheduler.step(now + 2, Event::Submitted(SubmitOutcome::Duplicate));
        assert_eq!(action, Action::Service);
        assert_eq!(scheduler.step(now + 3, Event::Serviced(ServiceOutcome::Done)), Action::Poll);
        assert_eq!(scheduler.step(now + 4, Event::Polled(false)), Action::Repeat);
        now += 10_000;
    }
}

#[test]
fn service_keeps_its_rate_while_scans_take_their_time() {
    // every pass takes 400 microseconds, and a pass that scans 900
    let mut scheduler = default_scheduler(0);
    let mut now: u64 = 0;
    let mut services = 0u64;
    let mut scans = 0u64;
    let mut first_service_check = None;
    let mut last_service_check = 0;
    while now < 1_000_000 {
        let mut action = scheduler.step(now, Event::Wake);
        if action == Action::ReadLines {
            scans += 1;
            now += 300;
            action = scheduler.step(now, Event::Lines(vec![LineRead::Low; 3]));
            assert!(matches!(action, Action::Submit(_)));
            now += 200;
            action = scheduler.step(now, Event::Submitted(SubmitOutcome::Sent));
        }
        first_service_check.get_or_insert(now);
        last_service_check = now;
        if action == Action::Service {
            services += 1;
            action = scheduler.step(now, Event::Serviced(ServiceOutcome::WouldBlock));
        }
        assert_eq!(action, Action::Poll);
        assert_eq!(scheduler.step(now, Event::Polled(false)), Action::Repeat);
        now += 400;
    }
    let window = last_service_check - first_service_check.unwrap();
    assert!(services >= window / 1_000);
    assert!(scans >= 99);
    assert_eq!(scheduler.fault(), None);
}
