//! The scan/report scheduler: what the firmware loop does next.
//!
//! The scheduler never touches the hardware. The loop tells it what happened
//! and at what time, and does what it answers: each call of
//! [`Scheduler::step`] takes one event and returns the one action to perform
//! next. One pass of the loop is: wake; if the scan timer fired, read the
//! lines and submit the report; if the service timer fired, run the
//! transport's service; poll the bus, and read the host's report if one is
//! ready.

use vstd::prelude::*;

use crate::fault::Fault;
use crate::indicator::Indicator;
use crate::keycode::NO_EVENT;
use crate::keymap::Keyboard;
use crate::report::ReportView;
use crate::scan::{
    lemma_failed_line,
    lemma_failed_line_found,
    lemma_scan_idle,
    scan,
    scan_fault,
    scanned,
    LineRead,
    Scan,
    ScanView,
};
use crate::timer::{
    after_polls,
    clock_end,
    due,
    firings,
    lemma_polled_timer_keeps_rate,
    polled,
    rearmed,
    PeriodicTimer,
    TimerView,
};
use crate::transport::{
    host_read_fault,
    service_fault,
    submit_fault,
    HostReadOutcome,
    ServiceOutcome,
    SubmitOutcome,
};

verus! {

/// Scan period of the default configuration, in milliseconds.
pub const SCAN_PERIOD_MS: u32 = 10;

/// Service period of the default configuration, in milliseconds.
pub const SERVICE_PERIOD_MS: u32 = 1;

/// Where the scheduler stands within one pass of the loop.
#[derive(Clone, Copy, Debug, PartialEq, Eq, Structural)]
pub enum Phase {
    /// Between two passes: the next event is `Wake`.
    Idle,
    /// The switch lines are being read.
    AwaitLines,
    /// A report is being submitted.
    AwaitSubmit,
    /// The transport's service is running.
    AwaitService,
    /// The bus is being polled.
    AwaitPoll,
    /// The host's report is being read.
    AwaitHostReport,
    /// The firmware has stopped on a fault.
    Halted(Fault),
}

/// What the loop reports to the scheduler.
#[derive(Clone, Debug, PartialEq, Eq)]
pub enum Event {
    /// A pass of the loop begins.
    Wake,
    /// The reads of the switch lines, lowest line first. Lines after a failed
    /// read need not have been read.
    Lines(Vec<LineRead>),
    /// How the submission of the report ended.
    Submitted(SubmitOutcome),
    /// How the transport's service ended.
    Serviced(ServiceOutcome),
    /// Whether polling the bus found a transfer ready.
    Polled(bool),
    /// How reading the host's report ended.
    HostReport(HostReadOutcome),
}

/// What the loop is to do next.
#[derive(Clone, Debug, PartialEq, Eq)]
pub enum Action {
    /// Read every switch line, lowest first, and report `Lines`.
    ReadLines,
    /// Drive the indicator as given, submit the report, and report
    /// `Submitted`.
    Submit(Scan),
    /// Run the transport's periodic service and report `Serviced`.
    Service,
    /// Poll the bus and report `Polled`.
    Poll,
    /// Read the report sent by the host and report `HostReport`.
    ReadHostReport,
    /// The host sent its LED bits; the pass is over, report `Wake`.
    UpdateLeds(u8),
    /// The pass is over; report `Wake`.
    Repeat,
    /// Stop with a diagnostic. Nothing more is to be done.
    Halt(Fault),
}

/// An action as contracts see it.
pub enum ActionView {
    ReadLines,
    Submit(ScanView),
    Service,
    Poll,
    ReadHostReport,
    UpdateLeds(u8),
    Repeat,
    Halt(Fault),
}

impl View for Action {
    type V = ActionView;

    open spec fn view(&self) -> ActionView {
        match self {
            Action::ReadLines => ActionView::ReadLines,
            Action::Submit(scan) => ActionView::Submit(scan@),
            Action::Service => ActionView::Service,
            Action::Poll => ActionView::Poll,
            Action::ReadHostReport => ActionView::ReadHostReport,
            Action::UpdateLeds(leds) => ActionView::UpdateLeds(*leds),
            Action::Repeat => ActionView::Repeat,
            Action::Halt(fault) => ActionView::Halt(*fault),
        }
    }
}

/// The state of a scheduler.
pub struct SchedulerView {
    /// The keymap of the keyboard.
    pub keymap: Seq<u8>,
    /// The number of slots of a report.
    pub capacity: nat,
    /// The timer that paces the scans.
    pub scan: TimerView,
    /// The timer that paces the transport's service.
    pub service: TimerView,
    /// Where the scheduler stands.
    pub phase: Phase,
}

/// Stopping on `fault`.
pub open spec fn halted(state: SchedulerView, fault: Fault) -> (SchedulerView, ActionView) {
    (SchedulerView { phase: Phase::Halted(fault), ..state }, ActionView::Halt(fault))
}

/// The service check of a pass at `now`: the service timer is polled, and the
/// transport's service runs if it fired; otherwise the pass goes on to poll
/// the bus.
pub open spec fn service_check(state: SchedulerView, now: nat) -> (SchedulerView, ActionView) {
    let service = polled(state.service, now);
    if due(state.service.deadline, now) {
        (SchedulerView { service, phase: Phase::AwaitService, ..state }, ActionView::Service)
    } else {
        (SchedulerView { service, phase: Phase::AwaitPoll, ..state }, ActionView::Poll)
    }
}

/// The scheduler's answer to `event` at time `now`: the state it goes to and
/// the action it asks for.
pub open spec fn transition(state: SchedulerView, now: nat, event: Event) -> (
    SchedulerView,
    ActionView,
) {
    match (state.phase, event) {
        (Phase::Halted(fault), _) => (state, ActionView::Halt(fault)),
        (Phase::Idle, Event::Wake) => {
            if due(state.scan.deadline, now) {
                (
                    SchedulerView {
                        scan: polled(state.scan, now),
                        phase: Phase::AwaitLines,
                        ..state
                    },
                    ActionView::ReadLines,
                )
            } else {
                service_check(state, now)
            }
        },
        (Phase::AwaitLines, Event::Lines(reads)) => {
            match scan_fault(reads@, state.keymap.len()) {
                Some(fault) => halted(state, fault),
                None => (
                    SchedulerView { phase: Phase::AwaitSubmit, ..state },
                    ActionView::Submit(scanned(state.keymap, reads@, state.capacity)),
                ),
            }
        },
        (Phase::AwaitSubmit, Event::Submitted(outcome)) => {
            match submit_fault(outcome) {
                Some(fault) => halted(state, fault),
                None => service_check(state, now),
            }
        },
        (Phase::AwaitService, Event::Serviced(outcome)) => {
            match service_fault(outcome) {
                Some(fault) => halted(state, fault),
                None => (SchedulerView { phase: Phase::AwaitPoll, ..state }, ActionView::Poll),
            }
        },
        (Phase::AwaitPoll, Event::Polled(ready)) => {
            if ready {
                (
                    SchedulerView { phase: Phase::AwaitHostReport, ..state },
                    ActionView::ReadHostReport,
                )
            } else {
                (SchedulerView { phase: Phase::Idle, ..state }, ActionView::Repeat)
            }
        },
        (Phase::AwaitHostReport, Event::HostReport(outcome)) => {
            match outcome {
                HostReadOutcome::Received(leds) => (
                    SchedulerView { phase: Phase::Idle, ..state },
                    ActionView::UpdateLeds(leds),
                ),
                HostReadOutcome::WouldBlock => (
                    SchedulerView { phase: Phase::Idle, ..state },
                    ActionView::Repeat,
                ),
                HostReadOutcome::Failed => halted(state, Fault::HostRead),
            }
        },
        _ => halted(state, Fault::UnexpectedEvent),
    }
}

/// One step of a run: what the loop reported, and when.
pub struct Step {
    pub now: nat,
    pub event: Event,
}

/// The state after the scheduler has taken `steps` in turn.
pub open spec fn run(state: SchedulerView, steps: Seq<Step>) -> SchedulerView
    decreases steps.len(),
{
    if steps.len() == 0 {
        state
    } else {
        transition(run(state, steps.drop_last()), steps.last().now, steps.last().event).0
    }
}

/// Whether the step on `event` at `now` is a service check, that is, polls the
/// service timer: the wake of a pass that does not scan, and the end of the
/// submission in a pass that does.
pub open spec fn checks_service(state: SchedulerView, now: nat, event: Event) -> bool {
    match (state.phase, event) {
        (Phase::Idle, Event::Wake) => !due(state.scan.deadline, now),
        (Phase::AwaitSubmit, Event::Submitted(outcome)) => submit_fault(outcome) is None,
        _ => false,
    }
}

/// The instants of the service checks of a run, in turn.
pub open spec fn service_checks(state: SchedulerView, steps: Seq<Step>) -> Seq<nat>
    decreases steps.len(),
{
    if steps.len() == 0 {
        Seq::empty()
    } else {
        let earlier = service_checks(state, steps.drop_last());
        if checks_service(run(state, steps.drop_last()), steps.last().now, steps.last().event) {
            earlier.push(steps.last().now)
        } else {
            earlier
        }
    }
}

/// How often a run asks for the transport's service.
pub open spec fn services(state: SchedulerView, steps: Seq<Step>) -> nat
    decreases steps.len(),
{
    if steps.len() == 0 {
        0
    } else {
        let asked: nat = if transition(
            run(state, steps.drop_last()),
            steps.last().now,
            steps.last().event,
        ).1 == ActionView::Service {
            1
        } else {
            0
        };
        services(state, steps.drop_last()) + asked
    }
}

/// The transport's service depends on the service timer and on the instants
/// of the service checks, and on nothing else: along any run the service timer
/// is polled at the service checks only, and the service is asked for exactly
/// when it fires there. The scan timer, the keys and the outcomes of
/// submissions decide when the checks happen, not what they find.
pub proof fn lemma_services_follow_service_timer(state: SchedulerView, steps: Seq<Step>)
    ensures
        run(state, steps).service == after_polls(state.service, service_checks(state, steps)),
        services(state, steps) == firings(state.service, service_checks(state, steps)),
    decreases steps.len(),
{
    if steps.len() > 0 {
        let earlier = steps.drop_last();
        let before = run(state, earlier);
        let checks = service_checks(state, earlier);
        lemma_services_follow_service_timer(state, earlier);
        if checks_service(before, steps.last().now, steps.last().event) {
            assert(checks.push(steps.last().now).drop_last() == checks);
        }
    }
}

/// Scanning does not cost the transport its service. Over any run in which
/// the service checks are never further apart than one service period, the
/// service is asked for at least once for every full service period between
/// the first service check and the last, however long the scans in between
/// took and whatever they found.
pub proof fn lemma_service_keeps_rate(state: SchedulerView, steps: Seq<Step>)
    requires
        state.service.period > 0,
        service_checks(state, steps).len() > 0,
        state.service.deadline <= service_checks(state, steps)[0] + state.service.period,
        forall|i: int|
            0 <= i < service_checks(state, steps).len() - 1 ==> service_checks(state, steps)[i]
                <= #[trigger] service_checks(state, steps)[i + 1] <= service_checks(
                state,
                steps,
            )[i] + state.service.period,
        service_checks(state, steps).last() + state.service.period <= clock_end(),
    ensures
        services(state, steps) >= (service_checks(state, steps).last() - service_checks(
            state,
            steps,
        )[0]) / (state.service.period as int),
        services(state, steps) >= (service_checks(state, steps).last() - service_checks(
            state,
            steps,
        )[0]) / (state.service.period as int) - 1,
{
    lemma_services_follow_service_timer(state, steps);
    lemma_polled_timer_keeps_rate(state.service, service_checks(state, steps));
}

/// No step changes the keymap, the capacity of the reports or the period of a
/// timer.
pub proof fn lemma_transition_keeps_configuration(state: SchedulerView, now: nat, event: Event)
    ensures
        transition(state, now, event).0.keymap == state.keymap,
        transition(state, now, event).0.capacity == state.capacity,
        transition(state, now, event).0.scan.period == state.scan.period,
        transition(state, now, event).0.service.period == state.service.period,
{
}

/// A scheduler that has stopped stays stopped: it answers every event with
/// the fault it stopped on and does not change.
pub proof fn lemma_halt_is_final(state: SchedulerView, now: nat, event: Event, fault: Fault)
    requires
        state.phase == Phase::Halted(fault),
    ensures
        transition(state, now, event) == (state, ActionView::Halt(fault)),
{
}

/// Every step either asks for the action that follows from the phase and the
/// event, or stops: an event that the scheduler did not ask for stops it.
pub proof fn lemma_unexpected_event_halts(state: SchedulerView, now: nat, event: Event)
    requires
        !(state.phase is Halted),
        !(state.phase is Idle && event is Wake),
        !(state.phase is AwaitLines && event is Lines),
        !(state.phase is AwaitSubmit && event is Submitted),
        !(state.phase is AwaitService && event is Serviced),
        !(state.phase is AwaitPoll && event is Polled),
        !(state.phase is AwaitHostReport && event is HostReport),
    ensures
        transition(state, now, event) == halted(state, Fault::UnexpectedEvent),
{
}

/// Scanning never keeps the service timer from being polled. In a pass that
/// scans, the steps up to the submission leave the service timer as it was,
/// and once the report is submitted the service timer is polled at that time;
/// in a pass that does not scan it is polled at once. Either way the
/// transport's service runs exactly if the service timer is due, whatever the
/// scan timer, the keys and the report were.
pub proof fn lemma_scan_does_not_block_service(
    state: SchedulerView,
    woken: nat,
    reads: Vec<LineRead>,
    read: nat,
    outcome: SubmitOutcome,
    submitted: nat,
)
    requires
        state.phase == Phase::Idle,
        scan_fault(reads@, state.keymap.len()) is None,
        submit_fault(outcome) is None,
    ensures
        !due(state.scan.deadline, woken) ==> transition(state, woken, Event::Wake)
            == service_check(state, woken),
        due(state.scan.deadline, woken) ==> ({
            let scanning = transition(state, woken, Event::Wake).0;
            let submitting = transition(scanning, read, Event::Lines(reads)).0;
            let checked = transition(submitting, submitted, Event::Submitted(outcome));
            &&& scanning.service == state.service
            &&& submitting.service == state.service
            &&& checked == service_check(submitting, submitted)
            &&& checked.0.service == polled(state.service, submitted)
            &&& checked.1 == if due(state.service.deadline, submitted) {
                ActionView::Service
            } else {
                ActionView::Poll
            }
        }),
{
}

/// With no switch pressed, every scan cycle submits the empty report and
/// drives the indicator off.
pub proof fn lemma_idle_scan_cycle(state: SchedulerView, now: nat, reads: Vec<LineRead>)
    requires
        state.phase == Phase::AwaitLines,
        reads@.len() == state.keymap.len(),
        forall|line: int| 0 <= line < reads@.len() ==> reads@[line] == LineRead::High,
    ensures
        transition(state, now, Event::Lines(reads)) == (
            SchedulerView { phase: Phase::AwaitSubmit, ..state },
            ActionView::Submit(
                ScanView {
                    report: ReportView {
                        slots: Seq::new(state.capacity, |slot: int| NO_EVENT),
                        overflow: false,
                    },
                    indicator: Indicator::Off,
                },
            ),
        ),
{
    lemma_scan_idle(state.keymap, reads@, state.capacity);
    lemma_failed_line(reads@, state.keymap.len() as int);
}

/// A failed read of a switch line stops the firmware with that line, and no
/// report is submitted: not in this step, and not in any later one.
pub proof fn lemma_bus_fault_halts(
    state: SchedulerView,
    now: nat,
    reads: Vec<LineRead>,
    line: int,
    later: nat,
    next: Event,
)
    requires
        state.phase == Phase::AwaitLines,
        0 <= line < reads@.len(),
        line < state.keymap.len(),
        reads@[line] == LineRead::Failed,
        forall|lower: int| 0 <= lower < line ==> reads@[lower] != LineRead::Failed,
    ensures
        transition(state, now, Event::Lines(reads)).1 == ActionView::Halt(
            Fault::Bus { line: line as usize },
        ),
        transition(transition(state, now, Event::Lines(reads)).0, later, next).1
            == ActionView::Halt(Fault::Bus { line: line as usize }),
{
    lemma_failed_line(reads@, state.keymap.len() as int);
    lemma_failed_line_found(reads@, state.keymap.len() as int, line);
}

/// The scheduler of the firmware loop: a keyboard, the capacity of its
/// reports, the two timers, and the place within the current pass.
#[derive(Debug)]
pub struct Scheduler {
    keyboard: Keyboard,
    capacity: usize,
    scan: PeriodicTimer,
    service: PeriodicTimer,
    phase: Phase,
}

impl View for Scheduler {
    type V = SchedulerView;

    closed spec fn view(&self) -> SchedulerView {
        SchedulerView {
            keymap: self.keyboard@,
            capacity: self.capacity as nat,
            scan: self.scan@,
            service: self.service@,
            phase: self.phase,
        }
    }
}

impl Scheduler {
    /// A scheduler for `keyboard` that makes reports of `capacity` slots,
    /// scans every `scan_period_ms` milliseconds and services the transport
    /// every `service_period_ms` milliseconds. Both timers start at `now`,
    /// given in microseconds. The service period may not be longer than the
    /// scan period.
    pub fn new(
        keyboard: Keyboard,
        capacity: usize,
        scan_period_ms: u32,
        service_period_ms: u32,
        now: u64,
    ) -> (made: Result<Scheduler, Fault>)
        ensures
            service_period_ms > scan_period_ms ==> made is Err && made->Err_0
                == Fault::ServicePeriodExceedsScan,
            service_period_ms <= scan_period_ms ==> made is Ok && made->Ok_0@ == (SchedulerView {
                keymap: keyboard@,
                capacity: capacity as nat,
                scan: TimerView {
                    period: (scan_period_ms * 1000) as nat,
                    deadline: rearmed(now as nat, (scan_period_ms * 1000) as nat),
                },
                service: TimerView {
                    period: (service_period_ms * 1000) as nat,
                    deadline: rearmed(now as nat, (service_period_ms * 1000) as nat),
                },
                phase: Phase::Idle,
            }),
    {
        if service_period_ms > scan_period_ms {
            return Err(Fault::ServicePeriodExceedsScan);
        }
        Ok(
            Scheduler {
                keyboard,
                capacity,
                scan: PeriodicTimer::start_millis(now, scan_period_ms),
                service: PeriodicTimer::start_millis(now, service_period_ms),
                phase: Phase::Idle,
            },
        )
    }

    /// Takes what the loop reports at time `now`, in microseconds, and
    /// returns what the loop is to do next.
    ///
    /// Anything other than the event that the last action asked for stops the
    /// firmware, and once stopped the scheduler answers `Halt` to everything.
    pub fn step(&mut self, now: u64, event: Event) -> (action: Action)
        ensures
            final(self)@ == transition(old(self)@, now as nat, event).0,
            action@ == transition(old(self)@, now as nat, event).1,
    {
        match self.phase {
            Phase::Halted(fault) => Action::Halt(fault),
            Phase::Idle => match event {
                Event::Wake => {
                    if self.scan.poll(now) {
                        self.phase = Phase::AwaitLines;
                        Action::ReadLines
                    } else {
                        self.check_service(now)
                    }
                },
                _ => self.halt(Fault::UnexpectedEvent),
            },
            Phase::AwaitLines => match event {
                Event::Lines(reads) => {
                    match scan(&self.keyboard, reads.as_slice(), self.capacity) {
                        Ok(scan) => {
                            self.phase = Phase::AwaitSubmit;
                            Action::Submit(scan)
                        },
                        Err(fault) => self.halt(fault),
                    }
                },
                _ => self.halt(Fault::UnexpectedEvent),
            },
            Phase::AwaitSubmit => match event {
                Event::Submitted(outcome) => {
                    match outcome.fault() {
                        Some(fault) => self.halt(fault),
                        None => self.check_service(now),
                    }
                },
                _ => self.halt(Fault::UnexpectedEvent),
            },
            Phase::AwaitService => match event {
                Event::Serviced(outcome) => {
                    match outcome.fault() {
                        Some(fault) => self.halt(fault),
                        None => {
                            self.phase = Phase::AwaitPoll;
                            Action::Poll
                        },
                    }
                },
                _ => self.halt(Fault::UnexpectedEvent),
            },
            Phase::AwaitPoll => match event {
                Event::Polled(ready) => {
                    if ready {
                        self.phase = Phase::AwaitHostReport;
                        Action::ReadHostReport
                    } else {
                        self.phase = Phase::Idle;
                        Action::Repeat
                    }
                },
                _ => self.halt(Fault::UnexpectedEvent),
            },
            Phase::AwaitHostReport => match event {
                Event::HostReport(outcome) => {
                    match outcome {
                        HostReadOutcome::Received(leds) => {
                            self.phase = Phase::Idle;
                            Action::UpdateLeds(leds)
                        },
                        HostReadOutcome::WouldBlock => {
                            self.phase = Phase::Idle;
                            Action::Repeat
                        },
                        HostReadOutcome::Failed => self.halt(Fault::HostRead),
                    }
                },
                _ => self.halt(Fault::UnexpectedEvent),
            },
        }
    }

    /// Where the scheduler stands.
    pub fn phase(&self) -> (phase: Phase)
        ensures
            phase == self@.phase,
    {
        self.phase
    }

    /// The fault the scheduler has stopped on, if it has stopped.
    pub fn fault(&self) -> (fault: Option<Fault>)
        ensures
            fault == match self@.phase {
                Phase::Halted(fault) => Some(fault),
                _ => None,
            },
    {
        match self.phase {
            Phase::Halted(fault) => Some(fault),
            _ => None,
        }
    }

    /// The keyboard whose lines are scanned.
    pub fn keyboard(&self) -> (keyboard: &Keyboard)
        ensures
            keyboard@ == self@.keymap,
    {
        &self.keyboard
    }

    /// The number of slots of the reports.
    pub fn capacity(&self) -> (capacity: usize)
        ensures
            capacity == self@.capacity,
    {
        self.capacity
    }

    /// The timer that paces the scans.
    pub fn scan_timer(&self) -> (timer: PeriodicTimer)
        ensures
            timer@ == self@.scan,
    {
        self.scan
    }

    /// The timer that paces the transport's service.
    pub fn service_timer(&self) -> (timer: PeriodicTimer)
        ensures
            timer@ == self@.service,
    {
        self.service
    }

    /// Stops on `fault`.
    fn halt(&mut self, fault: Fault) -> (action: Action)
        ensures
            final(self)@ == halted(old(self)@, fault).0,
            action@ == halted(old(self)@, fault).1,
    {
        self.phase = Phase::Halted(fault);
        Action::Halt(fault)
    }

    /// Polls the service timer at `now` and goes on to the transport's
    /// service or to polling the bus.
    fn check_service(&mut self, now: u64) -> (action: Action)
        ensures
            final(self)@ == service_check(old(self)@, now as nat).0,
            action@ == service_check(old(self)@, now as nat).1,
    {
        if self.service.poll(now) {
            self.phase = Phase::AwaitService;
            Action::Service
        } else {
            self.phase = Phase::AwaitPoll;
            Action::Poll
        }
    }
}

} // verus!
