//! One scan cycle: from the reads of the switch lines to a report.

use vstd::prelude::*;

use crate::fault::Fault;
use crate::indicator::{indicator_for, Indicator};
use crate::key_buffer::buffer_keys;
use crate::keycode::NO_EVENT;
use crate::keymap::{
    lemma_resolve_idle,
    lemma_resolve_line_order,
    lemma_resolve_members,
    line_active,
    resolve,
    Keyboard,
};
use crate::report::{
    distinct_keys,
    encode,
    encoded,
    lemma_distinct_members,
    lemma_distinct_prefix,
    lemma_encode_idle,
    lemma_encode_truncates,
    overflows,
    retained_keys,
    Report,
    ReportView,
};

verus! {

/// What reading one switch line over the bus gave.
#[derive(Clone, Copy, Debug, PartialEq, Eq, Structural)]
pub enum LineRead {
    /// The line is at logic low: the switch is pressed.
    Low,
    /// The line is at logic high: the switch is released.
    High,
    /// The bus transfer failed.
    Failed,
}

/// Whether a read shows the switch pressed. The switches pull their line low.
pub open spec fn pressed(read: LineRead) -> bool {
    read is Low
}

impl LineRead {
    /// What the read of switch line `line` says: whether the switch is
    /// pressed, or that the bus failed on that line.
    pub fn pressed_on(self, line: usize) -> (state: Result<bool, Fault>)
        ensures
            self is Failed ==> state is Err && state->Err_0 == (Fault::Bus { line }),
            !(self is Failed) ==> state is Ok && state->Ok_0 == pressed(self),
    {
        match self {
            LineRead::Low => Ok(true),
            LineRead::High => Ok(false),
            LineRead::Failed => Err(Fault::Bus { line }),
        }
    }
}

/// For each read, whether it shows the switch pressed.
pub open spec fn pressed_lines(reads: Seq<LineRead>) -> Seq<bool> {
    Seq::new(reads.len(), |line: int| pressed(reads[line]))
}

/// The lowest of the first `lines` lines whose read failed.
pub open spec fn failed_line(reads: Seq<LineRead>, lines: int) -> Option<int>
    decreases lines,
{
    if lines <= 0 {
        None
    } else {
        match failed_line(reads, lines - 1) {
            Some(line) => Some(line),
            None => if lines - 1 < reads.len() && reads[lines - 1] is Failed {
                Some(lines - 1)
            } else {
                None
            },
        }
    }
}

/// The fault that stops a scan of `lines` switch lines: the lowest line whose
/// read failed, or else a number of reads that is not the number of lines.
pub open spec fn scan_fault(reads: Seq<LineRead>, lines: nat) -> Option<Fault> {
    match failed_line(reads, lines as int) {
        Some(line) => Some(Fault::Bus { line: line as usize }),
        None => if reads.len() != lines {
            Some(Fault::LineCountMismatch)
        } else {
            None
        },
    }
}

/// What a scan cycle produces.
pub struct ScanView {
    pub report: ReportView,
    pub indicator: Indicator,
}

/// The result of a scan cycle that met no fault: the report for the keys of
/// the pressed lines, and the indicator state that goes with them.
pub open spec fn scanned(keymap: Seq<u8>, reads: Seq<LineRead>, capacity: nat) -> ScanView {
    let keys = resolve(keymap, pressed_lines(reads));
    ScanView { report: encoded(keys, capacity), indicator: indicator_for(keys) }
}

/// A failed line, once found, stays the answer when more lines are looked at;
/// it is a line whose read failed, and no lower line failed.
pub proof fn lemma_failed_line(reads: Seq<LineRead>, lines: int)
    ensures
        failed_line(reads, lines) matches Some(line) ==> 0 <= line < lines && line < reads.len()
            && reads[line] is Failed && forall|lower: int|
            0 <= lower < line ==> !(#[trigger] reads[lower] is Failed),
        failed_line(reads, lines) is None ==> forall|line: int|
            0 <= line < lines && line < reads.len() ==> !(#[trigger] reads[line] is Failed),
    decreases lines,
{
    if lines > 0 {
        lemma_failed_line(reads, lines - 1);
    }
}

/// The lowest line whose read failed is the failed line.
pub proof fn lemma_failed_line_found(reads: Seq<LineRead>, lines: int, line: int)
    requires
        0 <= line < lines,
        line < reads.len(),
        reads[line] is Failed,
        forall|lower: int| 0 <= lower < line ==> !(#[trigger] reads[lower] is Failed),
    ensures
        failed_line(reads, lines) == Some(line),
{
    lemma_failed_line(reads, lines);
}

/// Lines without a read cannot have failed.
proof fn lemma_failed_line_beyond_reads(reads: Seq<LineRead>, lines: int)
    requires
        lines >= reads.len(),
    ensures
        failed_line(reads, lines) == failed_line(reads, reads.len() as int),
    decreases lines,
{
    if lines > reads.len() {
        lemma_failed_line_beyond_reads(reads, lines - 1);
    }
}

/// Once a line has failed, looking at more lines finds the same one.
proof fn lemma_failed_line_stays(reads: Seq<LineRead>, found: int, lines: int)
    requires
        found <= lines,
        failed_line(reads, found) is Some,
    ensures
        failed_line(reads, lines) == failed_line(reads, found),
    decreases lines,
{
    if lines > found {
        lemma_failed_line_stays(reads, found, lines - 1);
    }
}

/// With no switch pressed a scan cycle gives the empty report and leaves the
/// indicator off, every time.
pub proof fn lemma_scan_idle(keymap: Seq<u8>, reads: Seq<LineRead>, capacity: nat)
    requires
        forall|line: int| 0 <= line < reads.len() ==> !pressed(#[trigger] reads[line]),
    ensures
        scanned(keymap, reads, capacity) == (ScanView {
            report: ReportView {
                slots: Seq::new(capacity, |slot: int| NO_EVENT),
                overflow: false,
            },
            indicator: Indicator::Off,
        }),
{
    lemma_resolve_idle(keymap, pressed_lines(reads));
    lemma_encode_idle(capacity);
}

/// The lowest count of lines, up to `upto`, whose keys fill a report of
/// `capacity` slots exactly.
proof fn lemma_filling_lines(
    keymap: Seq<u8>,
    active: Seq<bool>,
    capacity: nat,
    upto: int,
) -> (lines: int)
    requires
        0 <= upto <= keymap.len(),
        distinct_keys(resolve(keymap.take(upto), active)).len() >= capacity,
    ensures
        0 <= lines <= upto,
        distinct_keys(resolve(keymap.take(lines), active)).len() == capacity,
    decreases upto,
{
    if distinct_keys(resolve(keymap.take(upto), active)).len() == capacity {
        upto
    } else {
        assert(upto > 0) by {
            if upto == 0 {
                assert(keymap.take(0).len() == 0);
            }
        }
        let lower = resolve(keymap.take(upto - 1), active);
        assert(keymap.take(upto).drop_last() == keymap.take(upto - 1));
        if resolve(keymap.take(upto), active) != lower {
            assert(resolve(keymap.take(upto), active).drop_last() == lower);
        }
        lemma_filling_lines(keymap, active, capacity, upto - 1)
    }
}

/// Where more keys are held than fit, the lowest switch lines win: there is a
/// count of lines such that the report holds exactly the keys of the pressed
/// lines below it, and no key that only higher lines produce. Returns that
/// count.
pub proof fn lemma_lowest_lines_win(
    keymap: Seq<u8>,
    active: Seq<bool>,
    capacity: nat,
) -> (lines: int)
    requires
        overflows(resolve(keymap, active), capacity),
    ensures
        0 <= lines <= keymap.len(),
        retained_keys(resolve(keymap, active), capacity) == distinct_keys(
            resolve(keymap.take(lines), active),
        ),
        forall|key: u8|
            #![trigger encoded(resolve(keymap, active), capacity).slots.contains(key)]
            encoded(resolve(keymap, active), capacity).slots.contains(key) <==> key != NO_EVENT
                && exists|line: int|
                0 <= line < lines && line_active(active, line) && #[trigger] keymap[line] == key,
{
    let keys = resolve(keymap, active);
    assert(keymap.take(keymap.len() as int) == keymap);
    let lines = lemma_filling_lines(keymap, active, capacity, keymap.len() as int);
    let lower_keys = resolve(keymap.take(lines), active);
    lemma_resolve_line_order(keymap, active, lines);
    assert(lower_keys == keys.take(lower_keys.len() as int));
    lemma_distinct_prefix(keys, lower_keys.len() as int);
    assert(distinct_keys(lower_keys) == distinct_keys(keys).take(capacity as int));
    lemma_encode_truncates(keys, capacity);
    assert forall|key: u8|
        #![trigger encoded(keys, capacity).slots.contains(key)]
        encoded(keys, capacity).slots.contains(key) <==> key != NO_EVENT && exists|line: int|
            0 <= line < lines && line_active(active, line) && #[trigger] keymap[line] == key by {
        lemma_distinct_members(lower_keys, key);
        lemma_resolve_members(keymap.take(lines), active, key);
        if exists|line: int|
            0 <= line < lines && line_active(active, line) && #[trigger] keymap[line] == key {
            let line = choose|line: int|
                0 <= line < lines && line_active(active, line) && #[trigger] keymap[line] == key;
            assert(keymap.take(lines)[line] == key);
        }
        if exists|line: int|
            0 <= line < keymap.take(lines).len() && line_active(active, line)
                && #[trigger] keymap.take(lines)[line] == key {
            let line = choose|line: int|
                0 <= line < keymap.take(lines).len() && line_active(active, line)
                    && #[trigger] keymap.take(lines)[line] == key;
            assert(keymap[line] == key);
        }
    }
    lines
}

/// The report and the indicator state of one scan cycle.
#[derive(Clone, Debug, PartialEq, Eq)]
pub struct Scan {
    pub report: Report,
    pub indicator: Indicator,
}

impl View for Scan {
    type V = ScanView;

    open spec fn view(&self) -> ScanView {
        ScanView { report: self.report@, indicator: self.indicator }
    }
}

/// Runs one scan cycle on the reads of the switch lines, lowest line first.
///
/// A failed read stops the cycle with the lowest failed line, and so does a
/// number of reads other than the number of lines; no report is made then.
/// Otherwise the keys of the pressed lines are encoded into a report of
/// `capacity` slots, and the indicator is on exactly if a key is held.
pub fn scan(keyboard: &Keyboard, reads: &[LineRead], capacity: usize) -> (outcome: Result<
    Scan,
    Fault,
>)
    ensures
        scan_fault(reads@, keyboard@.len()) matches Some(fault) ==> outcome is Err
            && outcome->Err_0 == fault,
        scan_fault(reads@, keyboard@.len()) is None ==> outcome is Ok && outcome->Ok_0@
            == scanned(keyboard@, reads@, capacity as nat),
{
    let lines = keyboard.lines();
    let mut active: Vec<bool> = Vec::new();
    let mut line: usize = 0;
    while line < reads.len() && line < lines
        invariant
            line <= reads@.len(),
            line <= lines,
            lines == keyboard@.len(),
            failed_line(reads@, line as int) is None,
            active@.len() == line,
            forall|seen: int| 0 <= seen < line ==> active@[seen] == pressed(reads@[seen]),
        decreases reads@.len() - line,
    {
        match reads[line].pressed_on(line) {
            Ok(pressed) => {
                active.push(pressed);
            },
            Err(fault) => {
                proof {
                    lemma_failed_line_stays(reads@, line + 1, lines as int);
                }
                return Err(fault);
            },
        }
        line += 1;
    }
    proof {
        if lines > reads@.len() {
            lemma_failed_line_beyond_reads(reads@, lines as int);
        }
    }
    if reads.len() != lines {
        return Err(Fault::LineCountMismatch);
    }
    let keys = keyboard.pressed_keys(active.as_slice());
    let held = buffer_keys(&keys);
    proof {
        assert(active@ == pressed_lines(reads@));
    }
    let report = encode(held, capacity);
    let indicator = Indicator::for_keys(held);
    Ok(Scan { report, indicator })
}

} // verus!
