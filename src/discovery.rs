//! A discovery as a machine that is told what the node answered and says
//! what to ask it next.

use vstd::prelude::*;

use crate::factory::FactoryRecord;
use crate::scanner::BlockRangeScanner;
use crate::table::{selected, AggregationEntry, AggregationTable, DiscoveryError, LogEntry};

verus! {

/// What the node answered.
pub enum ScanEvent {
    /// The height of the chain head.
    HeadHeight(u64),
    /// The logs of the window last asked for, in the order returned.
    Logs(Vec<LogEntry>),
    /// The height or log query failed.
    ProviderFailed,
}

/// What to do next.
#[derive(Debug)]
pub enum ScanAction {
    /// Query the matching logs of the inclusive block range `[from, to]`.
    FetchLogs(u64, u64),
    /// The discovery is complete: the factories that met the threshold.
    Finished(Vec<FactoryRecord>),
    /// The discovery stopped; nothing of it is kept.
    Failed(DiscoveryError),
}

/// What the machine waits for.
#[derive(Clone, Copy, Debug, PartialEq, Eq, Structural)]
pub enum ScanPhase {
    AwaitingHead,
    AwaitingLogs,
    Over,
}

/// Whether `event` is an answer to what a machine in `phase` asked.
pub open spec fn accepts_event(phase: ScanPhase, event: ScanEvent) -> bool {
    match event {
        ScanEvent::HeadHeight(_) => phase == ScanPhase::AwaitingHead,
        ScanEvent::Logs(_) => phase == ScanPhase::AwaitingLogs,
        ScanEvent::ProviderFailed => phase != ScanPhase::Over,
    }
}

/// One discovery: a threshold, a window width, the windows left to query and
/// the table of the logs classified so far.
pub struct FactoryDiscovery {
    threshold: u64,
    step: u64,
    phase: ScanPhase,
    scanner: BlockRangeScanner,
    table: AggregationTable,
}

impl FactoryDiscovery {
    /// Well formed: a positive window width, and a table with one row per
    /// address.
    pub closed spec fn wf(&self) -> bool {
        &&& self.step > 0
        &&& self.scanner.wf()
        &&& self.table.wf()
    }

    /// The least count a factory needs to be kept.
    pub closed spec fn threshold_spec(&self) -> u64 {
        self.threshold
    }

    /// The window width.
    pub closed spec fn step_spec(&self) -> u64 {
        self.step
    }

    /// What the machine waits for.
    pub closed spec fn phase_spec(&self) -> ScanPhase {
        self.phase
    }

    /// The windows not asked for yet.
    pub closed spec fn windows(&self) -> Seq<(int, int)> {
        self.scanner.remaining()
    }

    /// The table of the logs classified so far.
    pub closed spec fn table(&self) -> Seq<AggregationEntry> {
        self.table@
    }

    /// Whether `r` and `next` are what follows once `table` holds every log
    /// seen and `windows` remain: the next window is asked for, or the
    /// selected factories are handed out.
    pub open spec fn proceeds(
        r: ScanAction,
        next: FactoryDiscovery,
        windows: Seq<(int, int)>,
        table: Seq<AggregationEntry>,
        threshold: u64,
    ) -> bool {
        &&& next.table() == table
        &&& if windows.len() > 0 {
            &&& r matches ScanAction::FetchLogs(from, to)
            &&& (from as int, to as int) == windows[0]
            &&& next.phase_spec() == ScanPhase::AwaitingLogs
            &&& next.windows() == windows.drop_first()
        } else {
            &&& r matches ScanAction::Finished(found)
            &&& found@ == selected(table, threshold)
            &&& next.phase_spec() == ScanPhase::Over
        }
    }

    /// A discovery that keeps the factories with at least `threshold` logs
    /// after their first, scanning in windows of `step` blocks. It first
    /// waits for the head height.
    pub fn new(threshold: u64, step: u64) -> (r: Self)
        requires
            step > 0,
        ensures
            r.wf(),
            r.threshold_spec() == threshold,
            r.step_spec() == step,
            r.phase_spec() == ScanPhase::AwaitingHead,
            r.table() == Seq::<AggregationEntry>::empty(),
    {
        FactoryDiscovery {
            threshold,
            step,
            phase: ScanPhase::AwaitingHead,
            scanner: BlockRangeScanner::exhausted(),
            table: AggregationTable::new(),
        }
    }

    /// What the machine waits for.
    pub fn phase(&self) -> (r: ScanPhase)
        ensures
            r == self.phase_spec(),
    {
        self.phase
    }

    /// Whether `event` answers what the machine asked.
    pub fn accepts(&self, event: &ScanEvent) -> (r: bool)
        ensures
            r == accepts_event(self.phase_spec(), *event),
    {
        match event {
            ScanEvent::HeadHeight(_) => self.phase == ScanPhase::AwaitingHead,
            ScanEvent::Logs(_) => self.phase == ScanPhase::AwaitingLogs,
            ScanEvent::ProviderFailed => self.phase != ScanPhase::Over,
        }
    }

    /// Asks for the next window, or hands out the result.
    fn proceed(&mut self) -> (r: ScanAction)
        requires
            old(self).wf(),
        ensures
            final(self).wf(),
            final(self).threshold_spec() == old(self).threshold_spec(),
            final(self).step_spec() == old(self).step_spec(),
            Self::proceeds(
                r,
                *final(self),
                old(self).windows(),
                old(self).table(),
                old(self).threshold_spec(),
            ),
    {
        match self.scanner.next_window() {
            Some((from, to)) => {
                self.phase = ScanPhase::AwaitingLogs;
                ScanAction::FetchLogs(from, to)
            },
            None => {
                self.phase = ScanPhase::Over;
                ScanAction::Finished(self.table.select(self.threshold))
            },
        }
    }

    /// Stops the discovery and drops what it gathered.
    fn abort(&mut self, error: DiscoveryError) -> (r: ScanAction)
        requires
            old(self).wf(),
        ensures
            final(self).wf(),
            final(self).threshold_spec() == old(self).threshold_spec(),
            final(self).step_spec() == old(self).step_spec(),
            r == ScanAction::Failed(error),
            final(self).phase_spec() == ScanPhase::Over,
            final(self).windows() == Seq::<(int, int)>::empty(),
            final(self).table() == Seq::<AggregationEntry>::empty(),
    {
        self.phase = ScanPhase::Over;
        self.scanner = BlockRangeScanner::exhausted();
        self.table = AggregationTable::new();
        ScanAction::Failed(error)
    }

    /// Takes the node's answer and says what to do next.
    ///
    /// The head height fixes the windows `[0, step - 1]`, `[step, 2 step - 1]`,
    /// ... up to the head; each window's logs are classified into the table;
    /// once no window is left, the factories whose count reaches the
    /// threshold are the result. A failed query or a log that cannot be
    /// classified ends the discovery with that error.
    pub fn handle(&mut self, event: ScanEvent) -> (r: ScanAction)
        requires
            old(self).wf(),
            accepts_event(old(self).phase_spec(), event),
        ensures
            final(self).wf(),
            final(self).threshold_spec() == old(self).threshold_spec(),
            final(self).step_spec() == old(self).step_spec(),
            match event {
                ScanEvent::HeadHeight(head) => Self::proceeds(
                    r,
                    *final(self),
                    crate::scanner::windows_from(0, old(self).step_spec() as int, head as int),
                    old(self).table(),
                    old(self).threshold_spec(),
                ),
                ScanEvent::Logs(logs) => match crate::table::classify_all(old(self).table(), logs@) {
                    Ok(t) => Self::proceeds(
                        r,
                        *final(self),
                        old(self).windows(),
                        t,
                        old(self).threshold_spec(),
                    ),
                    Err(e) => r == ScanAction::Failed(e) && final(self).phase_spec()
                        == ScanPhase::Over && final(self).table() == Seq::<
                        AggregationEntry,
                    >::empty(),
                },
                ScanEvent::ProviderFailed => r == ScanAction::Failed(DiscoveryError::ProviderError)
                    && final(self).phase_spec() == ScanPhase::Over && final(self).table() == Seq::<
                    AggregationEntry,
                >::empty(),
            },
    {
        match event {
            ScanEvent::HeadHeight(head) => {
                self.scanner = BlockRangeScanner::new(head, self.step);
                self.proceed()
            },
            ScanEvent::Logs(logs) => {
                match self.table.classify_batch(&logs) {
                    Ok(()) => self.proceed(),
                    Err(e) => self.abort(e),
                }
            },
            ScanEvent::ProviderFailed => self.abort(DiscoveryError::ProviderError),
        }
    }
}

} // verus!
