//! Classification of event logs into a table of candidate factories, and the
//! threshold filter over that table.

use vstd::prelude::*;

use crate::factory::{factory_from_topic, factory_of_topic, same_bytes, DiscoverableFactory, FactoryRecord};

verus! {

/// A log entry as the node returns it.
#[derive(Clone, Debug)]
pub struct LogEntry {
    pub address: [u8; 20],
    pub topics: Vec<[u8; 32]>,
    pub block_number: Option<u64>,
}

/// Why a discovery stopped without a result.
#[derive(Clone, Copy, Debug, PartialEq, Eq, Structural)]
pub enum DiscoveryError {
    /// The node failed to answer a height or log query.
    ProviderError,
    /// A log that would establish a new factory carries no block height.
    MissingBlockNumber,
    /// A log from an unknown address has no topic 0 of a known template.
    UnknownEventSignature,
}

/// One row of the table: a factory and the number of matching logs seen from
/// it after the one that established it.
#[derive(Clone, Copy, Debug, PartialEq, Eq)]
pub struct AggregationEntry {
    pub record: FactoryRecord,
    pub event_count: u64,
}

/// The template named by a log's topic 0; `None` for a log without topics.
pub open spec fn factory_of_log(log: LogEntry) -> Option<DiscoverableFactory> {
    if log.topics@.len() > 0 {
        factory_of_topic(log.topics@[0]@)
    } else {
        None
    }
}

/// Whether some row of `table` belongs to `address`.
pub open spec fn tracks(table: Seq<AggregationEntry>, address: Seq<u8>) -> bool {
    exists|i: int| 0 <= i < table.len() && (#[trigger] table[i]).record.address@ == address
}

/// The row of `table` that belongs to `address`.
pub open spec fn row_of(table: Seq<AggregationEntry>, address: Seq<u8>) -> int {
    choose|i: int| 0 <= i < table.len() && (#[trigger] table[i]).record.address@ == address
}

/// No two rows belong to one address.
pub open spec fn unique_addresses(table: Seq<AggregationEntry>) -> bool {
    forall|i: int, j: int|
        0 <= i < table.len() && 0 <= j < table.len() && i != j
            ==> (#[trigger] table[i]).record.address@ != (#[trigger] table[j]).record.address@
}

/// One more, held at the largest `u64`.
pub open spec fn bumped(count: u64) -> u64 {
    if count == u64::MAX {
        count
    } else {
        (count + 1) as u64
    }
}

/// The table after one log: a known address has its count raised; an unknown
/// one gets a new row with count 0, made from the log's template and height.
pub open spec fn classify(table: Seq<AggregationEntry>, log: LogEntry) -> Result<
    Seq<AggregationEntry>,
    DiscoveryError,
> {
    if tracks(table, log.address@) {
        let i = row_of(table, log.address@);
        Ok(table.update(i, AggregationEntry { event_count: bumped(table[i].event_count), ..table[i] }))
    } else {
        match factory_of_log(log) {
            None => Err(DiscoveryError::UnknownEventSignature),
            Some(variant) => match log.block_number {
                None => Err(DiscoveryError::MissingBlockNumber),
                Some(height) => Ok(
                    table.push(
                        AggregationEntry {
                            record: FactoryRecord {
                                variant,
                                address: log.address,
                                creation_block: height,
                            },
                            event_count: 0,
                        },
                    ),
                ),
            },
        }
    }
}

/// The table after the logs, in order; the first failing log's error if any.
pub open spec fn classify_all(table: Seq<AggregationEntry>, logs: Seq<LogEntry>) -> Result<
    Seq<AggregationEntry>,
    DiscoveryError,
>
    decreases logs.len(),
{
    if logs.len() == 0 {
        Ok(table)
    } else {
        match classify_all(table, logs.drop_last()) {
            Ok(t) => classify(t, logs.last()),
            Err(e) => Err(e),
        }
    }
}

/// The records of the rows whose count reaches `threshold`, in row order.
pub open spec fn selected(table: Seq<AggregationEntry>, threshold: u64) -> Seq<FactoryRecord>
    decreases table.len(),
{
    if table.len() == 0 {
        Seq::empty()
    } else {
        let rest = selected(table.drop_last(), threshold);
        if table.last().event_count >= threshold {
            rest.push(table.last().record)
        } else {
            rest
        }
    }
}

/// A classification preserves the uniqueness of addresses.
pub proof fn lemma_classify_unique(table: Seq<AggregationEntry>, log: LogEntry)
    requires
        unique_addresses(table),
    ensures
        classify(table, log) matches Ok(t) ==> unique_addresses(t),
{
    if tracks(table, log.address@) {
        let i = row_of(table, log.address@);
        let t = table.update(i, AggregationEntry { event_count: bumped(table[i].event_count), ..table[i] });
        assert forall|a: int, b: int|
            0 <= a < t.len() && 0 <= b < t.len() && a != b implies
                (#[trigger] t[a]).record.address@ != (#[trigger] t[b]).record.address@ by {
            assert(t[a].record == table[a].record);
            assert(t[b].record == table[b].record);
        }
    }
}

/// The candidate factories seen so far, one row per address, in the order
/// they were first seen.
pub struct AggregationTable {
    entries: Vec<AggregationEntry>,
}

impl View for AggregationTable {
    type V = Seq<AggregationEntry>;

    closed spec fn view(&self) -> Seq<AggregationEntry> {
        self.entries@
    }
}

impl AggregationTable {
    /// Well formed: at most one row per address.
    pub open spec fn wf(&self) -> bool {
        unique_addresses(self@)
    }

    /// An empty table.
    pub fn new() -> (r: Self)
        ensures
            r.wf(),
            r@ == Seq::<AggregationEntry>::empty(),
    {
        AggregationTable { entries: Vec::new() }
    }

    /// The rows, in the order their factories were first seen.
    pub fn entries(&self) -> (r: &Vec<AggregationEntry>)
        ensures
            r@ == self@,
    {
        &self.entries
    }

    /// The row that belongs to `address`, if any.
    pub fn position(&self, address: &[u8; 20]) -> (r: Option<usize>)
        requires
            self.wf(),
        ensures
            r matches Some(i) ==> tracks(self@, address@) && i == row_of(self@, address@),
            r is None ==> !tracks(self@, address@),
    {
        let mut i: usize = 0;
        while i < self.entries.len()
            invariant
                i <= self.entries@.len(),
                self.wf(),
                forall|k: int| 0 <= k < i ==> (#[trigger] self.entries@[k]).record.address@ != address@,
            decreases self.entries@.len() - i,
        {
            if same_bytes(&self.entries[i].record.address, address) {
                proof {
                    let j = row_of(self@, address@);
                    assert(self@[i as int].record.address@ == address@);
                    assert(tracks(self@, address@));
                    assert(self@[j].record.address@ == address@);
                    if j != i as int {
                        assert(self@[i as int].record.address@ != self@[j].record.address@);
                    }
                }
                return Some(i);
            }
            i = i + 1;
        }
        None
    }

    /// Classifies one log into the table.
    pub fn classify_log(&mut self, log: &LogEntry) -> (r: Result<(), DiscoveryError>)
        requires
            old(self).wf(),
        ensures
            final(self).wf(),
            match classify(old(self)@, *log) {
                Ok(t) => r is Ok && final(self)@ == t,
                Err(e) => r == Err::<(), DiscoveryError>(e) && final(self)@ == old(self)@,
            },
    {
        proof {
            lemma_classify_unique(self@, *log);
        }
        match self.position(&log.address) {
            Some(i) => {
                let mut entry = self.entries[i];
                if entry.event_count < u64::MAX {
                    entry.event_count = entry.event_count + 1;
                }
                self.entries.set(i, entry);
                Ok(())
            },
            None => {
                let variant = if log.topics.len() > 0 {
                    factory_from_topic(&log.topics[0])
                } else {
                    None
                };
                match variant {
                    None => Err(DiscoveryError::UnknownEventSignature),
                    Some(variant) => match log.block_number {
                        None => Err(DiscoveryError::MissingBlockNumber),
                        Some(height) => {
                            let record = FactoryRecord {
                                variant,
                                address: log.address,
                                creation_block: height,
                            };
                            self.entries.push(AggregationEntry { record, event_count: 0 });
                            Ok(())
                        },
                    },
                }
            },
        }
    }

    /// Classifies the logs into the table, in order, stopping at the first
    /// failure.
    pub fn classify_batch(&mut self, logs: &Vec<LogEntry>) -> (r: Result<(), DiscoveryError>)
        requires
            old(self).wf(),
        ensures
            final(self).wf(),
            match classify_all(old(self)@, logs@) {
                Ok(t) => r is Ok && final(self)@ == t,
                Err(e) => r == Err::<(), DiscoveryError>(e),
            },
    {
        let ghost start = self@;
        let mut i: usize = 0;
        while i < logs.len()
            invariant
                i <= logs@.len(),
                self.wf(),
                start == old(self)@,
                classify_all(start, logs@.take(i as int)) == Ok::<Seq<AggregationEntry>, DiscoveryError>(self@),
            decreases logs@.len() - i,
        {
            assert(logs@.take(i + 1).drop_last() =~= logs@.take(i as int));
            assert(logs@.take(i + 1).last() == logs@[i as int]);
            let ghost before = self@;
            let res = self.classify_log(&logs[i]);
            if res.is_err() {
                proof {
                    let p = logs@.take(i as int + 1);
                    assert(classify_all(start, p) == classify(before, logs@[i as int]));
                    lemma_classify_all_stays_failed(start, logs@, i as int + 1);
                }
                return res;
            }
            i = i + 1;
        }
        assert(logs@.take(i as int) =~= logs@);
        Ok(())
    }

    /// The records of the rows whose count reaches `threshold`.
    pub fn select(&self, threshold: u64) -> (r: Vec<FactoryRecord>)
        ensures
            r@ == selected(self@, threshold),
    {
        let mut r: Vec<FactoryRecord> = Vec::new();
        let mut i: usize = 0;
        while i < self.entries.len()
            invariant
                i <= self.entries@.len(),
                r@ == selected(self@.take(i as int), threshold),
            decreases self.entries@.len() - i,
        {
            assert(self@.take(i + 1).drop_last() =~= self@.take(i as int));
            if self.entries[i].event_count >= threshold {
                r.push(self.entries[i].record);
            }
            i = i + 1;
        }
        assert(self@.take(i as int) =~= self@);
        r
    }
}

/// Once a prefix of the logs fails, the whole sequence fails the same way.
pub proof fn lemma_classify_all_stays_failed(table: Seq<AggregationEntry>, logs: Seq<LogEntry>, n: int)
    requires
        0 <= n <= logs.len(),
        classify_all(table, logs.take(n)) is Err,
    ensures
        classify_all(table, logs) == classify_all(table, logs.take(n)),
    decreases logs.len() - n,
{
    if n < logs.len() {
        assert(logs.take(n + 1).drop_last() =~= logs.take(n));
        lemma_classify_all_stays_failed(table, logs, n + 1);
    } else {
        assert(logs.take(n) =~= logs);
    }
}

} // verus!
