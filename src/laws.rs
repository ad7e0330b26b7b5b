//! What holds of every discovery: counts, thresholds, and why the window
//! width and a second scan change nothing.

use vstd::prelude::*;

use crate::factory::FactoryRecord;
use crate::scanner::windows_from;
use crate::table::{
    bumped, classify, classify_all, lemma_classify_unique, row_of, selected, tracks,
    unique_addresses, AggregationEntry, DiscoveryError, LogEntry,
};

verus! {

/// How many of `logs` come from `address`.
pub open spec fn occurrences(logs: Seq<LogEntry>, address: Seq<u8>) -> nat
    decreases logs.len(),
{
    if logs.len() == 0 {
        0
    } else {
        occurrences(logs.drop_last(), address) + if logs.last().address@ == address {
            1nat
        } else {
            0nat
        }
    }
}

/// `n - 1`, held at the largest `u64`.
pub open spec fn saturated_pred(n: nat) -> u64 {
    if n - 1 <= u64::MAX {
        (n - 1) as u64
    } else {
        u64::MAX
    }
}

/// In a table with unique addresses, the row of an address is the one that
/// holds it.
proof fn lemma_row_of_unique(table: Seq<AggregationEntry>, address: Seq<u8>, i: int)
    requires
        unique_addresses(table),
        0 <= i < table.len(),
        table[i].record.address@ == address,
    ensures
        tracks(table, address),
        row_of(table, address) == i,
{
    assert(tracks(table, address));
    let j = row_of(table, address);
    if j != i {
        assert(table[i].record.address@ != table[j].record.address@);
    }
}

/// What a table made from nothing holds of one address.
proof fn lemma_counts(logs: Seq<LogEntry>, address: Seq<u8>)
    requires
        classify_all(Seq::empty(), logs) is Ok,
    ensures
        ({
            let t = classify_all(Seq::empty(), logs)->Ok_0;
            &&& unique_addresses(t)
            &&& occurrences(logs, address) == 0 ==> !tracks(t, address)
            &&& occurrences(logs, address) >= 1 ==> tracks(t, address) && t[row_of(
                t,
                address,
            )].event_count == saturated_pred(occurrences(logs, address))
        }),
    decreases logs.len(),
{
    if logs.len() > 0 {
        let p = logs.drop_last();
        let log = logs.last();
        let a = log.address@;
        assert(classify_all(Seq::empty(), p) is Ok);
        let tp = classify_all(Seq::empty(), p)->Ok_0;
        lemma_counts(p, address);
        lemma_counts(p, a);
        lemma_classify_unique(tp, log);
        let t = classify_all(Seq::empty(), logs)->Ok_0;
        assert(t == classify(tp, log)->Ok_0);
        if tracks(tp, a) {
            let i = row_of(tp, a);
            assert(t[i].record == tp[i].record);
            lemma_row_of_unique(t, a, i);
            if address != a {
                if tracks(tp, address) {
                    let j = row_of(tp, address);
                    assert(t[j] == tp[j]);
                    lemma_row_of_unique(t, address, j);
                } else {
                    if tracks(t, address) {
                        let k = row_of(t, address);
                        assert(tp[k].record == t[k].record);
                    }
                }
            }
        } else {
            let n = tp.len() as int;
            assert(t[n].record.address@ == a);
            lemma_row_of_unique(t, a, n);
            if address != a {
                if tracks(tp, address) {
                    let j = row_of(tp, address);
                    assert(t[j] == tp[j]);
                    lemma_row_of_unique(t, address, j);
                } else {
                    if tracks(t, address) {
                        let k = row_of(t, address);
                        assert(k != n);
                        assert(tp[k] == t[k]);
                    }
                }
            }
        }
    }
}

/// An address seen in `n >= 1` matching logs ends with a row whose count is
/// `n - 1`: the log that establishes a factory is not counted. An address
/// seen in none has no row.
pub proof fn lemma_count_is_logs_after_first(logs: Seq<LogEntry>, address: Seq<u8>)
    requires
        classify_all(Seq::empty(), logs) is Ok,
        occurrences(logs, address) <= u64::MAX + 1,
    ensures
        ({
            let t = classify_all(Seq::empty(), logs)->Ok_0;
            &&& occurrences(logs, address) == 0 ==> !tracks(t, address)
            &&& occurrences(logs, address) >= 1 ==> tracks(t, address) && t[row_of(
                t,
                address,
            )].event_count == occurrences(logs, address) - 1
        }),
{
    lemma_counts(logs, address);
}

/// A record is selected exactly when some row with a count at or above the
/// threshold holds it.
pub proof fn lemma_selected_members(table: Seq<AggregationEntry>, threshold: u64, r: FactoryRecord)
    ensures
        selected(table, threshold).contains(r) <==> exists|i: int|
            0 <= i < table.len() && (#[trigger] table[i]).event_count >= threshold && table[i].record
                == r,
    decreases table.len(),
{
    if table.len() > 0 {
        let p = table.drop_last();
        let rest = selected(p, threshold);
        let s = selected(table, threshold);
        let n = table.len() - 1;
        lemma_selected_members(p, threshold, r);
        if s.contains(r) {
            let k = choose|k: int| 0 <= k < s.len() && s[k] == r;
            if k < rest.len() {
                assert(rest[k] == s[k]);
                assert(rest.contains(r));
                let i = choose|i: int|
                    0 <= i < p.len() && (#[trigger] p[i]).event_count >= threshold && p[i].record
                        == r;
                assert(table[i] == p[i]);
            } else {
                assert(table[n].event_count >= threshold && table[n].record == r);
            }
        }
        if exists|i: int|
            0 <= i < table.len() && (#[trigger] table[i]).event_count >= threshold
                && table[i].record == r {
            let i = choose|i: int|
                0 <= i < table.len() && (#[trigger] table[i]).event_count >= threshold
                    && table[i].record == r;
            if i < p.len() {
                assert(p[i] == table[i]);
                assert(rest.contains(r));
                let k = choose|k: int| 0 <= k < rest.len() && rest[k] == r;
                assert(s[k] == rest[k]);
            } else {
                assert(s[rest.len() as int] == r);
            }
        }
    }
}

/// With threshold 0, every address that produced a matching log has its
/// record in the result.
pub proof fn lemma_threshold_zero_keeps_all(logs: Seq<LogEntry>, address: Seq<u8>)
    requires
        classify_all(Seq::empty(), logs) is Ok,
        occurrences(logs, address) >= 1,
    ensures
        exists|k: int|
            0 <= k < selected(classify_all(Seq::empty(), logs)->Ok_0, 0).len() && (#[trigger] selected(
                classify_all(Seq::empty(), logs)->Ok_0,
                0,
            )[k]).address@ == address,
{
    lemma_counts(logs, address);
    let t = classify_all(Seq::empty(), logs)->Ok_0;
    let i = row_of(t, address);
    lemma_selected_members(t, 0, t[i].record);
    let s = selected(t, 0);
    assert(s.contains(t[i].record));
    let k = choose|k: int| 0 <= k < s.len() && s[k] == t[i].record;
    assert(s[k].address@ == address);
}

/// A threshold above every count selects nothing.
pub proof fn lemma_threshold_above_all_is_empty(table: Seq<AggregationEntry>, threshold: u64)
    requires
        forall|i: int| 0 <= i < table.len() ==> (#[trigger] table[i]).event_count < threshold,
    ensures
        selected(table, threshold).len() == 0,
    decreases table.len(),
{
    if table.len() > 0 {
        let p = table.drop_last();
        assert forall|i: int| 0 <= i < p.len() implies (#[trigger] p[i]).event_count < threshold by {
            assert(p[i] == table[i]);
        }
        lemma_threshold_above_all_is_empty(p, threshold);
    }
}

/// Classifying logs in two batches, one after the other, gives what
/// classifying them all at once gives.
pub proof fn lemma_batches_compose(table: Seq<AggregationEntry>, a: Seq<LogEntry>, b: Seq<LogEntry>)
    ensures
        classify_all(table, a + b) == match classify_all(table, a) {
            Ok(t) => classify_all(t, b),
            Err(e) => Err(e),
        },
    decreases b.len(),
{
    if b.len() == 0 {
        assert(a + b =~= a);
    } else {
        assert((a + b).drop_last() =~= a + b.drop_last());
        assert((a + b).last() == b.last());
        lemma_batches_compose(table, a, b.drop_last());
    }
}

/// The logs that a node holding `chain` returns for the inclusive block range
/// `[lo, hi]`: those of the entries whose height lies in it, in chain order.
/// Each entry pairs a log with the height of the block that holds it.
pub open spec fn logs_in(chain: Seq<(u64, LogEntry)>, lo: int, hi: int) -> Seq<LogEntry>
    decreases chain.len(),
{
    if chain.len() == 0 {
        Seq::empty()
    } else {
        let rest = logs_in(chain.drop_first(), lo, hi);
        if lo <= chain[0].0 <= hi {
            seq![chain[0].1] + rest
        } else {
            rest
        }
    }
}

/// The chain's entries stand in order of height.
pub open spec fn ordered_by_height(chain: Seq<(u64, LogEntry)>) -> bool {
    forall|i: int, j: int| 0 <= i <= j < chain.len() ==> chain[i].0 <= chain[j].0
}

/// The logs returned for each window in turn, one after the other.
pub open spec fn logs_of_windows(chain: Seq<(u64, LogEntry)>, windows: Seq<(int, int)>) -> Seq<
    LogEntry,
>
    decreases windows.len(),
{
    if windows.len() == 0 {
        Seq::empty()
    } else {
        logs_in(chain, windows[0].0, windows[0].1) + logs_of_windows(chain, windows.drop_first())
    }
}

/// The table a discovery builds from a node holding `chain` whose head is at
/// `head`, scanning in windows of `step` blocks.
pub open spec fn scan_outcome(chain: Seq<(u64, LogEntry)>, step: u64, head: u64) -> Result<
    Seq<AggregationEntry>,
    DiscoveryError,
> {
    classify_all(Seq::empty(), logs_of_windows(chain, windows_from(0, step as int, head as int)))
}

/// The last block that a scan from `from` reaches: the head itself unless
/// the windows end exactly on it.
pub open spec fn last_scanned(from: int, step: int, head: int) -> int {
    if (head - from) % step == 0 {
        head - 1
    } else {
        head
    }
}

/// With every entry above `hi`, nothing is returned.
proof fn lemma_logs_in_above(chain: Seq<(u64, LogEntry)>, lo: int, hi: int)
    requires
        forall|i: int| 0 <= i < chain.len() ==> (#[trigger] chain[i]).0 > hi,
    ensures
        logs_in(chain, lo, hi) == Seq::<LogEntry>::empty(),
    decreases chain.len(),
{
    if chain.len() > 0 {
        let rest = chain.drop_first();
        assert forall|i: int| 0 <= i < rest.len() implies (#[trigger] rest[i]).0 > hi by {
            assert(rest[i] == chain[i + 1]);
        }
        lemma_logs_in_above(rest, lo, hi);
    }
}

/// With every entry at or above `b`, a range starting at or below `b`
/// returns what the range starting at `b` returns.
proof fn lemma_logs_in_from(chain: Seq<(u64, LogEntry)>, lo: int, b: int, hi: int)
    requires
        lo <= b,
        forall|i: int| 0 <= i < chain.len() ==> (#[trigger] chain[i]).0 >= b,
    ensures
        logs_in(chain, lo, hi) == logs_in(chain, b, hi),
    decreases chain.len(),
{
    if chain.len() > 0 {
        let rest = chain.drop_first();
        assert forall|i: int| 0 <= i < rest.len() implies (#[trigger] rest[i]).0 >= b by {
            assert(rest[i] == chain[i + 1]);
        }
        lemma_logs_in_from(rest, lo, b, hi);
    }
}

/// On an ordered chain, two adjacent ranges return together what their
/// union returns.
proof fn lemma_logs_in_split(chain: Seq<(u64, LogEntry)>, lo: int, m: int, hi: int)
    requires
        ordered_by_height(chain),
        lo <= m + 1,
        m < hi,
    ensures
        logs_in(chain, lo, m) + logs_in(chain, m + 1, hi) == logs_in(chain, lo, hi),
    decreases chain.len(),
{
    if chain.len() == 0 {
        assert(Seq::<LogEntry>::empty() + Seq::<LogEntry>::empty() =~= Seq::<LogEntry>::empty());
    } else {
        let x = chain[0];
        let rest = chain.drop_first();
        assert forall|i: int| 0 <= i < rest.len() implies (#[trigger] rest[i]).0 >= x.0 by {
            assert(rest[i] == chain[i + 1]);
        }
        assert(ordered_by_height(rest)) by {
            assert forall|i: int, j: int| 0 <= i <= j < rest.len() implies rest[i].0 <= rest[j].0 by {
                assert(rest[i] == chain[i + 1]);
                assert(rest[j] == chain[j + 1]);
            }
        }
        lemma_logs_in_split(rest, lo, m, hi);
        let a = logs_in(rest, lo, m);
        let b = logs_in(rest, m + 1, hi);
        if x.0 < lo {
        } else if x.0 <= m {
            assert(seq![x.1] + a + b =~= seq![x.1] + (a + b));
        } else if x.0 <= hi {
            lemma_logs_in_above(rest, lo, m);
            lemma_logs_in_from(rest, lo, m + 1, hi);
            assert(Seq::<LogEntry>::empty() + (seq![x.1] + b) =~= seq![x.1] + b);
        } else {
            lemma_logs_in_above(rest, lo, m);
            lemma_logs_in_above(rest, m + 1, hi);
            lemma_logs_in_above(rest, lo, hi);
            assert(Seq::<LogEntry>::empty() + Seq::<LogEntry>::empty() =~= Seq::<LogEntry>::empty());
        }
    }
}

/// The windows of a scan from `from` return together what the one range
/// from `from` to the last block they reach returns.
proof fn lemma_windows_cover(chain: Seq<(u64, LogEntry)>, from: int, step: int, head: int)
    requires
        ordered_by_height(chain),
        step > 0,
        0 <= from < head,
    ensures
        logs_of_windows(chain, windows_from(from, step, head)) == logs_in(
            chain,
            from,
            last_scanned(from, step, head),
        ),
    decreases head - from,
{
    let ws = windows_from(from, step, head);
    let rest = windows_from(from + step, step, head);
    assert(ws.drop_first() =~= rest);
    let to = if from + step - 1 <= head {
        from + step - 1
    } else {
        head
    };
    assert(ws[0] == (from, to));
    assert(logs_of_windows(chain, ws) == logs_in(chain, from, to) + logs_of_windows(chain, rest));
    if from + step >= head {
        assert(rest.len() == 0);
        if from + step == head {
            vstd::arithmetic::div_mod::lemma_mod_self_0(step);
        } else {
            vstd::arithmetic::div_mod::lemma_small_mod((head - from) as nat, step as nat);
        }
        assert(to == last_scanned(from, step, head));
        assert(logs_in(chain, from, to) + Seq::<LogEntry>::empty() =~= logs_in(chain, from, to));
    } else {
        lemma_windows_cover(chain, from + step, step, head);
        vstd::arithmetic::div_mod::lemma_mod_add_multiples_vanish(head - from - step, step);
        assert(last_scanned(from + step, step, head) == last_scanned(from, step, head));
        lemma_logs_in_split(chain, from, from + step - 1, last_scanned(from, step, head));
    }
}

/// No entry of the chain stands at `height`: a range of that block alone
/// returns nothing.
proof fn lemma_logs_in_empty_block(chain: Seq<(u64, LogEntry)>, height: int)
    requires
        forall|i: int| 0 <= i < chain.len() ==> (#[trigger] chain[i]).0 != height,
    ensures
        logs_in(chain, height, height) == Seq::<LogEntry>::empty(),
    decreases chain.len(),
{
    if chain.len() > 0 {
        let rest = chain.drop_first();
        assert forall|i: int| 0 <= i < rest.len() implies (#[trigger] rest[i]).0 != height by {
            assert(rest[i] == chain[i + 1]);
        }
        lemma_logs_in_empty_block(rest, height);
    }
}

/// The window width changes only how the logs are batched, not the table a
/// discovery builds: two widths give the same table when both reach the
/// head block, when neither does, or when the head block holds no log.
pub proof fn lemma_partition_invariance(chain: Seq<(u64, LogEntry)>, step1: u64, step2: u64, head: u64)
    requires
        ordered_by_height(chain),
        step1 > 0,
        step2 > 0,
        (head % step1 == 0) == (head % step2 == 0) || forall|i: int|
            0 <= i < chain.len() ==> (#[trigger] chain[i]).0 != head,
    ensures
        scan_outcome(chain, step1, head) == scan_outcome(chain, step2, head),
{
    if head > 0 {
        lemma_windows_cover(chain, 0, step1 as int, head as int);
        lemma_windows_cover(chain, 0, step2 as int, head as int);
        let e1 = last_scanned(0, step1 as int, head as int);
        let e2 = last_scanned(0, step2 as int, head as int);
        if e1 != e2 {
            lemma_logs_in_split(chain, 0, head - 1, head as int);
            lemma_logs_in_empty_block(chain, head as int);
            assert(logs_in(chain, 0, head - 1) + Seq::<LogEntry>::empty() =~= logs_in(
                chain,
                0,
                head - 1,
            ));
        }
    }
}

/// The windows of a scan from `from` all lie within `[from, head]`: a node
/// that answers every range there alike returns the same logs to the scan.
proof fn lemma_windows_alike(
    chain1: Seq<(u64, LogEntry)>,
    chain2: Seq<(u64, LogEntry)>,
    from: int,
    step: int,
    head: int,
)
    requires
        step > 0,
        0 <= from,
        forall|lo: int, hi: int|
            from <= lo <= hi <= head ==> #[trigger] logs_in(chain1, lo, hi) == logs_in(chain2, lo, hi),
    ensures
        logs_of_windows(chain1, windows_from(from, step, head)) == logs_of_windows(
            chain2,
            windows_from(from, step, head),
        ),
    decreases (if from < head {
        head - from
    } else {
        0
    }),
{
    if from < head {
        let ws = windows_from(from, step, head);
        assert(ws.drop_first() =~= windows_from(from + step, step, head));
        assert(logs_in(chain1, ws[0].0, ws[0].1) == logs_in(chain2, ws[0].0, ws[0].1));
        lemma_windows_alike(chain1, chain2, from + step, step, head);
    }
}

/// Scanning a range whose logs have not changed gives the same table again:
/// the table depends only on what the node returns for ranges within
/// `[0, head]`.
pub proof fn lemma_rescan_identical(
    chain1: Seq<(u64, LogEntry)>,
    chain2: Seq<(u64, LogEntry)>,
    step: u64,
    head: u64,
)
    requires
        step > 0,
        forall|lo: int, hi: int|
            0 <= lo <= hi <= head ==> #[trigger] logs_in(chain1, lo, hi) == logs_in(chain2, lo, hi),
    ensures
        scan_outcome(chain1, step, head) == scan_outcome(chain2, step, head),
{
    lemma_windows_alike(chain1, chain2, 0, step as int, head as int);
}

} // verus!
