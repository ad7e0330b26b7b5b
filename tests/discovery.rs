use factory_discovery::{
    event_signatures, factory_from_topic, AggregationTable, BlockRangeScanner, DiscoverableFactory,
    DiscoveryError, FactoryDiscovery, FactoryRecord, LogEntry, ScanAction, ScanEvent, ScanPhase,
    PAIR_CREATED_EVENT_SIGNATURE, POOL_CREATED_EVENT_SIGNATURE,
};

const A: [u8; 20] = [0xaa; 20];
const B: [u8; 20] = [0xbb; 20];
const C: [u8; 20] = [0xcc; 20];

fn v2_log(address: [u8; 20], block: Option<u64>) -> LogEntry {
    LogEntry { address, topics: vec![PAIR_CREATED_EVENT_SIGNATURE, [1u8; 32]], block_number: block }
}

fn v3_log(address: [u8; 20], block: Option<u64>) -> LogEntry {
    LogEntry { address, topics: vec![POOL_CREATED_EVENT_SIGNATURE], block_number: block }
}

/// Runs a discovery against a node that holds `chain`, each log at its height.
fn run(chain: &[(u64, LogEntry)], head: u64, step: u64, threshold: u64) -> (ScanAction, Vec<(u64, u64)>) {
    let mut discovery = FactoryDiscovery::new(threshold, step);
    let mut windows = Vec::new();
    let mut action = discovery.handle(ScanEvent::HeadHeight(head));
    loop {
        match action {
            ScanAction::FetchLogs(from, to) => {
                windows.push((from, to));
                let logs: Vec<LogEntry> = chain
                    .iter()
                    .filter(|(h, _)| from <= *h && *h <= to)
                    .map(|(_, l)| l.clone())
                    .collect();
                action = discovery.handle(ScanEvent::Logs(logs));
            }
            done => return (done, windows),
        }
    }
}

fn addresses(found: &[FactoryRecord]) -> Vec<[u8; 20]> {
    let mut r: Vec<[u8; 20]> = found.iter().map(|f| f.address).collect();
    r.sort();
    r
}

fn table_of(logs: &[LogEntry]) -> AggregationTable {
    let mut table = AggregationTable::new();
    for log in logs {
        table.classify_log(log).unwrap();
    }
    table
}

#[test]
fn signatures_are_keccak_of_the_event_declarations() {
    let v2 = ethers::utils::keccak256("PairCreated(address,address,address,uint256)");
    let v3 = ethers::utils::keccak256("PoolCreated(address,address,uint24,int24,address)");
    assert_eq!(DiscoverableFactory::UniswapV2Factory.discovery_event_signature(), v2);
    assert_eq!(DiscoverableFactory::UniswapV3Factory.discovery_event_signature(), v3);
}

#[test]
fn topics_decode_to_their_templates() {
    assert_eq!(factory_from_topic(&PAIR_CREATED_EVENT_SIGNATURE), Some(DiscoverableFactory::UniswapV2Factory));
    assert_eq!(factory_from_topic(&POOL_CREATED_EVENT_SIGNATURE), Some(DiscoverableFactory::UniswapV3Factory));
    assert_eq!(factory_from_topic(&[0u8; 32]), None);
    let mut almost = PAIR_CREATED_EVENT_SIGNATURE;
    almost[31] ^= 1;
    assert_eq!(factory_from_topic(&almost), None);
}

#[test]
fn filter_topics_follow_the_requested_templates() {
    let sigs = event_signatures(&vec![DiscoverableFactory::UniswapV3Factory, DiscoverableFactory::UniswapV2Factory]);
    assert_eq!(sigs, vec![POOL_CREATED_EVENT_SIGNATURE, PAIR_CREATED_EVENT_SIGNATURE]);
    assert!(event_signatures(&vec![]).is_empty());
}

#[test]
fn windows_of_a_quarter_million_blocks() {
    let mut scanner = BlockRangeScanner::new(250_000, 100_000);
    assert_eq!(scanner.next_window(), Some((0, 99_999)));
    assert_eq!(scanner.next_window(), Some((100_000, 199_999)));
    assert_eq!(scanner.next_window(), Some((200_000, 250_000)));
    assert_eq!(scanner.next_window(), None);
    assert_eq!(scanner.next_window(), None);
}

#[test]
fn discovery_issues_three_queries_for_a_quarter_million_blocks() {
    let (done, windows) = run(&[], 250_000, 100_000, 0);
    assert_eq!(windows, vec![(0, 99_999), (100_000, 199_999), (200_000, 250_000)]);
    assert!(matches!(done, ScanAction::Finished(ref f) if f.is_empty()));
}

#[test]
fn windows_stop_when_a_start_reaches_the_head() {
    let mut scanner = BlockRangeScanner::new(200_000, 100_000);
    assert_eq!(scanner.next_window(), Some((0, 99_999)));
    assert_eq!(scanner.next_window(), Some((100_000, 199_999)));
    assert_eq!(scanner.next_window(), None);
    let mut empty = BlockRangeScanner::new(0, 10);
    assert_eq!(empty.next_window(), None);
}

#[test]
fn a_wide_step_takes_one_window_and_does_not_overflow() {
    let mut scanner = BlockRangeScanner::new(u64::MAX, u64::MAX);
    assert_eq!(scanner.next_window(), Some((0, u64::MAX - 1)));
    assert_eq!(scanner.next_window(), None);
    let mut scanner = BlockRangeScanner::new(5, u64::MAX);
    assert_eq!(scanner.next_window(), Some((0, 5)));
    assert_eq!(scanner.next_window(), None);
}

#[test]
fn counts_are_logs_after_the_first() {
    let table = table_of(&[v2_log(A, Some(10)), v2_log(A, Some(11)), v3_log(B, Some(12)), v2_log(A, Some(13))]);
    let rows = table.entries();
    assert_eq!(rows.len(), 2);
    assert_eq!(rows[0].record, FactoryRecord { variant: DiscoverableFactory::UniswapV2Factory, address: A, creation_block: 10 });
    assert_eq!(rows[0].event_count, 2);
    assert_eq!(rows[1].record, FactoryRecord { variant: DiscoverableFactory::UniswapV3Factory, address: B, creation_block: 12 });
    assert_eq!(rows[1].event_count, 0);
}

#[test]
fn later_logs_of_a_known_factory_are_not_inspected() {
    let strange = LogEntry { address: A, topics: vec![], block_number: None };
    let table = table_of(&[v3_log(A, Some(5)), strange]);
    let rows = table.entries();
    assert_eq!(rows.len(), 1);
    assert_eq!(rows[0].record.variant, DiscoverableFactory::UniswapV3Factory);
    assert_eq!(rows[0].record.creation_block, 5);
    assert_eq!(rows[0].event_count, 1);
}

#[test]
fn new_address_without_height_fails() {
    let mut table = AggregationTable::new();
    assert_eq!(table.classify_log(&v2_log(A, None)), Err(DiscoveryError::MissingBlockNumber));
    assert!(table.entries().is_empty());
    let chain = vec![(3, v2_log(A, None))];
    let (done, _) = run(&chain, 10, 5, 0);
    assert!(matches!(done, ScanAction::Failed(DiscoveryError::MissingBlockNumber)));
}

#[test]
fn unknown_topic_fails() {
    let mut table = AggregationTable::new();
    let log = LogEntry { address: C, topics: vec![[7u8; 32]], block_number: Some(1) };
    assert_eq!(table.classify_log(&log), Err(DiscoveryError::UnknownEventSignature));
    let bare = LogEntry { address: C, topics: vec![], block_number: Some(1) };
    assert_eq!(table.classify_log(&bare), Err(DiscoveryError::UnknownEventSignature));
    assert!(table.entries().is_empty());
    let mut batch_table = AggregationTable::new();
    assert_eq!(batch_table.classify_batch(&vec![v2_log(A, Some(1)), log]), Err(DiscoveryError::UnknownEventSignature));
}

#[test]
fn threshold_two_keeps_only_the_busier_factory() {
    let chain = vec![(1, v2_log(A, Some(1))), (2, v2_log(A, Some(2))), (3, v3_log(B, Some(3))), (4, v2_log(A, Some(4)))];
    let (done, _) = run(&chain, 10, 3, 2);
    match done {
        ScanAction::Finished(found) => {
            assert_eq!(found, vec![FactoryRecord { variant: DiscoverableFactory::UniswapV2Factory, address: A, creation_block: 1 }]);
        }
        other => panic!("unexpected {:?}", other),
    }
    let table = table_of(&[v2_log(A, Some(1)), v2_log(A, Some(2)), v3_log(B, Some(3)), v2_log(A, Some(4))]);
    assert_eq!(addresses(&table.select(2)), vec![A]);
}

#[test]
fn threshold_zero_keeps_every_factory() {
    let table = table_of(&[v2_log(A, Some(1)), v2_log(A, Some(2)), v3_log(B, Some(3))]);
    assert_eq!(addresses(&table.select(0)), vec![A, B]);
}

#[test]
fn threshold_above_every_count_keeps_none() {
    let table = table_of(&[v2_log(A, Some(1)), v2_log(A, Some(2)), v3_log(B, Some(3))]);
    assert_eq!(addresses(&table.select(1)), vec![A]);
    assert!(table.select(2).is_empty());
    assert!(table.select(u64::MAX).is_empty());
}

#[test]
fn failed_second_window_fails_the_discovery() {
    let mut discovery = FactoryDiscovery::new(0, 100);
    let first = discovery.handle(ScanEvent::HeadHeight(250));
    assert!(matches!(first, ScanAction::FetchLogs(0, 99)));
    let second = discovery.handle(ScanEvent::Logs(vec![v2_log(A, Some(5))]));
    assert!(matches!(second, ScanAction::FetchLogs(100, 199)));
    let last = discovery.handle(ScanEvent::ProviderFailed);
    assert!(matches!(last, ScanAction::Failed(DiscoveryError::ProviderError)));
    assert_eq!(discovery.phase(), ScanPhase::Over);
    assert!(!discovery.accepts(&ScanEvent::Logs(vec![])));
    assert!(!discovery.accepts(&ScanEvent::ProviderFailed));
}

#[test]
fn failed_head_query_fails_the_discovery() {
    let mut discovery = FactoryDiscovery::new(0, 100);
    assert_eq!(discovery.phase(), ScanPhase::AwaitingHead);
    assert!(discovery.accepts(&ScanEvent::ProviderFailed));
    assert!(!discovery.accepts(&ScanEvent::Logs(vec![])));
    let r = discovery.handle(ScanEvent::ProviderFailed);
    assert!(matches!(r, ScanAction::Failed(DiscoveryError::ProviderError)));
}

#[test]
fn step_does_not_change_the_result() {
    let chain = vec![
        (0, v2_log(A, Some(0))),
        (3, v3_log(B, Some(3))),
        (3, v2_log(A, Some(3))),
        (7, v3_log(B, Some(7))),
        (8, v2_log(C, Some(8))),
        (11, v2_log(A, Some(11))),
    ];
    let (fine, fine_windows) = run(&chain, 12, 1, 0);
    let (coarse, coarse_windows) = run(&chain, 12, 12, 0);
    let (odd, _) = run(&chain, 12, 5, 0);
    assert_eq!(fine_windows.len(), 12);
    assert_eq!(coarse_windows, vec![(0, 11)]);
    let expect = vec![
        FactoryRecord { variant: DiscoverableFactory::UniswapV2Factory, address: A, creation_block: 0 },
        FactoryRecord { variant: DiscoverableFactory::UniswapV3Factory, address: B, creation_block: 3 },
        FactoryRecord { variant: DiscoverableFactory::UniswapV2Factory, address: C, creation_block: 8 },
    ];
    for done in [fine, coarse, odd] {
        match done {
            ScanAction::Finished(found) => assert_eq!(found, expect),
            other => panic!("unexpected {:?}", other),
        }
    }
}

#[test]
fn scanning_twice_gives_the_same_result() {
    let chain = vec![(2, v2_log(A, Some(2))), (4, v2_log(A, Some(4))), (9, v3_log(B, Some(9)))];
    let (first, w1) = run(&chain, 20, 4, 1);
    let (second, w2) = run(&chain, 20, 4, 1);
    assert_eq!(w1, w2);
    match (first, second) {
        (ScanAction::Finished(a), ScanAction::Finished(b)) => {
            assert_eq!(a, b);
            assert_eq!(addresses(&a), vec![A]);
        }
        other => panic!("unexpected {:?}", other),
    }
}

#[test]
fn head_zero_finishes_at_once() {
    let mut discovery = FactoryDiscovery::new(0, 10);
    let r = discovery.handle(ScanEvent::HeadHeight(0));
    assert!(matches!(r, ScanAction::Finished(ref f) if f.is_empty()));
    assert_eq!(discovery.phase(), ScanPhase::Over);
}
