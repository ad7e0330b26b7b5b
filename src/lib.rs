//! Discovery of AMM factory contracts from their pool-creation event logs.
//!
//! The library holds the decisions of a discovery: which event topic each
//! factory template emits, which block windows to query, how each returned
//! log is classified into a table of candidate factories, and which of them
//! meet the caller's threshold. Fetching the head height and the logs is left
//! to the caller, who feeds the results to [`FactoryDiscovery`].

pub mod factory;
pub mod table;
pub mod scanner;
pub mod discovery;
pub mod laws;

pub use discovery::{FactoryDiscovery, ScanAction, ScanEvent, ScanPhase};
pub use factory::{
    event_signatures, factory_from_topic, DiscoverableFactory, FactoryRecord,
    PAIR_CREATED_EVENT_SIGNATURE, POOL_CREATED_EVENT_SIGNATURE,
};
pub use scanner::BlockRangeScanner;
pub use table::{AggregationEntry, AggregationTable, DiscoveryError, LogEntry};
