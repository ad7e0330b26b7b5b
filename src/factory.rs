//! Factory templates, the event topic each one emits, and factory records.

use vstd::prelude::*;

verus! {

/// Topic 0 of `PairCreated(address,address,address,uint256)`, emitted by
/// Uniswap V2 style factories.
pub const PAIR_CREATED_EVENT_SIGNATURE: [u8; 32] = [
    0x0d, 0x36, 0x48, 0xbd, 0x0f, 0x6b, 0xa8, 0x01, 0x34, 0xa3, 0x3b, 0xa9, 0x27, 0x5a, 0xc5, 0x85,
    0xd9, 0xd3, 0x15, 0xf0, 0xad, 0x83, 0x55, 0xcd, 0xde, 0xfd, 0xe3, 0x1a, 0xfa, 0x28, 0xd0, 0xe9,
];

/// Topic 0 of `PoolCreated(address,address,uint24,int24,address)`, emitted by
/// Uniswap V3 style factories.
pub const POOL_CREATED_EVENT_SIGNATURE: [u8; 32] = [
    0x78, 0x3c, 0xca, 0x1c, 0x04, 0x12, 0xdd, 0x0d, 0x69, 0x5e, 0x78, 0x45, 0x68, 0xc9, 0x6d, 0xa2,
    0xe9, 0xc2, 0x2f, 0xf9, 0x89, 0x35, 0x7a, 0x2e, 0x8b, 0x1d, 0x9b, 0x2b, 0x4e, 0x6b, 0x71, 0x18,
];

/// The factory templates that a discovery can look for.
#[derive(Clone, Copy, Debug, PartialEq, Eq, Structural)]
pub enum DiscoverableFactory {
    UniswapV2Factory,
    UniswapV3Factory,
}

/// The creation-event topic that a template emits.
pub open spec fn signature_of(factory: DiscoverableFactory) -> Seq<u8> {
    match factory {
        DiscoverableFactory::UniswapV2Factory => PAIR_CREATED_EVENT_SIGNATURE@,
        DiscoverableFactory::UniswapV3Factory => POOL_CREATED_EVENT_SIGNATURE@,
    }
}

/// The template whose creation event is emitted under `topic`, if any.
pub open spec fn factory_of_topic(topic: Seq<u8>) -> Option<DiscoverableFactory> {
    if topic == signature_of(DiscoverableFactory::UniswapV2Factory) {
        Some(DiscoverableFactory::UniswapV2Factory)
    } else if topic == signature_of(DiscoverableFactory::UniswapV3Factory) {
        Some(DiscoverableFactory::UniswapV3Factory)
    } else {
        None
    }
}

/// Each template emits its own topic, so decoding a template's topic gives
/// that template back.
pub proof fn lemma_signature_round_trip(factory: DiscoverableFactory)
    ensures
        signature_of(factory).len() == 32,
        factory_of_topic(signature_of(factory)) == Some(factory),
{
    let v2 = PAIR_CREATED_EVENT_SIGNATURE;
    let v3 = POOL_CREATED_EVENT_SIGNATURE;
    assert(v2@[0] == 0x0d);
    assert(v3@[0] == 0x78);
    assert(v2@ != v3@);
}

impl DiscoverableFactory {
    /// The topic 0 under which this template's creation event is logged.
    pub fn discovery_event_signature(&self) -> (r: [u8; 32])
        ensures
            r@ == signature_of(*self),
    {
        match self {
            DiscoverableFactory::UniswapV2Factory => PAIR_CREATED_EVENT_SIGNATURE,
            DiscoverableFactory::UniswapV3Factory => POOL_CREATED_EVENT_SIGNATURE,
        }
    }
}

/// A candidate factory: its template, its address, and the height of the
/// first matching log seen from it.
#[derive(Clone, Copy, Debug, PartialEq, Eq)]
pub struct FactoryRecord {
    pub variant: DiscoverableFactory,
    pub address: [u8; 20],
    pub creation_block: u64,
}

/// Whether two byte strings of one length hold the same bytes.
pub fn same_bytes<const N: usize>(a: &[u8; N], b: &[u8; N]) -> (r: bool)
    ensures
        r == (a@ == b@),
{
    let mut i: usize = 0;
    while i < N
        invariant
            i <= N,
            a@.len() == N,
            b@.len() == N,
            forall|k: int| 0 <= k < i ==> a@[k] == b@[k],
        decreases N - i,
    {
        if a[i] != b[i] {
            return false;
        }
        i = i + 1;
    }
    assert(a@ =~= b@);
    true
}

/// The template whose creation event is logged under `topic`, if any.
pub fn factory_from_topic(topic: &[u8; 32]) -> (r: Option<DiscoverableFactory>)
    ensures
        r == factory_of_topic(topic@),
{
    if same_bytes(topic, &PAIR_CREATED_EVENT_SIGNATURE) {
        Some(DiscoverableFactory::UniswapV2Factory)
    } else if same_bytes(topic, &POOL_CREATED_EVENT_SIGNATURE) {
        Some(DiscoverableFactory::UniswapV3Factory)
    } else {
        None
    }
}

/// The topics of the given templates, in the same order: the topic-0 set of
/// the combined log filter.
pub fn event_signatures(factories: &Vec<DiscoverableFactory>) -> (r: Vec<[u8; 32]>)
    ensures
        r@.len() == factories@.len(),
        forall|i: int| 0 <= i < r@.len() ==> (#[trigger] r@[i])@ == signature_of(factories@[i]),
{
    let mut r: Vec<[u8; 32]> = Vec::new();
    let mut i: usize = 0;
    while i < factories.len()
        invariant
            i <= factories@.len(),
            r@.len() == i,
            forall|k: int| 0 <= k < i ==> (#[trigger] r@[k])@ == signature_of(factories@[k]),
        decreases factories@.len() - i,
    {
        r.push(factories[i].discovery_event_signature());
        i = i + 1;
    }
    r
}

} // verus!
