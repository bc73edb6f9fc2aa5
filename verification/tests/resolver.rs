use gaspipe::fork::{
    BlockHash, BlockHeader, ForkPointResolver, ResolveStep, resolve_fork_point,
};
use gaspipe::proxy::{RPC_ATTEMPTS, RPC_BACKOFF_MS, RetryDecision, RetryPolicy};

fn populated(number: u64) -> Option<BlockHeader> {
    Some(BlockHeader {
        number,
        hash: Some(BlockHash { w0: number, w1: 0, w2: 0, w3: 9 }),
        timestamp: 1_650_000_000 + number,
        gas_limit: 30_000_000,
        gas_used: 10_000_000,
        base_fee: Some(1_000_000_000),
    })
}

fn pending(number: u64) -> Option<BlockHeader> {
    Some(BlockHeader {
        number,
        hash: None,
        timestamp: 0,
        gas_limit: 0,
        gas_used: 0,
        base_fee: None,
    })
}

#[test]
fn test_resolver_accepts_populated_head() {
    let mut r = ForkPointResolver::begin(100);
    assert_eq!(r.next_query(), 100);
    match r.offer(populated(100)) {
        ResolveStep::Accept(fp) => {
            assert_eq!(fp.block_number, 100);
            assert_eq!(fp.block_hash, BlockHash { w0: 100, w1: 0, w2: 0, w3: 9 });
            assert_eq!(fp.timestamp, 1_650_000_100);
        }
        _ => panic!("a populated head must be accepted"),
    }
}

#[test]
fn test_resolver_walks_back_to_populated_block() {
    // The node reports an unpopulated head for two consecutive queries:
    // one answered with no block at all, one with a pending block.
    let mut r = ForkPointResolver::begin(100);
    assert!(matches!(r.offer(None), ResolveStep::Retry));
    assert_eq!(r.next_query(), 99);
    assert!(matches!(r.offer(pending(99)), ResolveStep::Retry));
    assert_eq!(r.next_query(), 98);
    match r.offer(populated(98)) {
        ResolveStep::Accept(fp) => {
            assert_eq!(fp.block_number, 98);
            assert_eq!(fp.block_hash, BlockHash { w0: 98, w1: 0, w2: 0, w3: 9 });
        }
        _ => panic!("a populated block within the walk-back must be accepted"),
    }
}

#[test]
fn test_resolver_fatal_when_walk_back_exhausted() {
    // Never an accepted unpopulated block: past the bound the resolution
    // fails instead.
    let mut r = ForkPointResolver::begin(100);
    assert!(matches!(r.offer(pending(100)), ResolveStep::Retry));
    assert!(matches!(r.offer(pending(99)), ResolveStep::Retry));
    assert!(matches!(r.offer(pending(98)), ResolveStep::Fatal));
}

#[test]
fn test_resolve_fork_point_from_answers() {
    let fp = resolve_fork_point(100, &vec![None, pending(99), populated(98)]);
    assert!(fp.is_some());
    assert_eq!(fp.unwrap().block_number, 98);

    let none = resolve_fork_point(100, &vec![pending(100), pending(99), pending(98)]);
    assert!(none.is_none());

    let empty = resolve_fork_point(100, &vec![]);
    assert!(empty.is_none());
}

#[test]
fn test_retry_policy_bounded() {
    let mut p = RetryPolicy::begin();
    let mut retries: u64 = 0;
    loop {
        match p.on_failure() {
            RetryDecision::Retry { delay_ms } => {
                assert_eq!(delay_ms, RPC_BACKOFF_MS);
                retries += 1;
                assert!(retries < 100, "the retry discipline must be bounded");
            }
            RetryDecision::GiveUp => break,
        }
    }
    // One first attempt plus the retries: the fixed attempt count in all.
    assert_eq!(retries + 1, RPC_ATTEMPTS);
}

#[test]
fn test_resolver_saturates_at_genesis() {
    let mut r = ForkPointResolver::begin(0);
    assert!(matches!(r.offer(None), ResolveStep::Retry));
    assert_eq!(r.next_query(), 0);
}
