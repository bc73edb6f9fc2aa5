use vstd::prelude::*;

verus! {

/// A 32-byte block hash, as four 64-bit words.
#[derive(Clone, Copy, PartialEq, Eq, Structural, Debug)]
pub struct BlockHash {
    pub w0: u64,
    pub w1: u64,
    pub w2: u64,
    pub w3: u64,
}

/// What one block-by-number query of the remote node reported. A node that
/// has not finished indexing its head answers with no hash.
#[derive(Clone, Copy, Debug)]
pub struct BlockHeader {
    pub number: u64,
    pub hash: Option<BlockHash>,
    pub timestamp: u64,
    pub gas_limit: u64,
    pub gas_used: u64,
    pub base_fee: Option<u64>,
}

/// The remote snapshot every transaction of a batch executes against:
/// a block that was seen fully populated at resolution time.
#[derive(Clone, Copy, PartialEq, Eq, Structural, Debug)]
pub struct ForkPoint {
    pub block_number: u64,
    pub block_hash: BlockHash,
    pub timestamp: u64,
}

/// A fetch answer counts as populated only when the node returned the block
/// and the block carries a hash.
pub open spec fn populated(fetched: Option<BlockHeader>) -> bool {
    match fetched {
        Some(b) => b.hash is Some,
        None => false,
    }
}

/// How many blocks the resolver may walk back from the reported head.
pub const FORK_WALK_BACK: u64 = 2;

/// The fork point a populated fetch at `candidate` pins.
pub open spec fn accepted_fork_point(candidate: u64, b: BlockHeader) -> ForkPoint {
    ForkPoint { block_number: candidate, block_hash: b.hash->0, timestamp: b.timestamp }
}

/// Walks back from a reported head until a query returns a populated block:
/// the head a node reports may still be pending, so it is a hint, not a
/// committed value. The caller fetches each candidate block and offers the
/// answer back.
#[derive(Clone, Copy, Debug)]
pub struct ForkPointResolver {
    pub candidate: u64,
    pub steps_left: u64,
}

/// One decision of the resolver.
#[derive(Clone, Copy, PartialEq, Eq, Structural, Debug)]
pub enum ResolveStep {
    /// The offered block is populated: pin it.
    Accept(ForkPoint),
    /// Not populated; fetch the next candidate and offer it.
    Retry,
    /// The walk-back bound is exhausted: the batch fails, rather than fork
    /// an unpopulated or arbitrarily old block.
    Fatal,
}

impl ForkPointResolver {
    /// Starts a resolution at the head block number the node reported.
    pub fn begin(head: u64) -> (r: Self)
        ensures
            r.candidate == head,
            r.steps_left == FORK_WALK_BACK,
    {
        ForkPointResolver { candidate: head, steps_left: FORK_WALK_BACK }
    }

    /// The block number the caller must fetch next.
    pub fn next_query(&self) -> (n: u64)
        ensures
            n == self.candidate,
    {
        self.candidate
    }

    /// Offers the answer of the query for block `self.candidate` and takes
    /// the next decision. A block is accepted only when the offered answer
    /// is populated, and the accepted fork point carries that answer's hash.
    pub fn offer(&mut self, fetched: Option<BlockHeader>) -> (step: ResolveStep)
        ensures
            populated(fetched) ==> step == ResolveStep::Accept(
                accepted_fork_point(old(self).candidate, fetched->0),
            ) && *final(self) == *old(self),
            !populated(fetched) && old(self).steps_left > 0 ==> step == ResolveStep::Retry
                && final(self).steps_left == old(self).steps_left - 1 && final(self).candidate == (
            if old(self).candidate > 0 {
                (old(self).candidate - 1) as u64
            } else {
                0u64
            }),
            !populated(fetched) && old(self).steps_left == 0 ==> step == ResolveStep::Fatal
                && *final(self) == *old(self),
    {
        match fetched {
            Some(b) => {
                match b.hash {
                    Some(h) => {
                        return ResolveStep::Accept(
                            ForkPoint {
                                block_number: self.candidate,
                                block_hash: h,
                                timestamp: b.timestamp,
                            },
                        );
                    },
                    None => {},
                }
            },
            None => {},
        }
        if self.steps_left > 0 {
            self.steps_left = self.steps_left - 1;
            if self.candidate > 0 {
                self.candidate = self.candidate - 1;
            }
            ResolveStep::Retry
        } else {
            ResolveStep::Fatal
        }
    }
}

/// The outcome of a whole resolution: `fetches[0]` is the node's answer to
/// the query for block `candidate`, `fetches[1]` the answer to the query
/// one block back, and so on. `None` is a fatal failure.
pub open spec fn resolution_model(
    candidate: u64,
    steps_left: u64,
    fetches: Seq<Option<BlockHeader>>,
) -> Option<ForkPoint>
    decreases fetches.len(),
{
    if fetches.len() == 0 {
        None
    } else if populated(fetches[0]) {
        Some(accepted_fork_point(candidate, fetches[0]->0))
    } else if steps_left > 0 {
        resolution_model(
            if candidate > 0 {
                (candidate - 1) as u64
            } else {
                0u64
            },
            (steps_left - 1) as u64,
            fetches.drop_first(),
        )
    } else {
        None
    }
}

/// Law: whatever the node answered, a resolution never pins a block whose
/// fetch came back unpopulated; the pinned hash is the hash that fetch
/// reported.
pub proof fn lemma_resolution_accepts_only_populated(
    candidate: u64,
    steps_left: u64,
    fetches: Seq<Option<BlockHeader>>,
)
    ensures
        match resolution_model(candidate, steps_left, fetches) {
            Some(fp) => exists|i: int|
                0 <= i < fetches.len() && #[trigger] populated(fetches[i]) && fp.block_hash
                    == fetches[i]->0.hash->0,
            None => true,
        },
    decreases fetches.len(),
{
    if fetches.len() == 0 {
    } else if populated(fetches[0]) {
        assert(populated(fetches[0]));
    } else if steps_left > 0 {
        let next = if candidate > 0 {
            (candidate - 1) as u64
        } else {
            0u64
        };
        lemma_resolution_accepts_only_populated(
            next,
            (steps_left - 1) as u64,
            fetches.drop_first(),
        );
        match resolution_model(candidate, steps_left, fetches) {
            Some(fp) => {
                let i = choose|i: int|
                    0 <= i < fetches.drop_first().len() && #[trigger] populated(
                        fetches.drop_first()[i],
                    ) && fp.block_hash == fetches.drop_first()[i]->0.hash->0;
                assert(fetches.drop_first()[i] == fetches[i + 1]);
                assert(populated(fetches[i + 1]) && fp.block_hash == fetches[i + 1]->0.hash->0);
            },
            None => {},
        }
    }
}

/// Law: against a node whose first `k` answers are unpopulated, `k` within
/// the walk-back bound, and whose next answer is populated, the resolution
/// pins block `head - k` with that answer's hash.
pub proof fn lemma_resolution_within_walk_back(
    head: u64,
    fetches: Seq<Option<BlockHeader>>,
    k: int,
)
    requires
        0 <= k < fetches.len(),
        k <= FORK_WALK_BACK,
        head >= k,
        populated(fetches[k]),
        forall|j: int| 0 <= j < k ==> !populated(#[trigger] fetches[j]),
    ensures
        resolution_model(head, FORK_WALK_BACK, fetches) == Some(
            accepted_fork_point((head - k) as u64, fetches[k]->0),
        ),
{
    lemma_resolution_reaches(head, FORK_WALK_BACK, fetches, k);
}

proof fn lemma_resolution_reaches(
    candidate: u64,
    steps_left: u64,
    fetches: Seq<Option<BlockHeader>>,
    k: int,
)
    requires
        0 <= k < fetches.len(),
        k <= steps_left,
        candidate >= k,
        populated(fetches[k]),
        forall|j: int| 0 <= j < k ==> !populated(#[trigger] fetches[j]),
    ensures
        resolution_model(candidate, steps_left, fetches) == Some(
            accepted_fork_point((candidate - k) as u64, fetches[k]->0),
        ),
    decreases k,
{
    if k == 0 {
    } else {
        assert(!populated(fetches[0]));
        lemma_resolution_reaches(
            (candidate - 1) as u64,
            (steps_left - 1) as u64,
            fetches.drop_first(),
            k - 1,
        );
        assert(fetches.drop_first()[k - 1] == fetches[k]);
        assert(forall|j: int|
            0 <= j < k - 1 ==> !populated(#[trigger] fetches.drop_first()[j]));
    }
}

/// Resolves a fork point from the recorded answers of the node, in the
/// order the queries would be made: the decision core of pinning "latest".
pub fn resolve_fork_point(head: u64, fetches: &Vec<Option<BlockHeader>>) -> (r: Option<ForkPoint>)
    ensures
        r == resolution_model(head, FORK_WALK_BACK, fetches@),
{
    let mut resolver = ForkPointResolver::begin(head);
    let mut i: usize = 0;
    proof {
        assert(fetches@.skip(0) =~= fetches@);
    }
    while i < fetches.len()
        invariant
            0 <= i <= fetches@.len(),
            resolution_model(head, FORK_WALK_BACK, fetches@) == resolution_model(
                resolver.candidate,
                resolver.steps_left,
                fetches@.skip(i as int),
            ),
        decreases fetches@.len() - i,
    {
        let step = resolver.offer(fetches[i]);
        proof {
            assert(fetches@.skip(i as int)[0] == fetches@[i as int]);
            assert(fetches@.skip(i as int).drop_first() =~= fetches@.skip(i + 1));
        }
        match step {
            ResolveStep::Accept(fp) => {
                return Some(fp);
            },
            ResolveStep::Fatal => {
                return None;
            },
            ResolveStep::Retry => {
                i = i + 1;
            },
        }
    }
    proof {
        assert(fetches@.skip(i as int).len() == 0);
    }
    None
}

} // verus!
