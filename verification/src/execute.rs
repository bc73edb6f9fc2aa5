use vstd::prelude::*;
use crate::environment::ExecutionEnvironment;
use crate::numeric::{Address, U256};
use crate::store::{
    ForkedStateStore, StateWrite, apply_writes_accounts, apply_writes_slots, clone_bytes,
};

verus! {

/// One simulated call: sender, recipient, call data and native value. No
/// nonce, gas price or signature — this simulates calls, not signed
/// broadcast transactions.
#[derive(Debug)]
pub struct Transaction {
    pub from: Address,
    pub to: Address,
    pub data: Vec<u8>,
    pub value: U256,
}

impl Transaction {
    /// The mathematical content: sender, recipient, data and value.
    pub open spec fn model(self) -> (int, int, Seq<u8>, int) {
        (self.from.as_int(), self.to.as_int(), self.data@, self.value.as_int())
    }
}

impl Clone for Transaction {
    /// A clone carries the same sender, recipient, data and value.
    fn clone(&self) -> (r: Self)
        ensures
            r.model() == self.model(),
    {
        Transaction {
            from: self.from,
            to: self.to,
            data: clone_bytes(&self.data),
            value: self.value,
        }
    }
}

/// What one transaction cost and whether it reverted. A revert is a normal
/// reported outcome, not an error.
#[derive(Clone, Copy, PartialEq, Eq, Structural, Debug)]
pub struct GasEstimate {
    pub gas: u64,
    pub reverted: bool,
}

/// What the execution engine reported for one transaction.
#[derive(Debug)]
pub enum EngineOutcome {
    /// The call ran to an outcome: gas consumed, the revert flag, and the
    /// state it wrote.
    Completed { gas_used: u64, reverted: bool, writes: Vec<StateWrite> },
    /// The engine itself could not process the call — fatal for the whole
    /// batch, since a skipped entry would break the positional
    /// correspondence of results to requests.
    Failed,
}

/// The result entry a completed outcome reports.
pub open spec fn estimate_of(o: EngineOutcome) -> GasEstimate {
    match o {
        EngineOutcome::Completed { gas_used, reverted, .. } => GasEstimate {
            gas: gas_used,
            reverted,
        },
        EngineOutcome::Failed => GasEstimate { gas: 0, reverted: false },
    }
}

/// True when every outcome of a batch completed.
pub open spec fn all_completed(outcomes: Seq<EngineOutcome>) -> bool {
    forall|i: int| 0 <= i < outcomes.len() ==> (#[trigger] outcomes[i]) is Completed
}

/// The ordered result list a batch of completed outcomes reports.
pub open spec fn batch_results_model(outcomes: Seq<EngineOutcome>) -> Seq<GasEstimate> {
    outcomes.map_values(|o: EngineOutcome| estimate_of(o))
}

/// Replays an ordered batch strictly in input order against one shared
/// environment and one shared store. The caller executes each pending
/// request on the engine and hands the outcome back; every write is
/// committed to the overlay before the next request is taken up.
pub struct Pipeline {
    env: ExecutionEnvironment,
    store: ForkedStateStore,
    requests: Vec<Transaction>,
    results: Vec<GasEstimate>,
}

impl Pipeline {
    pub closed spec fn env(self) -> ExecutionEnvironment {
        self.env
    }

    pub closed spec fn store(self) -> ForkedStateStore {
        self.store
    }

    pub closed spec fn requests(self) -> Seq<Transaction> {
        self.requests@
    }

    pub closed spec fn results(self) -> Seq<GasEstimate> {
        self.results@
    }

    /// Takes up a batch: no request is answered yet.
    pub fn begin(
        env: ExecutionEnvironment,
        store: ForkedStateStore,
        requests: Vec<Transaction>,
    ) -> (p: Self)
        ensures
            p.env() == env,
            p.store() == store,
            p.requests() == requests@,
            p.results() == Seq::<GasEstimate>::empty(),
    {
        let p = Pipeline { env, store, requests, results: Vec::new() };
        proof {
            assert(p.results@ =~= Seq::<GasEstimate>::empty());
        }
        p
    }

    /// The environment every transaction of the batch shares, read-only.
    pub fn environment(&self) -> (r: &ExecutionEnvironment)
        ensures
            *r == self.env(),
    {
        &self.env
    }

    /// The state the engine must execute the pending request against.
    pub fn state(&self) -> (r: &ForkedStateStore)
        ensures
            *r == self.store(),
    {
        &self.store
    }

    /// True when every request has its result.
    pub fn is_complete(&self) -> (r: bool)
        ensures
            r == (self.results().len() == self.requests().len()),
    {
        self.results.len() == self.requests.len()
    }

    /// The next request to execute, in input order: the one after those
    /// already answered. Nothing is pending once the batch is complete.
    pub fn next_request<'a>(&'a self) -> (r: Option<&'a Transaction>)
        ensures
            match r {
                Some(t) => self.results().len() < self.requests().len() && *t == self.requests()[
                    self.results().len() as int
                ],
                None => self.results().len() >= self.requests().len(),
            },
    {
        if self.results.len() < self.requests.len() {
            Some(&self.requests[self.results.len()])
        } else {
            None
        }
    }

    /// Commits one completed outcome: the writes land in the overlay, and
    /// the result list grows by exactly this request's entry. The
    /// environment, the request order and the lower layer are untouched.
    pub fn apply_outcome(&mut self, gas_used: u64, reverted: bool, writes: &Vec<StateWrite>)
        requires
            old(self).results().len() < old(self).requests().len(),
        ensures
            final(self).results() == old(self).results().push(
                (GasEstimate { gas: gas_used, reverted }),
            ),
            final(self).requests() == old(self).requests(),
            final(self).env() == old(self).env(),
            final(self).store().overlay_accounts() == apply_writes_accounts(
                old(self).store().overlay_accounts(),
                writes@,
            ),
            final(self).store().overlay_slots() == apply_writes_slots(
                old(self).store().overlay_slots(),
                writes@,
            ),
            final(self).store().lower_accounts() == old(self).store().lower_accounts(),
            final(self).store().lower_slots() == old(self).store().lower_slots(),
    {
        self.store.apply_writes(writes);
        self.results.push(GasEstimate { gas: gas_used, reverted });
    }

    /// Hands the ordered result list out, one entry per request.
    pub fn into_results(self) -> (r: Vec<GasEstimate>)
        requires
            self.results().len() == self.requests().len(),
        ensures
            r@ == self.results(),
    {
        self.results
    }
}

/// A whole batch fails rather than return a partial result list.
#[derive(Clone, Copy, PartialEq, Eq, Structural, Debug)]
pub enum BatchError {
    /// The engine could not process some call — distinct from a revert.
    EngineFailure,
}

/// Replays a batch whose outcomes are already recorded, strictly in input
/// order: the result list has exactly one entry per request, and the entry
/// at each position reports the outcome of the request at that position.
/// The batch succeeds if and only if every outcome completed; a single
/// engine failure fails the whole batch. Callers that obtain outcomes one
/// at a time drive `Pipeline` directly.
pub fn execute(
    env: ExecutionEnvironment,
    store: ForkedStateStore,
    requests: Vec<Transaction>,
    outcomes: &Vec<EngineOutcome>,
) -> (r: Result<Vec<GasEstimate>, BatchError>)
    requires
        outcomes@.len() == requests@.len(),
    ensures
        r is Ok <==> all_completed(outcomes@),
        match r {
            Ok(results) => results@ == batch_results_model(outcomes@) && results@.len()
                == requests@.len() && forall|i: int|
                0 <= i < results@.len() ==> results@[i] == estimate_of(#[trigger] outcomes@[i]),
            Err(e) => e == BatchError::EngineFailure,
        },
{
    let mut p = Pipeline::begin(env, store, requests);
    let mut i: usize = 0;
    while i < outcomes.len()
        invariant
            0 <= i <= outcomes@.len(),
            outcomes@.len() == p.requests().len(),
            p.results().len() == i,
            forall|j: int| 0 <= j < i ==> (#[trigger] outcomes@[j]) is Completed,
            forall|j: int|
                0 <= j < i ==> p.results()[j] == estimate_of(#[trigger] outcomes@[j]),
        decreases outcomes@.len() - i,
    {
        match &outcomes[i] {
            EngineOutcome::Completed { gas_used, reverted, writes } => {
                p.apply_outcome(*gas_used, *reverted, writes);
            },
            EngineOutcome::Failed => {
                return Err(BatchError::EngineFailure);
            },
        }
        i = i + 1;
    }
    Ok(p.into_results())
}

} // verus!
