use vstd::prelude::*;
use crate::numeric::{Address, U256, lemma_address_value_injective};

verus! {

/// What the chain knows of one account. An account the chain has never
/// seen is the canonical default: zero balance, zero nonce, empty code.
#[derive(Debug)]
pub struct AccountState {
    pub balance: U256,
    pub nonce: u64,
    pub code: Vec<u8>,
}

impl AccountState {
    /// The mathematical content: balance, nonce and code.
    pub open spec fn model(self) -> (int, int, Seq<u8>) {
        (self.balance.as_int(), self.nonce as int, self.code@)
    }

    /// The canonical value of an account the chain has no record of.
    pub fn absent() -> (r: Self)
        ensures
            r.model() == (0int, 0int, Seq::<u8>::empty()),
    {
        let r = AccountState { balance: U256::zero(), nonce: 0, code: Vec::new() };
        proof {
            assert(r.code@ =~= Seq::<u8>::empty());
        }
        r
    }
}

pub fn clone_bytes(v: &Vec<u8>) -> (r: Vec<u8>)
    ensures
        r@ == v@,
{
    let mut r: Vec<u8> = Vec::new();
    let mut i: usize = 0;
    while i < v.len()
        invariant
            0 <= i <= v@.len(),
            r@ == v@.take(i as int),
        decreases v@.len() - i,
    {
        r.push(v[i]);
        proof {
            assert(v@.take(i as int).push(v@[i as int]) =~= v@.take(i + 1));
        }
        i = i + 1;
    }
    proof {
        assert(v@.take(i as int) =~= v@);
    }
    r
}

impl Clone for AccountState {
    /// A clone carries the same balance, nonce and code.
    fn clone(&self) -> (r: Self)
        ensures
            r.model() == self.model(),
    {
        AccountState { balance: self.balance, nonce: self.nonce, code: clone_bytes(&self.code) }
    }
}

/// One storage cell's identity: the account and the 256-bit slot key.
#[derive(Clone, Copy, PartialEq, Eq, Structural, Debug)]
pub struct SlotKey {
    pub addr: Address,
    pub key: U256,
}

impl SlotKey {
    /// The mathematical key: the pair of address value and slot value.
    pub open spec fn model(self) -> (int, int) {
        (self.addr.as_int(), self.key.as_int())
    }
}

pub proof fn lemma_slot_key_injective(a: SlotKey, b: SlotKey)
    ensures
        a.model() == b.model() <==> a == b,
{
    lemma_address_value_injective(a.addr, b.addr);
    crate::numeric::lemma_u256_value_injective(a.key, b.key);
}

/// One lookup structure of account records and storage cells. Records are
/// appended; a read takes the record appended last, so its content is the
/// map each append inserts into.
pub struct StateTable {
    pub accounts: Vec<(Address, AccountState)>,
    pub slots: Vec<(SlotKey, U256)>,
}

/// The map a run of account records denotes: later records override.
pub open spec fn accounts_map_of(s: Seq<(Address, AccountState)>) -> Map<int, (int, int, Seq<u8>)>
    decreases s.len(),
{
    if s.len() == 0 {
        Map::empty()
    } else {
        accounts_map_of(s.drop_last()).insert(s.last().0.as_int(), s.last().1.model())
    }
}

/// The map a run of storage records denotes: later records override.
pub open spec fn slots_map_of(s: Seq<(SlotKey, U256)>) -> Map<(int, int), int>
    decreases s.len(),
{
    if s.len() == 0 {
        Map::empty()
    } else {
        slots_map_of(s.drop_last()).insert(s.last().0.model(), s.last().1.as_int())
    }
}

impl StateTable {
    pub open spec fn accounts_map(self) -> Map<int, (int, int, Seq<u8>)> {
        accounts_map_of(self.accounts@)
    }

    pub open spec fn slots_map(self) -> Map<(int, int), int> {
        slots_map_of(self.slots@)
    }

    pub fn new() -> (r: Self)
        ensures
            r.accounts_map() == Map::<int, (int, int, Seq<u8>)>::empty(),
            r.slots_map() == Map::<(int, int), int>::empty(),
    {
        let r = StateTable { accounts: Vec::new(), slots: Vec::new() };
        proof {
            assert(r.accounts@ =~= Seq::<(Address, AccountState)>::empty());
            assert(r.slots@ =~= Seq::<(SlotKey, U256)>::empty());
        }
        r
    }

    /// Appends an account record: the table now maps the address to it.
    pub fn insert_account(&mut self, a: Address, acc: AccountState)
        ensures
            final(self).accounts_map() == old(self).accounts_map().insert(
                a.as_int(),
                acc.model(),
            ),
            final(self).slots_map() == old(self).slots_map(),
    {
        self.accounts.push((a, acc));
        proof {
            assert(self.accounts@.drop_last() =~= old(self).accounts@);
            assert(self.slots@ == old(self).slots@);
        }
    }

    /// Appends a storage record: the table now maps the cell to the value.
    pub fn insert_slot(&mut self, k: SlotKey, v: U256)
        ensures
            final(self).slots_map() == old(self).slots_map().insert(k.model(), v.as_int()),
            final(self).accounts_map() == old(self).accounts_map(),
    {
        self.slots.push((k, v));
        proof {
            assert(self.slots@.drop_last() =~= old(self).slots@);
            assert(self.accounts@ == old(self).accounts@);
        }
    }

    /// Reads the account record for `a`, the last one appended.
    pub fn get_account<'a>(&'a self, a: &Address) -> (r: Option<&'a AccountState>)
        ensures
            match r {
                Some(acc) => self.accounts_map().contains_key(a.as_int())
                    && acc.model() == self.accounts_map()[a.as_int()],
                None => !self.accounts_map().contains_key(a.as_int()),
            },
    {
        let mut i: usize = self.accounts.len();
        proof {
            assert(self.accounts@.take(i as int) =~= self.accounts@);
        }
        while i > 0
            invariant
                0 <= i <= self.accounts@.len(),
                accounts_map_of(self.accounts@.take(i as int)).contains_key(a.as_int())
                    == self.accounts_map().contains_key(a.as_int()),
                accounts_map_of(self.accounts@.take(i as int)).contains_key(a.as_int())
                    ==> accounts_map_of(self.accounts@.take(i as int))[a.as_int()]
                    == self.accounts_map()[a.as_int()],
            decreases i,
        {
            i = i - 1;
            proof {
                assert(self.accounts@.take(i + 1).drop_last() =~= self.accounts@.take(i as int));
                assert(self.accounts@.take(i + 1).last() == self.accounts@[i as int]);
                lemma_address_value_injective(self.accounts@[i as int].0, *a);
            }
            if self.accounts[i].0 == *a {
                return Some(&self.accounts[i].1);
            }
        }
        proof {
            assert(self.accounts@.take(0) =~= Seq::<(Address, AccountState)>::empty());
        }
        None
    }

    /// Reads the storage record for `k`, the last one appended.
    pub fn get_slot(&self, k: &SlotKey) -> (r: Option<U256>)
        ensures
            match r {
                Some(v) => self.slots_map().contains_key(k.model()) && v.as_int()
                    == self.slots_map()[k.model()],
                None => !self.slots_map().contains_key(k.model()),
            },
    {
        let mut i: usize = self.slots.len();
        proof {
            assert(self.slots@.take(i as int) =~= self.slots@);
        }
        while i > 0
            invariant
                0 <= i <= self.slots@.len(),
                slots_map_of(self.slots@.take(i as int)).contains_key(k.model())
                    == self.slots_map().contains_key(k.model()),
                slots_map_of(self.slots@.take(i as int)).contains_key(k.model())
                    ==> slots_map_of(self.slots@.take(i as int))[k.model()]
                    == self.slots_map()[k.model()],
            decreases i,
        {
            i = i - 1;
            proof {
                assert(self.slots@.take(i + 1).drop_last() =~= self.slots@.take(i as int));
                assert(self.slots@.take(i + 1).last() == self.slots@[i as int]);
                lemma_slot_key_injective(self.slots@[i as int].0, *k);
            }
            if self.slots[i].0 == *k {
                return Some(self.slots[i].1);
            }
        }
        proof {
            assert(self.slots@.take(0) =~= Seq::<(SlotKey, U256)>::empty());
        }
        None
    }
}

/// One state effect of an executed transaction, as the engine reports it.
#[derive(Debug)]
pub enum StateWrite {
    /// The account's full state after the transaction.
    Account { addr: Address, account: AccountState },
    /// One storage cell's value after the transaction.
    Slot { key: SlotKey, value: U256 },
}

/// The account map after one write lands.
pub open spec fn apply_write_accounts(
    m: Map<int, (int, int, Seq<u8>)>,
    w: StateWrite,
) -> Map<int, (int, int, Seq<u8>)> {
    match w {
        StateWrite::Account { addr, account } => m.insert(addr.as_int(), account.model()),
        StateWrite::Slot { .. } => m,
    }
}

/// The storage map after one write lands.
pub open spec fn apply_write_slots(m: Map<(int, int), int>, w: StateWrite) -> Map<(int, int), int> {
    match w {
        StateWrite::Account { .. } => m,
        StateWrite::Slot { key, value } => m.insert(key.model(), value.as_int()),
    }
}

/// The account map after a run of writes lands in order.
pub open spec fn apply_writes_accounts(
    m: Map<int, (int, int, Seq<u8>)>,
    ws: Seq<StateWrite>,
) -> Map<int, (int, int, Seq<u8>)>
    decreases ws.len(),
{
    if ws.len() == 0 {
        m
    } else {
        apply_write_accounts(apply_writes_accounts(m, ws.drop_last()), ws.last())
    }
}

/// The storage map after a run of writes lands in order.
pub open spec fn apply_writes_slots(
    m: Map<(int, int), int>,
    ws: Seq<StateWrite>,
) -> Map<(int, int), int>
    decreases ws.len(),
{
    if ws.len() == 0 {
        m
    } else {
        apply_write_slots(apply_writes_slots(m, ws.drop_last()), ws.last())
    }
}

/// The state substrate one batch executes against: a lower layer of remote
/// records pinned at the fork point, and an overlay that captures every
/// write of the batch. A read prefers the overlay; a write only ever lands
/// in the overlay; the lower layer is never mutated.
pub struct ForkedStateStore {
    lower: StateTable,
    overlay: StateTable,
}

impl ForkedStateStore {
    pub closed spec fn lower_accounts(self) -> Map<int, (int, int, Seq<u8>)> {
        self.lower.accounts_map()
    }

    pub closed spec fn lower_slots(self) -> Map<(int, int), int> {
        self.lower.slots_map()
    }

    pub closed spec fn overlay_accounts(self) -> Map<int, (int, int, Seq<u8>)> {
        self.overlay.accounts_map()
    }

    pub closed spec fn overlay_slots(self) -> Map<(int, int), int> {
        self.overlay.slots_map()
    }

    /// What a read of account `a` returns: the overlay first, then the
    /// lower layer, then nothing — the remote record is still missing.
    pub open spec fn account_read_model(self, a: int) -> Option<(int, int, Seq<u8>)> {
        if self.overlay_accounts().contains_key(a) {
            Some(self.overlay_accounts()[a])
        } else if self.lower_accounts().contains_key(a) {
            Some(self.lower_accounts()[a])
        } else {
            None
        }
    }

    /// What a read of storage cell `k` returns, overlay first.
    pub open spec fn slot_read_model(self, k: (int, int)) -> Option<int> {
        if self.overlay_slots().contains_key(k) {
            Some(self.overlay_slots()[k])
        } else if self.lower_slots().contains_key(k) {
            Some(self.lower_slots()[k])
        } else {
            None
        }
    }

    /// Starts a batch's store over a lower layer: the overlay is empty, so
    /// no earlier batch's writes can be observed.
    pub fn fork(lower: StateTable) -> (s: Self)
        ensures
            s.lower_accounts() == lower.accounts_map(),
            s.lower_slots() == lower.slots_map(),
            s.overlay_accounts() == Map::<int, (int, int, Seq<u8>)>::empty(),
            s.overlay_slots() == Map::<(int, int), int>::empty(),
    {
        ForkedStateStore { lower, overlay: StateTable::new() }
    }

    /// Records what the remote node reported for an account, in the lower
    /// layer; a node that has no record of the account reports nothing and
    /// the canonical default is pinned, so that later reads need no fetch.
    pub fn insert_remote_account(&mut self, a: Address, fetched: Option<AccountState>)
        ensures
            final(self).lower_accounts() == old(self).lower_accounts().insert(
                a.as_int(),
                match fetched {
                    Some(acc) => acc.model(),
                    None => (0int, 0int, Seq::<u8>::empty()),
                },
            ),
            final(self).lower_slots() == old(self).lower_slots(),
            final(self).overlay_accounts() == old(self).overlay_accounts(),
            final(self).overlay_slots() == old(self).overlay_slots(),
    {
        let acc = match fetched {
            Some(acc) => acc,
            None => AccountState::absent(),
        };
        self.lower.insert_account(a, acc);
    }

    /// Records what the remote node reported for a storage cell, in the
    /// lower layer; an unset cell reads as the zero word.
    pub fn insert_remote_slot(&mut self, k: SlotKey, fetched: Option<U256>)
        ensures
            final(self).lower_slots() == old(self).lower_slots().insert(
                k.model(),
                match fetched {
                    Some(v) => v.as_int(),
                    None => 0int,
                },
            ),
            final(self).lower_accounts() == old(self).lower_accounts(),
            final(self).overlay_accounts() == old(self).overlay_accounts(),
            final(self).overlay_slots() == old(self).overlay_slots(),
    {
        let v = match fetched {
            Some(v) => v,
            None => U256::zero(),
        };
        self.lower.insert_slot(k, v);
    }

    /// Reads an account: the overlay first, then the pinned remote record.
    /// Nothing means the remote record was not fetched yet.
    pub fn read_account<'a>(&'a self, a: &Address) -> (r: Option<&'a AccountState>)
        ensures
            match r {
                Some(acc) => self.account_read_model(a.as_int()) == Some(acc.model()),
                None => self.account_read_model(a.as_int()) is None,
            },
    {
        match self.overlay.get_account(a) {
            Some(acc) => Some(acc),
            None => self.lower.get_account(a),
        }
    }

    /// Reads a storage cell: the overlay first, then the pinned remote
    /// record. Nothing means the remote record was not fetched yet.
    pub fn read_slot(&self, k: &SlotKey) -> (r: Option<U256>)
        ensures
            match r {
                Some(v) => self.slot_read_model(k.model()) == Some(v.as_int()),
                None => self.slot_read_model(k.model()) is None,
            },
    {
        match self.overlay.get_slot(k) {
            Some(v) => Some(v),
            None => self.lower.get_slot(k),
        }
    }

    /// Writes an account's state. The write lands in the overlay alone:
    /// the lower layer and the remote source are never mutated.
    pub fn write_account(&mut self, a: Address, acc: AccountState)
        ensures
            final(self).overlay_accounts() == old(self).overlay_accounts().insert(
                a.as_int(),
                acc.model(),
            ),
            final(self).overlay_slots() == old(self).overlay_slots(),
            final(self).lower_accounts() == old(self).lower_accounts(),
            final(self).lower_slots() == old(self).lower_slots(),
    {
        self.overlay.insert_account(a, acc);
    }

    /// Writes a storage cell, into the overlay alone.
    pub fn write_slot(&mut self, k: SlotKey, v: U256)
        ensures
            final(self).overlay_slots() == old(self).overlay_slots().insert(
                k.model(),
                v.as_int(),
            ),
            final(self).overlay_accounts() == old(self).overlay_accounts(),
            final(self).lower_accounts() == old(self).lower_accounts(),
            final(self).lower_slots() == old(self).lower_slots(),
    {
        self.overlay.insert_slot(k, v);
    }

    /// Lands every write of one executed transaction in the overlay, in
    /// order, where each is visible to every later read of the batch.
    pub fn apply_writes(&mut self, writes: &Vec<StateWrite>)
        ensures
            final(self).overlay_accounts() == apply_writes_accounts(
                old(self).overlay_accounts(),
                writes@,
            ),
            final(self).overlay_slots() == apply_writes_slots(
                old(self).overlay_slots(),
                writes@,
            ),
            final(self).lower_accounts() == old(self).lower_accounts(),
            final(self).lower_slots() == old(self).lower_slots(),
    {
        let mut i: usize = 0;
        proof {
            assert(writes@.take(0) =~= Seq::<StateWrite>::empty());
        }
        while i < writes.len()
            invariant
                0 <= i <= writes@.len(),
                self.overlay_accounts() == apply_writes_accounts(
                    old(self).overlay_accounts(),
                    writes@.take(i as int),
                ),
                self.overlay_slots() == apply_writes_slots(
                    old(self).overlay_slots(),
                    writes@.take(i as int),
                ),
                self.lower_accounts() == old(self).lower_accounts(),
                self.lower_slots() == old(self).lower_slots(),
            decreases writes@.len() - i,
        {
            proof {
                assert(writes@.take(i + 1).drop_last() =~= writes@.take(i as int));
                assert(writes@.take(i + 1).last() == writes@[i as int]);
            }
            match &writes[i] {
                StateWrite::Account { addr, account } => {
                    self.write_account(*addr, account.clone());
                },
                StateWrite::Slot { key, value } => {
                    self.write_slot(*key, *value);
                },
            }
            i = i + 1;
        }
        proof {
            assert(writes@.take(i as int) =~= writes@);
        }
    }
}

/// Law: batches cannot leak overlay state into one another. Two stores
/// whose lower layers hold the same pinned snapshot and whose overlays
/// hold the same batch-local writes — as any two batches forked from one
/// snapshot start out, with empty overlays — answer every read alike; and
/// since a write only ever lands in the overlay, neither batch can change
/// what the other observes. With an engine that answers equal states with
/// equal outcomes, re-running a batch therefore yields identical results.
pub proof fn lemma_forked_batches_read_alike(
    s1: ForkedStateStore,
    s2: ForkedStateStore,
    a: int,
    k: (int, int),
)
    requires
        s1.lower_accounts() == s2.lower_accounts(),
        s1.lower_slots() == s2.lower_slots(),
        s1.overlay_accounts() == s2.overlay_accounts(),
        s1.overlay_slots() == s2.overlay_slots(),
    ensures
        s1.account_read_model(a) == s2.account_read_model(a),
        s1.slot_read_model(k) == s2.slot_read_model(k),
{
}

} // verus!
