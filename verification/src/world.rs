//! The per-test simulated chain: account ledger, contract registry, slot
//! storage, event log, call-frame stack and block/transaction context, with
//! the operations the harness surface and the dispatch router rely on.

use vstd::prelude::*;
use vstd::pervasive::VecAdditionalExecFns;
use crate::addr::{Address, address_of, account_address_of, sign_with_tag_key, tag_address_of, tag_key_address_of, tag_key_signs, tag_signature_of};
use crate::word::U256;
use crate::event::{Event, EventRecord, EventView, record_view, log_view, emitted_in};
use crate::state::{AccountEntry, SlotEntry, ContractEntry, bal_of, has_account, keyed, sum_balances,
    slot_of, kind_of, lemma_bal_of_index, lemma_bal_of_absent, lemma_bal_of_update,
    lemma_sum_update, lemma_ledger_push, lemma_bal_le_sum, lemma_slot_of_index,
    lemma_slot_of_absent, lemma_slot_of_update, lemma_slot_of_push, lemma_kind_of_index,
    lemma_kind_of_absent, lemma_contracts_push};
use crate::samples::ContractKind;

verus! {

/// The chain identifier a fresh context starts with.
pub const DEFAULT_CHAIN_ID: u64 = 42161;

/// One active call: who calls, who is called, and the attached value.
#[derive(Clone, Copy, PartialEq, Eq, Structural, Debug)]
pub struct Frame {
    pub caller: Address,
    pub callee: Address,
    pub value: U256,
}

/// One remembered tag registration, for diagnostics.
#[derive(Clone, Debug)]
pub struct TagEntry {
    pub tag: String,
    pub addr: Address,
}

/// A typed reference to a deployed contract.
#[derive(Clone, Copy, PartialEq, Eq, Structural, Debug)]
pub struct ContractHandle {
    pub addr: Address,
    pub kind: ContractKind,
}

impl ContractHandle {
    /// The address the handle is pinned to.
    pub fn address(&self) -> (r: Address)
        ensures
            r == self.addr,
    {
        self.addr
    }

    /// The native-token balance held at the handle's address.
    pub fn balance(&self, w: &World) -> (r: U256)
        ensures
            r.as_nat() == bal_of(w.accounts@, self.addr),
    {
        w.balance(self.addr)
    }

    /// Whether this contract logged an event equal to the expected one.
    pub fn emitted(&self, w: &World, e: &Event) -> (r: bool)
        ensures
            r == emitted_in(
                log_view(w.events@),
                EventView { emitter: self.addr, topic: e.topic, fields: e.fields@ },
            ),
    {
        w.emitted(self.addr, e)
    }
}

/// The whole per-test state. Each test owns one; nothing is shared.
pub struct World {
    pub accounts: Vec<AccountEntry>,
    pub contracts: Vec<ContractEntry>,
    pub storage: Vec<SlotEntry>,
    pub events: Vec<EventRecord>,
    pub frames: Vec<Frame>,
    pub tags: Vec<TagEntry>,
    pub chain_id: u64,
    pub block_number: u64,
    pub block_timestamp: u64,
    pub total: U256,
}

/// The tag a registry entry remembers for an address: the first
/// registration wins; `None` when no tag derived the address.
pub open spec fn tag_for(ts: Seq<TagEntry>, a: Address) -> Option<Seq<char>>
    decreases ts.len(),
{
    if ts.len() == 0 {
        None
    } else if ts[0].addr == a {
        Some(ts[0].tag@)
    } else {
        tag_for(ts.drop_first(), a)
    }
}

/// A first match at index `i` fixes the remembered tag.
proof fn lemma_tag_for_index(ts: Seq<TagEntry>, a: Address, i: int)
    requires
        0 <= i < ts.len(),
        ts[i].addr == a,
        forall|j: int| 0 <= j < i ==> ts[j].addr != a,
    ensures
        tag_for(ts, a) == Some(ts[i].tag@),
    decreases i,
{
    if i > 0 {
        lemma_tag_for_index(ts.drop_first(), a, i - 1);
    }
}

/// With no match anywhere no tag is remembered.
proof fn lemma_tag_for_absent(ts: Seq<TagEntry>, a: Address)
    requires
        forall|j: int| 0 <= j < ts.len() ==> ts[j].addr != a,
    ensures
        tag_for(ts, a) is None,
    decreases ts.len(),
{
    if ts.len() > 0 {
        lemma_tag_for_absent(ts.drop_first(), a);
    }
}

/// The balance a sender must part with and a receiver gains: the expected
/// balance of `b` after moving `v` from `from` to `to`.
pub open spec fn transfer_bal(
    l: Seq<AccountEntry>,
    from: Address,
    to: Address,
    v: nat,
    b: Address,
) -> nat {
    if from == to {
        bal_of(l, b)
    } else if b == from {
        (bal_of(l, from) - v) as nat
    } else if b == to {
        (bal_of(l, to) + v) as nat
    } else {
        bal_of(l, b)
    }
}

impl World {
    /// The ledger total kept by `fund` agrees with the sum of all balances.
    pub open spec fn wf(self) -> bool {
        self.total.as_nat() == sum_balances(self.accounts@)
    }

    /// The block and transaction context is the same in both states.
    pub open spec fn same_ctx(a: World, b: World) -> bool {
        a.chain_id == b.chain_id && a.block_number == b.block_number && a.block_timestamp
            == b.block_timestamp
    }

    /// A fresh, empty chain with the default context.
    pub fn new() -> (r: World)
        ensures
            r.accounts@.len() == 0,
            r.contracts@.len() == 0,
            r.storage@.len() == 0,
            r.events@.len() == 0,
            r.frames@.len() == 0,
            r.tags@.len() == 0,
            r.chain_id == DEFAULT_CHAIN_ID,
            r.block_number == 0,
            r.block_timestamp == 0,
            r.wf(),
            sum_balances(r.accounts@) == 0,
    {
        World {
            accounts: Vec::new(),
            contracts: Vec::new(),
            storage: Vec::new(),
            events: Vec::new(),
            frames: Vec::new(),
            tags: Vec::new(),
            chain_id: DEFAULT_CHAIN_ID,
            block_number: 0,
            block_timestamp: 0,
            total: U256::zero(),
        }
    }

    /// The index of the first ledger entry of an address, if any.
    fn find_account(&self, a: Address) -> (r: Option<usize>)
        ensures
            match r {
                Some(i) => i < self.accounts@.len() && self.accounts@[i as int].addr == a
                    && forall|j: int| 0 <= j < i ==> self.accounts@[j].addr != a,
                None => forall|j: int|
                    0 <= j < self.accounts@.len() ==> self.accounts@[j].addr != a,
            },
    {
        let n = self.accounts.len();
        let mut i: usize = 0;
        while i < n
            invariant
                i <= n,
                n == self.accounts@.len(),
                forall|j: int| 0 <= j < i ==> self.accounts@[j].addr != a,
            decreases n - i,
        {
            if self.accounts[i].addr == a {
                return Some(i);
            }
            i = i + 1;
        }
        None
    }

    /// The tag that derived an address, for diagnostics that substitute
    /// tags for raw addresses; `None` when no registered tag derived it.
    pub fn tag_of(&self, a: Address) -> (r: Option<String>)
        ensures
            r is Some <==> tag_for(self.tags@, a) is Some,
            r is Some ==> Some(r->Some_0@) == tag_for(self.tags@, a),
    {
        let n = self.tags.len();
        let mut i: usize = 0;
        while i < n
            invariant
                i <= n,
                n == self.tags@.len(),
                forall|j: int| 0 <= j < i ==> self.tags@[j].addr != a,
            decreases n - i,
        {
            let t = &self.tags[i];
            if t.addr == a {
                proof {
                    lemma_tag_for_index(self.tags@, a, i as int);
                }
                return Some(t.tag.clone());
            }
            i = i + 1;
        }
        proof {
            lemma_tag_for_absent(self.tags@, a);
        }
        None
    }

    /// Whether the address's account was created with signing key material.
    pub fn has_signer(&self, a: Address) -> (r: bool)
        ensures
            r == keyed(self.accounts@, a),
    {
        match self.find_account(a) {
            Some(i) => {
                proof {
                    lemma_bal_of_index(self.accounts@, a, i as int);
                }
                self.accounts[i].has_key
            },
            None => {
                proof {
                    lemma_bal_of_absent(self.accounts@, a);
                }
                false
            },
        }
    }

    /// Signs a message with the tag's key, valid only for a tag whose
    /// account was created with key material: for a keyed account the call
    /// returns the tag's signature exactly when the tag's key signs at all,
    /// and `None` for any other tag.
    pub fn sign_as(&self, tag: &str, msg: &[u8]) -> (r: Option<Vec<u8>>)
        ensures
            !keyed(self.accounts@, tag_key_address_of(tag@)) ==> r is None,
            keyed(self.accounts@, tag_key_address_of(tag@)) ==> (r is Some <==> tag_key_signs(
                tag@,
                msg@,
            )),
            r is Some ==> r->Some_0@ == tag_signature_of(tag@, msg@),
            r is Some ==> r->Some_0@.len() == 65,
    {
        if self.has_signer(account_address_of(tag)) {
            sign_with_tag_key(tag, msg)
        } else {
            None
        }
    }

    /// The native-token balance of an address; zero when never listed.
    pub fn balance(&self, a: Address) -> (r: U256)
        ensures
            r.as_nat() == bal_of(self.accounts@, a),
    {
        match self.find_account(a) {
            Some(i) => {
                proof {
                    lemma_bal_of_index(self.accounts@, a, i as int);
                }
                self.accounts[i].balance
            },
            None => {
                proof {
                    lemma_bal_of_absent(self.accounts@, a);
                }
                U256::zero()
            },
        }
    }

    /// Lists an address in the ledger with a zero balance if it is not yet
    /// listed; `with_key` marks it as carrying signing key material.
    pub fn ensure_account(&mut self, a: Address, with_key: bool)
        ensures
            final(self).contracts@ == old(self).contracts@,
            final(self).storage@ == old(self).storage@,
            final(self).events@ == old(self).events@,
            final(self).frames@ == old(self).frames@,
            final(self).tags@ == old(self).tags@,
            final(self).total == old(self).total,
            World::same_ctx(*old(self), *final(self)),
            forall|b: Address| bal_of(final(self).accounts@, b) == bal_of(old(self).accounts@, b),
            sum_balances(final(self).accounts@) == sum_balances(old(self).accounts@),
            has_account(final(self).accounts@, a),
            forall|b: Address|
                b != a ==> has_account(final(self).accounts@, b) == has_account(
                    old(self).accounts@,
                    b,
                ),
            forall|b: Address|
                b != a ==> keyed(final(self).accounts@, b) == keyed(old(self).accounts@, b),
            has_account(old(self).accounts@, a) ==> keyed(final(self).accounts@, a) == keyed(
                old(self).accounts@,
                a,
            ),
            !has_account(old(self).accounts@, a) ==> keyed(final(self).accounts@, a) == with_key,
            old(self).wf() ==> final(self).wf(),
    {
        match self.find_account(a) {
            Some(i) => {
                proof {
                    lemma_bal_of_index(self.accounts@, a, i as int);
                }
            },
            None => {
                let e = AccountEntry { addr: a, balance: U256::zero(), has_key: with_key };
                proof {
                    lemma_bal_of_absent(self.accounts@, a);
                    lemma_ledger_push(self.accounts@, e);
                }
                self.accounts.push(e);
            },
        }
    }

    /// Adds to one balance out of thin air, as a test's out-of-band funding
    /// source; refused only when the ledger total would leave 256 bits.
    pub fn fund(&mut self, a: Address, amount: U256) -> (r: bool)
        requires
            old(self).wf(),
        ensures
            final(self).wf(),
            final(self).contracts@ == old(self).contracts@,
            final(self).storage@ == old(self).storage@,
            final(self).events@ == old(self).events@,
            final(self).frames@ == old(self).frames@,
            final(self).tags@ == old(self).tags@,
            World::same_ctx(*old(self), *final(self)),
            r <==> sum_balances(old(self).accounts@) + amount.as_nat()
                < 0x10000000000000000000000000000000000000000000000000000000000000000,
            r ==> bal_of(final(self).accounts@, a) == bal_of(old(self).accounts@, a)
                + amount.as_nat(),
            r ==> forall|b: Address|
                b != a ==> bal_of(final(self).accounts@, b) == bal_of(old(self).accounts@, b),
            r ==> sum_balances(final(self).accounts@) == sum_balances(old(self).accounts@)
                + amount.as_nat(),
            r ==> has_account(final(self).accounts@, a),
            !r ==> *final(self) == *old(self),
    {
        let t2 = match self.total.checked_add(amount) {
            Some(t2) => t2,
            None => {
                return false;
            },
        };
        match self.find_account(a) {
            Some(i) => {
                proof {
                    lemma_bal_of_index(self.accounts@, a, i as int);
                    lemma_bal_le_sum(self.accounts@, a);
                }
                let e = self.accounts[i];
                let nb = match e.balance.checked_add(amount) {
                    Some(nb) => nb,
                    None => {
                        proof {
                            assert(false);
                        }
                        U256::zero()
                    },
                };
                let e2 = AccountEntry { addr: a, balance: nb, has_key: e.has_key };
                proof {
                    lemma_bal_of_update(self.accounts@, i as int, e2);
                    lemma_sum_update(self.accounts@, i as int, e2);
                }
                self.accounts.set(i, e2);
                self.total = t2;
                true
            },
            None => {
                let e = AccountEntry { addr: a, balance: amount, has_key: false };
                proof {
                    lemma_bal_of_absent(self.accounts@, a);
                    lemma_ledger_push(self.accounts@, e);
                }
                self.accounts.push(e);
                self.total = t2;
                true
            },
        }
    }

    /// Takes `amount` from one balance; refused, changing nothing, exactly
    /// when the balance is short.
    pub fn debit(&mut self, a: Address, amount: U256) -> (r: bool)
        ensures
            final(self).contracts@ == old(self).contracts@,
            final(self).storage@ == old(self).storage@,
            final(self).events@ == old(self).events@,
            final(self).frames@ == old(self).frames@,
            final(self).tags@ == old(self).tags@,
            final(self).total == old(self).total,
            World::same_ctx(*old(self), *final(self)),
            r <==> amount.as_nat() <= bal_of(old(self).accounts@, a),
            r ==> bal_of(final(self).accounts@, a) == bal_of(old(self).accounts@, a)
                - amount.as_nat(),
            r ==> forall|b: Address|
                b != a ==> bal_of(final(self).accounts@, b) == bal_of(old(self).accounts@, b),
            r ==> sum_balances(final(self).accounts@) + amount.as_nat() == sum_balances(
                old(self).accounts@,
            ),
            r ==> forall|b: Address|
                has_account(final(self).accounts@, b) == has_account(old(self).accounts@, b),
            !r ==> *final(self) == *old(self),
    {
        match self.find_account(a) {
            Some(i) => {
                proof {
                    lemma_bal_of_index(self.accounts@, a, i as int);
                }
                let e = self.accounts[i];
                match e.balance.checked_sub(amount) {
                    Some(nb) => {
                        let e2 = AccountEntry { addr: a, balance: nb, has_key: e.has_key };
                        proof {
                            lemma_bal_of_update(self.accounts@, i as int, e2);
                            lemma_sum_update(self.accounts@, i as int, e2);
                        }
                        self.accounts.set(i, e2);
                        true
                    },
                    None => false,
                }
            },
            None => {
                proof {
                    lemma_bal_of_absent(self.accounts@, a);
                }
                if amount.lt(U256::from_u64(1)) {
                    true
                } else {
                    false
                }
            },
        }
    }

    /// Adds `amount` to one balance, listing the address if needed. The
    /// caller accounts for the headroom.
    pub fn credit(&mut self, a: Address, amount: U256)
        requires
            bal_of(old(self).accounts@, a) + amount.as_nat()
                < 0x10000000000000000000000000000000000000000000000000000000000000000,
        ensures
            final(self).contracts@ == old(self).contracts@,
            final(self).storage@ == old(self).storage@,
            final(self).events@ == old(self).events@,
            final(self).frames@ == old(self).frames@,
            final(self).tags@ == old(self).tags@,
            final(self).total == old(self).total,
            World::same_ctx(*old(self), *final(self)),
            bal_of(final(self).accounts@, a) == bal_of(old(self).accounts@, a) + amount.as_nat(),
            forall|b: Address|
                b != a ==> bal_of(final(self).accounts@, b) == bal_of(old(self).accounts@, b),
            sum_balances(final(self).accounts@) == sum_balances(old(self).accounts@)
                + amount.as_nat(),
            has_account(final(self).accounts@, a),
            forall|b: Address|
                b != a ==> has_account(final(self).accounts@, b) == has_account(
                    old(self).accounts@,
                    b,
                ),
    {
        match self.find_account(a) {
            Some(i) => {
                proof {
                    lemma_bal_of_index(self.accounts@, a, i as int);
                }
                let e = self.accounts[i];
                let nb = match e.balance.checked_add(amount) {
                    Some(nb) => nb,
                    None => {
                        proof {
                            assert(false);
                        }
                        U256::zero()
                    },
                };
                let e2 = AccountEntry { addr: a, balance: nb, has_key: e.has_key };
                proof {
                    lemma_bal_of_update(self.accounts@, i as int, e2);
                    lemma_sum_update(self.accounts@, i as int, e2);
                }
                self.accounts.set(i, e2);
            },
            None => {
                let e = AccountEntry { addr: a, balance: amount, has_key: false };
                proof {
                    lemma_bal_of_absent(self.accounts@, a);
                    lemma_ledger_push(self.accounts@, e);
                }
                self.accounts.push(e);
            },
        }
    }

    /// Moves `v` from one balance to another, atomically: refused, changing
    /// nothing, exactly when the sender's balance is short.
    pub fn transfer(&mut self, from: Address, to: Address, v: U256) -> (r: bool)
        requires
            old(self).wf(),
        ensures
            final(self).wf(),
            final(self).contracts@ == old(self).contracts@,
            final(self).storage@ == old(self).storage@,
            final(self).events@ == old(self).events@,
            final(self).frames@ == old(self).frames@,
            final(self).tags@ == old(self).tags@,
            final(self).total == old(self).total,
            World::same_ctx(*old(self), *final(self)),
            r <==> v.as_nat() <= bal_of(old(self).accounts@, from),
            r ==> forall|b: Address|
                bal_of(final(self).accounts@, b) == transfer_bal(
                    old(self).accounts@,
                    from,
                    to,
                    v.as_nat(),
                    b,
                ),
            sum_balances(final(self).accounts@) == sum_balances(old(self).accounts@),
            !r ==> *final(self) == *old(self),
    {
        proof {
            lemma_bal_le_sum(self.accounts@, from);
            self.total.lemma_bound();
        }
        if !self.debit(from, v) {
            return false;
        }
        proof {
            lemma_bal_le_sum(self.accounts@, to);
        }
        self.credit(to, v);
        true
    }

    /// The index of the first storage cell of an address and key, if any.
    fn find_slot(&self, a: Address, k: U256) -> (r: Option<usize>)
        ensures
            match r {
                Some(i) => i < self.storage@.len() && self.storage@[i as int].addr == a
                    && self.storage@[i as int].key == k && forall|j: int|
                    0 <= j < i ==> !(self.storage@[j].addr == a && self.storage@[j].key == k),
                None => forall|j: int|
                    0 <= j < self.storage@.len() ==> !(self.storage@[j].addr == a
                        && self.storage@[j].key == k),
            },
    {
        let n = self.storage.len();
        let mut i: usize = 0;
        while i < n
            invariant
                i <= n,
                n == self.storage@.len(),
                forall|j: int|
                    0 <= j < i ==> !(self.storage@[j].addr == a && self.storage@[j].key == k),
            decreases n - i,
        {
            let e = self.storage[i];
            if e.addr == a && e.key == k {
                return Some(i);
            }
            i = i + 1;
        }
        None
    }

    /// Reads one storage cell of one contract; all-zero when never written.
    pub fn slot_get(&self, a: Address, k: U256) -> (r: U256)
        ensures
            r == slot_of(self.storage@, a, k),
    {
        match self.find_slot(a, k) {
            Some(i) => {
                proof {
                    lemma_slot_of_index(self.storage@, a, k, i as int);
                }
                self.storage[i].val
            },
            None => {
                proof {
                    lemma_slot_of_absent(self.storage@, a, k);
                }
                U256::zero()
            },
        }
    }

    /// Writes one storage cell of one contract and nothing else.
    pub fn slot_set(&mut self, a: Address, k: U256, v: U256)
        ensures
            final(self).accounts@ == old(self).accounts@,
            final(self).contracts@ == old(self).contracts@,
            final(self).events@ == old(self).events@,
            final(self).frames@ == old(self).frames@,
            final(self).tags@ == old(self).tags@,
            final(self).total == old(self).total,
            World::same_ctx(*old(self), *final(self)),
            slot_of(final(self).storage@, a, k) == v,
            forall|b: Address, k2: U256|
                !(b == a && k2 == k) ==> slot_of(final(self).storage@, b, k2) == slot_of(
                    old(self).storage@,
                    b,
                    k2,
                ),
            old(self).wf() ==> final(self).wf(),
    {
        let e2 = SlotEntry { addr: a, key: k, val: v };
        match self.find_slot(a, k) {
            Some(i) => {
                proof {
                    lemma_slot_of_update(self.storage@, i as int, e2);
                }
                self.storage.set(i, e2);
            },
            None => {
                proof {
                    lemma_slot_of_push(self.storage@, e2);
                }
                self.storage.push(e2);
            },
        }
    }

    /// Appends one event to the log, attributed to its emitting contract.
    pub fn emit(&mut self, a: Address, ev: Event)
        ensures
            final(self).accounts@ == old(self).accounts@,
            final(self).contracts@ == old(self).contracts@,
            final(self).storage@ == old(self).storage@,
            final(self).frames@ == old(self).frames@,
            final(self).tags@ == old(self).tags@,
            final(self).total == old(self).total,
            World::same_ctx(*old(self), *final(self)),
            log_view(final(self).events@) == log_view(old(self).events@).push(
                EventView { emitter: a, topic: ev.topic, fields: ev.fields@ },
            ),
            old(self).wf() ==> final(self).wf(),
    {
        let ghost target = EventView { emitter: a, topic: ev.topic, fields: ev.fields@ };
        let rec = EventRecord { emitter: a, ev };
        proof {
            assert(record_view(rec) =~= target);
        }
        self.events.push(rec);
        proof {
            assert(log_view(self.events@) =~= log_view(old(self).events@).push(target));
        }
    }

    /// Whether an event with exactly these fields was logged by `a`.
    pub fn emitted(&self, a: Address, e: &Event) -> (r: bool)
        ensures
            r == emitted_in(
                log_view(self.events@),
                EventView { emitter: a, topic: e.topic, fields: e.fields@ },
            ),
    {
        let ghost target = EventView { emitter: a, topic: e.topic, fields: e.fields@ };
        let n = self.events.len();
        let mut i: usize = 0;
        while i < n
            invariant
                i <= n,
                n == self.events@.len(),
                target == (EventView { emitter: a, topic: e.topic, fields: e.fields@ }),
                forall|j: int| 0 <= j < i ==> log_view(self.events@)[j] != target,
            decreases n - i,
        {
            let rec = &self.events[i];
            if rec.emitter == a && rec.ev.matches(e) {
                proof {
                    assert(log_view(self.events@)[i as int] =~= target);
                }
                return true;
            }
            proof {
                assert(log_view(self.events@)[i as int] != target);
            }
            i = i + 1;
        }
        false
    }

    /// The chain identifier host call.
    pub fn chain_id(&self) -> (r: u64)
        ensures
            r == self.chain_id,
    {
        self.chain_id
    }

    /// Overrides the chain identifier until the test ends.
    pub fn set_chain_id(&mut self, x: u64)
        ensures
            *final(self) == (World { chain_id: x, ..*old(self) }),
    {
        self.chain_id = x;
    }

    /// The block number host call.
    pub fn block_number(&self) -> (r: u64)
        ensures
            r == self.block_number,
    {
        self.block_number
    }

    /// Overrides the block number until the test ends.
    pub fn set_block_number(&mut self, x: u64)
        ensures
            *final(self) == (World { block_number: x, ..*old(self) }),
    {
        self.block_number = x;
    }

    /// The block timestamp host call.
    pub fn block_timestamp(&self) -> (r: u64)
        ensures
            r == self.block_timestamp,
    {
        self.block_timestamp
    }

    /// Overrides the block timestamp until the test ends.
    pub fn set_block_timestamp(&mut self, x: u64)
        ensures
            *final(self) == (World { block_timestamp: x, ..*old(self) }),
    {
        self.block_timestamp = x;
    }

    /// The sender the current call frame gives `msg.sender`; `None` outside
    /// any call.
    pub fn sender(&self) -> (r: Option<Address>)
        ensures
            r == if self.frames@.len() > 0 {
                Some(self.frames@.last().caller)
            } else {
                None::<Address>
            },
    {
        let n = self.frames.len();
        if n > 0 {
            Some(self.frames[n - 1].caller)
        } else {
            None
        }
    }

    /// The value the current call frame gives `msg.value`; `None` outside
    /// any call.
    pub fn value(&self) -> (r: Option<U256>)
        ensures
            r == if self.frames@.len() > 0 {
                Some(self.frames@.last().value)
            } else {
                None::<U256>
            },
    {
        let n = self.frames.len();
        if n > 0 {
            Some(self.frames[n - 1].value)
        } else {
            None
        }
    }

    /// How many calls are active; the reentrancy depth is one less.
    pub fn depth(&self) -> (r: usize)
        ensures
            r == self.frames@.len(),
    {
        self.frames.len()
    }

    /// The index of the first contract entry of an address, if any.
    fn find_contract(&self, a: Address) -> (r: Option<usize>)
        ensures
            match r {
                Some(i) => i < self.contracts@.len() && self.contracts@[i as int].addr == a
                    && forall|j: int| 0 <= j < i ==> self.contracts@[j].addr != a,
                None => forall|j: int|
                    0 <= j < self.contracts@.len() ==> self.contracts@[j].addr != a,
            },
    {
        let n = self.contracts.len();
        let mut i: usize = 0;
        while i < n
            invariant
                i <= n,
                n == self.contracts@.len(),
                forall|j: int| 0 <= j < i ==> self.contracts@[j].addr != a,
            decreases n - i,
        {
            if self.contracts[i].addr == a {
                return Some(i);
            }
            i = i + 1;
        }
        None
    }

    /// The method table registered at an address, if any.
    pub fn contract_kind(&self, a: Address) -> (r: Option<ContractKind>)
        ensures
            r == kind_of(self.contracts@, a),
    {
        match self.find_contract(a) {
            Some(i) => {
                proof {
                    lemma_kind_of_index(self.contracts@, a, i as int);
                }
                Some(self.contracts[i].kind)
            },
            None => {
                proof {
                    lemma_kind_of_absent(self.contracts@, a);
                }
                None
            },
        }
    }

    /// Registers a contract at an explicit address with a fresh storage; the
    /// address must be free.
    pub fn deploy_at(&mut self, a: Address, kind: ContractKind) -> (r: Option<ContractHandle>)
        ensures
            final(self).accounts@ == old(self).accounts@,
            final(self).storage@ == old(self).storage@,
            final(self).events@ == old(self).events@,
            final(self).frames@ == old(self).frames@,
            final(self).tags@ == old(self).tags@,
            final(self).total == old(self).total,
            World::same_ctx(*old(self), *final(self)),
            r is Some <==> kind_of(old(self).contracts@, a) is None,
            r is Some ==> r->Some_0 == (ContractHandle { addr: a, kind }),
            r is Some ==> kind_of(final(self).contracts@, a) == Some(kind),
            forall|b: Address|
                b != a ==> kind_of(final(self).contracts@, b) == kind_of(old(self).contracts@, b),
            r is None ==> *final(self) == *old(self),
            old(self).wf() ==> final(self).wf(),
    {
        match self.find_contract(a) {
            Some(i) => {
                proof {
                    lemma_kind_of_index(self.contracts@, a, i as int);
                }
                None
            },
            None => {
                let e = ContractEntry { addr: a, kind };
                proof {
                    lemma_kind_of_absent(self.contracts@, a);
                    lemma_contracts_push(self.contracts@, e);
                }
                self.contracts.push(e);
                Some(ContractHandle { addr: a, kind })
            },
        }
    }

    /// Remembers which tag derived an address, for diagnostics.
    fn record_tag(&mut self, tag: &str, a: Address)
        ensures
            final(self).accounts@ == old(self).accounts@,
            final(self).contracts@ == old(self).contracts@,
            final(self).storage@ == old(self).storage@,
            final(self).events@ == old(self).events@,
            final(self).frames@ == old(self).frames@,
            final(self).total == old(self).total,
            World::same_ctx(*old(self), *final(self)),
            old(self).wf() ==> final(self).wf(),
    {
        let t = TagEntry { tag: String::from_str(tag), addr: a };
        self.tags.push(t);
    }

    /// The fixture resolution for an `Address` parameter: the tag-derived
    /// address, remembered for diagnostics.
    pub fn address_from_tag(&mut self, tag: &str) -> (r: Address)
        ensures
            r == tag_address_of(tag@),
            final(self).accounts@ == old(self).accounts@,
            final(self).contracts@ == old(self).contracts@,
            final(self).storage@ == old(self).storage@,
            final(self).events@ == old(self).events@,
            final(self).frames@ == old(self).frames@,
            final(self).total == old(self).total,
            World::same_ctx(*old(self), *final(self)),
            old(self).wf() ==> final(self).wf(),
    {
        let a = address_of(tag);
        self.record_tag(tag, a);
        a
    }

    /// The fixture resolution for an `Account` parameter: the address of the
    /// tag's signing key, listed in the ledger with key material.
    pub fn account_from_tag(&mut self, tag: &str) -> (r: Address)
        ensures
            r == tag_key_address_of(tag@),
            final(self).contracts@ == old(self).contracts@,
            final(self).storage@ == old(self).storage@,
            final(self).events@ == old(self).events@,
            final(self).frames@ == old(self).frames@,
            final(self).total == old(self).total,
            World::same_ctx(*old(self), *final(self)),
            forall|b: Address| bal_of(final(self).accounts@, b) == bal_of(old(self).accounts@, b),
            sum_balances(final(self).accounts@) == sum_balances(old(self).accounts@),
            has_account(final(self).accounts@, r),
            has_account(old(self).accounts@, r) || keyed(final(self).accounts@, r),
            old(self).wf() ==> final(self).wf(),
    {
        let a = account_address_of(tag);
        self.record_tag(tag, a);
        self.ensure_account(a, true);
        a
    }

    /// The fixture resolution for a contract parameter: deploys the method
    /// table at the tag-derived address; the address must be free.
    pub fn contract_from_tag(&mut self, tag: &str, kind: ContractKind) -> (r: Option<
        ContractHandle,
    >)
        ensures
            final(self).accounts@ == old(self).accounts@,
            final(self).storage@ == old(self).storage@,
            final(self).events@ == old(self).events@,
            final(self).frames@ == old(self).frames@,
            final(self).total == old(self).total,
            World::same_ctx(*old(self), *final(self)),
            r is Some <==> kind_of(old(self).contracts@, tag_address_of(tag@)) is None,
            r is Some ==> r->Some_0 == (ContractHandle { addr: tag_address_of(tag@), kind }),
            r is Some ==> kind_of(final(self).contracts@, tag_address_of(tag@)) == Some(kind),
            forall|b: Address|
                b != tag_address_of(tag@) ==> kind_of(final(self).contracts@, b) == kind_of(
                    old(self).contracts@,
                    b,
                ),
            old(self).wf() ==> final(self).wf(),
    {
        let a = address_of(tag);
        self.record_tag(tag, a);
        self.deploy_at(a, kind)
    }
}

/// An element-for-element copy of a vector of plain values.
pub(crate) fn copy_vec<T: Copy>(v: &Vec<T>) -> (r: Vec<T>)
    ensures
        r@ == v@,
{
    let n = v.len();
    let mut r: Vec<T> = Vec::new();
    let mut i: usize = 0;
    while i < n
        invariant
            i <= n,
            n == v@.len(),
            r@ == v@.subrange(0, i as int),
        decreases n - i,
    {
        r.push(v[i]);
        proof {
            assert(r@ =~= v@.subrange(0, i + 1 as int));
        }
        i = i + 1;
    }
    proof {
        assert(r@ =~= v@);
    }
    r
}

} // verus!
