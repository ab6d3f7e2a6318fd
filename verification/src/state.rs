//! The persistent state a simulated chain holds: the account ledger, the
//! per-contract slot storage, and the registered contracts, each modelled as
//! an association list read by first match.

use vstd::prelude::*;
use crate::addr::Address;
use crate::word::U256;
use crate::samples::ContractKind;

verus! {

/// One ledger entry: an address, its native-token balance, and whether the
/// account was created with signing key material.
#[derive(Clone, Copy, PartialEq, Eq, Structural, Debug)]
pub struct AccountEntry {
    pub addr: Address,
    pub balance: U256,
    pub has_key: bool,
}

/// One storage cell: a contract address, a 256-bit key and its value.
#[derive(Clone, Copy, PartialEq, Eq, Structural, Debug)]
pub struct SlotEntry {
    pub addr: Address,
    pub key: U256,
    pub val: U256,
}

/// One registered contract: its address and its method table identifier.
#[derive(Clone, Copy, PartialEq, Eq, Structural, Debug)]
pub struct ContractEntry {
    pub addr: Address,
    pub kind: ContractKind,
}

/// The balance the ledger gives an address; zero when unlisted.
pub open spec fn bal_of(l: Seq<AccountEntry>, a: Address) -> nat
    decreases l.len(),
{
    if l.len() == 0 {
        0
    } else if l[0].addr == a {
        l[0].balance.as_nat()
    } else {
        bal_of(l.drop_first(), a)
    }
}

/// Whether the ledger lists an address.
pub open spec fn has_account(l: Seq<AccountEntry>, a: Address) -> bool
    decreases l.len(),
{
    if l.len() == 0 {
        false
    } else {
        l[0].addr == a || has_account(l.drop_first(), a)
    }
}

/// Whether the ledger entry of an address carries signing key material.
pub open spec fn keyed(l: Seq<AccountEntry>, a: Address) -> bool
    decreases l.len(),
{
    if l.len() == 0 {
        false
    } else if l[0].addr == a {
        l[0].has_key
    } else {
        keyed(l.drop_first(), a)
    }
}

/// The sum of every balance in the ledger.
pub open spec fn sum_balances(l: Seq<AccountEntry>) -> nat
    decreases l.len(),
{
    if l.len() == 0 {
        0
    } else {
        l[0].balance.as_nat() + sum_balances(l.drop_first())
    }
}

/// The value a storage cell holds; all-zero when never written.
pub open spec fn slot_of(s: Seq<SlotEntry>, a: Address, k: U256) -> U256
    decreases s.len(),
{
    if s.len() == 0 {
        U256 { l0: 0, l1: 0, l2: 0, l3: 0 }
    } else if s[0].addr == a && s[0].key == k {
        s[0].val
    } else {
        slot_of(s.drop_first(), a, k)
    }
}

/// The method table registered at an address, if any.
pub open spec fn kind_of(c: Seq<ContractEntry>, a: Address) -> Option<ContractKind>
    decreases c.len(),
{
    if c.len() == 0 {
        None
    } else if c[0].addr == a {
        Some(c[0].kind)
    } else {
        kind_of(c.drop_first(), a)
    }
}

/// A first match at index `i` fixes the looked-up balance.
pub proof fn lemma_bal_of_index(l: Seq<AccountEntry>, a: Address, i: int)
    requires
        0 <= i < l.len(),
        l[i].addr == a,
        forall|j: int| 0 <= j < i ==> l[j].addr != a,
    ensures
        bal_of(l, a) == l[i].balance.as_nat(),
        has_account(l, a),
        keyed(l, a) == l[i].has_key,
    decreases i,
{
    if i == 0 {
    } else {
        lemma_bal_of_index(l.drop_first(), a, i - 1);
    }
}

/// With no match anywhere the looked-up balance is zero.
pub proof fn lemma_bal_of_absent(l: Seq<AccountEntry>, a: Address)
    requires
        forall|j: int| 0 <= j < l.len() ==> l[j].addr != a,
    ensures
        bal_of(l, a) == 0,
        !has_account(l, a),
        !keyed(l, a),
    decreases l.len(),
{
    if l.len() > 0 {
        lemma_bal_of_absent(l.drop_first(), a);
    }
}

/// One address's view of replacing an entry whose address is unchanged.
pub proof fn lemma_bal_of_update_point(l: Seq<AccountEntry>, i: int, e: AccountEntry, b: Address)
    requires
        0 <= i < l.len(),
        e.addr == l[i].addr,
        forall|j: int| 0 <= j < i ==> l[j].addr != l[i].addr,
    ensures
        b == l[i].addr ==> bal_of(l.update(i, e), b) == e.balance.as_nat(),
        b != l[i].addr ==> bal_of(l.update(i, e), b) == bal_of(l, b),
        has_account(l.update(i, e), b) == has_account(l, b),
    decreases i,
{
    if i == 0 {
        assert(l.update(0, e).drop_first() =~= l.drop_first());
    } else {
        lemma_bal_of_update_point(l.drop_first(), i - 1, e, b);
        assert(l.update(i, e).drop_first() =~= l.drop_first().update(i - 1, e));
        assert(l.update(i, e)[0] == l[0]);
    }
}

/// Replacing the first matching entry moves the looked-up balance to the new
/// entry's and leaves every other address's balance alone.
pub proof fn lemma_bal_of_update(l: Seq<AccountEntry>, i: int, e: AccountEntry)
    requires
        0 <= i < l.len(),
        e.addr == l[i].addr,
        forall|j: int| 0 <= j < i ==> l[j].addr != l[i].addr,
    ensures
        bal_of(l.update(i, e), l[i].addr) == e.balance.as_nat(),
        forall|b: Address| b != l[i].addr ==> bal_of(l.update(i, e), b) == bal_of(l, b),
        forall|b: Address| has_account(l.update(i, e), b) == has_account(l, b),
{
    assert forall|b: Address| b != l[i].addr implies bal_of(l.update(i, e), b) == bal_of(
        l,
        b,
    ) by {
        lemma_bal_of_update_point(l, i, e, b);
    };
    assert forall|b: Address| has_account(l.update(i, e), b) == has_account(l, b) by {
        lemma_bal_of_update_point(l, i, e, b);
    };
    lemma_bal_of_update_point(l, i, e, l[i].addr);
}

/// Replacing one entry by one with the same address shifts the ledger sum by
/// exactly the change of that entry's balance.
pub proof fn lemma_sum_update(l: Seq<AccountEntry>, i: int, e: AccountEntry)
    requires
        0 <= i < l.len(),
    ensures
        sum_balances(l.update(i, e)) + l[i].balance.as_nat() == sum_balances(l)
            + e.balance.as_nat(),
    decreases i,
{
    if i == 0 {
        assert(l.update(0, e).drop_first() =~= l.drop_first());
    } else {
        lemma_sum_update(l.drop_first(), i - 1, e);
        assert(l.update(i, e).drop_first() =~= l.drop_first().update(i - 1, e));
    }
}

/// One address's view of appending an entry.
pub proof fn lemma_ledger_push_point(l: Seq<AccountEntry>, e: AccountEntry, b: Address)
    ensures
        sum_balances(l.push(e)) == sum_balances(l) + e.balance.as_nat(),
        b != e.addr ==> bal_of(l.push(e), b) == bal_of(l, b),
        b != e.addr ==> has_account(l.push(e), b) == has_account(l, b),
        b != e.addr ==> keyed(l.push(e), b) == keyed(l, b),
        !has_account(l, e.addr) ==> bal_of(l.push(e), e.addr) == e.balance.as_nat(),
        !has_account(l, e.addr) ==> keyed(l.push(e), e.addr) == e.has_key,
        has_account(l.push(e), e.addr),
    decreases l.len(),
{
    if l.len() == 0 {
        assert(l.push(e).drop_first() =~= Seq::<AccountEntry>::empty());
        assert(l.push(e)[0] == e);
        assert(l.push(e).len() == 1);
        assert(sum_balances(l.push(e).drop_first()) == 0);
        assert(bal_of(l.push(e).drop_first(), b) == 0);
        assert(!has_account(l.push(e).drop_first(), b));
        assert(!keyed(l.push(e).drop_first(), b));
        assert(!keyed(l.push(e).drop_first(), e.addr));
        assert(bal_of(l.push(e).drop_first(), e.addr) == 0);
    } else {
        lemma_ledger_push_point(l.drop_first(), e, b);
        assert(l.push(e).drop_first() =~= l.drop_first().push(e));
        assert(l.push(e)[0] == l[0]);
        assert(l.push(e).len() == l.len() + 1);
        assert(sum_balances(l.push(e)) == l[0].balance.as_nat() + sum_balances(
            l.drop_first().push(e),
        ));
        if l[0].addr != b {
            assert(bal_of(l.push(e), b) == bal_of(l.drop_first().push(e), b));
            assert(bal_of(l, b) == bal_of(l.drop_first(), b));
        }
        assert(sum_balances(l) == l[0].balance.as_nat() + sum_balances(l.drop_first()));
        assert(sum_balances(l.push(e)) == sum_balances(l) + e.balance.as_nat());
        assert(b != e.addr ==> bal_of(l.push(e), b) == bal_of(l, b));
        assert(b != e.addr ==> has_account(l.push(e), b) == has_account(l, b));
    }
}

/// Appending an entry adds its balance to the sum; lookups of other
/// addresses are unchanged, and a lookup of a previously unlisted address
/// finds the new entry.
pub proof fn lemma_ledger_push(l: Seq<AccountEntry>, e: AccountEntry)
    ensures
        sum_balances(l.push(e)) == sum_balances(l) + e.balance.as_nat(),
        forall|b: Address| b != e.addr ==> bal_of(l.push(e), b) == bal_of(l, b),
        forall|b: Address| b != e.addr ==> has_account(l.push(e), b) == has_account(l, b),
        forall|b: Address| b != e.addr ==> keyed(l.push(e), b) == keyed(l, b),
        !has_account(l, e.addr) ==> bal_of(l.push(e), e.addr) == e.balance.as_nat(),
        !has_account(l, e.addr) ==> keyed(l.push(e), e.addr) == e.has_key,
        has_account(l.push(e), e.addr),
{
    assert forall|b: Address| b != e.addr implies bal_of(l.push(e), b) == bal_of(l, b)
        && has_account(l.push(e), b) == has_account(l, b) && keyed(l.push(e), b) == keyed(
        l,
        b,
    ) by {
        lemma_ledger_push_point(l, e, b);
    };
    lemma_ledger_push_point(l, e, e.addr);
}

/// No single balance exceeds the ledger sum.
pub proof fn lemma_bal_le_sum(l: Seq<AccountEntry>, a: Address)
    ensures
        bal_of(l, a) <= sum_balances(l),
    decreases l.len(),
{
    if l.len() > 0 {
        lemma_bal_le_sum(l.drop_first(), a);
    }
}

/// A first match at index `i` fixes the looked-up slot value.
pub proof fn lemma_slot_of_index(s: Seq<SlotEntry>, a: Address, k: U256, i: int)
    requires
        0 <= i < s.len(),
        s[i].addr == a && s[i].key == k,
        forall|j: int| 0 <= j < i ==> !(s[j].addr == a && s[j].key == k),
    ensures
        slot_of(s, a, k) == s[i].val,
    decreases i,
{
    if i == 0 {
    } else {
        lemma_slot_of_index(s.drop_first(), a, k, i - 1);
    }
}

/// With no match anywhere the cell reads as all zero.
pub proof fn lemma_slot_of_absent(s: Seq<SlotEntry>, a: Address, k: U256)
    requires
        forall|j: int| 0 <= j < s.len() ==> !(s[j].addr == a && s[j].key == k),
    ensures
        slot_of(s, a, k) == (U256 { l0: 0, l1: 0, l2: 0, l3: 0 }),
    decreases s.len(),
{
    if s.len() > 0 {
        lemma_slot_of_absent(s.drop_first(), a, k);
    }
}

/// One cell's view of replacing a cell whose address and key are unchanged.
pub proof fn lemma_slot_of_update_point(s: Seq<SlotEntry>, i: int, e: SlotEntry, b: Address, k2: U256)
    requires
        0 <= i < s.len(),
        e.addr == s[i].addr && e.key == s[i].key,
        forall|j: int| 0 <= j < i ==> !(s[j].addr == s[i].addr && s[j].key == s[i].key),
    ensures
        b == s[i].addr && k2 == s[i].key ==> slot_of(s.update(i, e), b, k2) == e.val,
        !(b == s[i].addr && k2 == s[i].key) ==> slot_of(s.update(i, e), b, k2) == slot_of(
            s,
            b,
            k2,
        ),
    decreases i,
{
    if i == 0 {
        assert(s.update(0, e).drop_first() =~= s.drop_first());
    } else {
        lemma_slot_of_update_point(s.drop_first(), i - 1, e, b, k2);
        assert(s.update(i, e).drop_first() =~= s.drop_first().update(i - 1, e));
        assert(s.update(i, e)[0] == s[0]);
    }
}

/// Replacing the first matching cell rewrites that cell's value and leaves
/// every other cell's value alone.
pub proof fn lemma_slot_of_update(s: Seq<SlotEntry>, i: int, e: SlotEntry)
    requires
        0 <= i < s.len(),
        e.addr == s[i].addr && e.key == s[i].key,
        forall|j: int| 0 <= j < i ==> !(s[j].addr == s[i].addr && s[j].key == s[i].key),
    ensures
        slot_of(s.update(i, e), s[i].addr, s[i].key) == e.val,
        forall|b: Address, k2: U256|
            !(b == s[i].addr && k2 == s[i].key) ==> slot_of(s.update(i, e), b, k2) == slot_of(
                s,
                b,
                k2,
            ),
{
    assert forall|b: Address, k2: U256|
        !(b == s[i].addr && k2 == s[i].key) implies slot_of(s.update(i, e), b, k2) == slot_of(
        s,
        b,
        k2,
    ) by {
        lemma_slot_of_update_point(s, i, e, b, k2);
    };
    lemma_slot_of_update_point(s, i, e, s[i].addr, s[i].key);
}

/// One cell's view of appending a cell.
pub proof fn lemma_slot_of_push_point(s: Seq<SlotEntry>, e: SlotEntry, b: Address, k2: U256)
    ensures
        !(b == e.addr && k2 == e.key) ==> slot_of(s.push(e), b, k2) == slot_of(s, b, k2),
        (forall|j: int| 0 <= j < s.len() ==> !(s[j].addr == e.addr && s[j].key == e.key))
            ==> slot_of(s.push(e), e.addr, e.key) == e.val,
    decreases s.len(),
{
    if s.len() == 0 {
        assert(s.push(e).drop_first() =~= Seq::<SlotEntry>::empty());
        assert(s.push(e)[0] == e);
        assert(slot_of(s.push(e).drop_first(), b, k2) == (U256 { l0: 0, l1: 0, l2: 0, l3: 0 }));
        assert(slot_of(s.push(e).drop_first(), e.addr, e.key) == (U256 {
            l0: 0,
            l1: 0,
            l2: 0,
            l3: 0,
        }));
    } else {
        lemma_slot_of_push_point(s.drop_first(), e, b, k2);
        assert(s.push(e).drop_first() =~= s.drop_first().push(e));
        assert(s.push(e)[0] == s[0]);
    }
}

/// Appending a cell for a never-written key gives that key its value and
/// leaves every other cell's value alone.
pub proof fn lemma_slot_of_push(s: Seq<SlotEntry>, e: SlotEntry)
    ensures
        forall|b: Address, k2: U256|
            !(b == e.addr && k2 == e.key) ==> slot_of(s.push(e), b, k2) == slot_of(s, b, k2),
        (forall|j: int| 0 <= j < s.len() ==> !(s[j].addr == e.addr && s[j].key == e.key))
            ==> slot_of(s.push(e), e.addr, e.key) == e.val,
{
    assert forall|b: Address, k2: U256|
        !(b == e.addr && k2 == e.key) implies slot_of(s.push(e), b, k2) == slot_of(s, b, k2) by {
        lemma_slot_of_push_point(s, e, b, k2);
    };
    lemma_slot_of_push_point(s, e, e.addr, e.key);
}

/// A first match at index `i` fixes the looked-up contract kind.
pub proof fn lemma_kind_of_index(c: Seq<ContractEntry>, a: Address, i: int)
    requires
        0 <= i < c.len(),
        c[i].addr == a,
        forall|j: int| 0 <= j < i ==> c[j].addr != a,
    ensures
        kind_of(c, a) == Some(c[i].kind),
    decreases i,
{
    if i == 0 {
    } else {
        lemma_kind_of_index(c.drop_first(), a, i - 1);
    }
}

/// With no match anywhere no contract is registered at the address.
pub proof fn lemma_kind_of_absent(c: Seq<ContractEntry>, a: Address)
    requires
        forall|j: int| 0 <= j < c.len() ==> c[j].addr != a,
    ensures
        kind_of(c, a) is None,
    decreases c.len(),
{
    if c.len() > 0 {
        lemma_kind_of_absent(c.drop_first(), a);
    }
}

/// One address's view of appending a contract entry.
pub proof fn lemma_contracts_push_point(c: Seq<ContractEntry>, e: ContractEntry, b: Address)
    ensures
        b != e.addr ==> kind_of(c.push(e), b) == kind_of(c, b),
        kind_of(c, e.addr) is None ==> kind_of(c.push(e), e.addr) == Some(e.kind),
    decreases c.len(),
{
    if c.len() == 0 {
        assert(c.push(e).drop_first() =~= Seq::<ContractEntry>::empty());
        assert(c.push(e)[0] == e);
        assert(kind_of(c.push(e).drop_first(), b) is None);
    } else {
        lemma_contracts_push_point(c.drop_first(), e, b);
        assert(c.push(e).drop_first() =~= c.drop_first().push(e));
        assert(c.push(e)[0] == c[0]);
    }
}

/// Appending a contract entry registers it when the address was free and
/// changes no other address's registration.
pub proof fn lemma_contracts_push(c: Seq<ContractEntry>, e: ContractEntry)
    ensures
        forall|b: Address| b != e.addr ==> kind_of(c.push(e), b) == kind_of(c, b),
        kind_of(c, e.addr) is None ==> kind_of(c.push(e), e.addr) == Some(e.kind),
{
    assert forall|b: Address| b != e.addr implies kind_of(c.push(e), b) == kind_of(c, b) by {
        lemma_contracts_push_point(c, e, b);
    };
    lemma_contracts_push_point(c, e, e.addr);
}

} // verus!
