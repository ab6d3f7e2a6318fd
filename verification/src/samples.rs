//! The sample contracts the harness ships for its tests: a vault holding a
//! stored balance, a value holder, a proxy that forwards to an
//! implementation address, and a chain-id reader. Each kind's observable
//! behaviour is pinned by a postcondition predicate the router's contract
//! carries.

use vstd::prelude::*;
use crate::addr::{Address, word_to_addr_spec};
use crate::word::U256;
use crate::event::{Event, EventView, Field};
use crate::state::{SlotEntry, slot_of};

verus! {

/// The method table a registered contract answers to.
#[derive(Clone, Copy, PartialEq, Eq, Structural, Debug)]
pub enum ContractKind {
    Vault,
    MyContract,
    Proxy,
    ChainAware,
    Token,
}

/// The methods the sample contracts expose.
#[derive(Clone, Copy, PartialEq, Eq, Structural, Debug)]
pub enum Method {
    IncreaseBalance,
    DecreaseBalance,
    GetBalance,
    Deposit,
    SetValue,
    GetValue,
    SetImplementation,
    GetChainId,
    Mint,
    TotalSupply,
    BalanceOf,
    Transfer,
}

/// One call argument or return value.
#[derive(Clone, Copy, PartialEq, Eq, Structural, Debug)]
pub enum Arg {
    A(Address),
    W(U256),
}

/// A typed error a sample contract reverts with.
#[derive(Clone, Copy, PartialEq, Eq, Structural, Debug)]
pub enum TypedError {
    BalanceUnderflow { balance: U256, needed: U256 },
    BalanceOverflow { balance: U256, added: U256 },
    InsufficientTokenBalance { sender: Address, balance: U256, needed: U256 },
    InnerCallFailed,
}

/// How a dispatched call can fail: a typed revert from the contract, or a
/// harness-level refusal raised before the method body runs.
#[derive(Clone, Copy, PartialEq, Eq, Structural, Debug)]
pub enum CallError {
    Reverted(TypedError),
    InsufficientBalance,
    NonPayableCallWithValue,
    UnknownContract,
    UnknownMethod,
    BadArguments,
    DepthExceeded,
}

/// The event identifier of the vault's deposit notice.
pub const TOPIC_DEPOSITED: u64 = 1;

/// The event identifier of the token's transfer notice.
pub const TOPIC_TRANSFER: u64 = 2;

/// The storage key of each contract's first slot.
pub open spec fn key_zero() -> U256 {
    U256 { l0: 0, l1: 0, l2: 0, l3: 0 }
}

/// The storage key under which the token keeps one holder's balance: the
/// address's fields spelled into the low limbs. Token keys of distinct
/// holders are distinct, and all stay apart from the supply key.
pub open spec fn token_balance_key(a: Address) -> U256 {
    U256 { l0: a.lo as u64, l1: a.mid, l2: a.hi, l3: 0 }
}

/// The storage key under which the token keeps its total supply.
pub open spec fn token_supply_key() -> U256 {
    U256 { l0: 0, l1: 0, l2: 0, l3: 1 }
}

/// The balance key of one holder, for the token's method table.
pub fn token_balance_key_of(a: Address) -> (r: U256)
    ensures
        r == token_balance_key(a),
{
    U256 { l0: a.lo as u64, l1: a.mid, l2: a.hi, l3: 0 }
}

/// The supply key, for the token's method table.
pub fn token_supply_key_of() -> (r: U256)
    ensures
        r == token_supply_key(),
{
    U256 { l0: 0, l1: 0, l2: 0, l3: 1 }
}

/// Distinct holders keep their balances under distinct keys.
pub proof fn lemma_token_key_injective(a1: Address, a2: Address)
    requires
        token_balance_key(a1) == token_balance_key(a2),
    ensures
        a1 == a2,
{
}

/// The account every minted amount is reported as coming from.
pub open spec fn zero_address() -> Address {
    Address { hi: 0, mid: 0, lo: 0 }
}

/// Whether a kind answers a method at all.
pub open spec fn method_known(kind: ContractKind, m: Method) -> bool {
    match kind {
        ContractKind::Vault => m == Method::IncreaseBalance || m == Method::DecreaseBalance || m
            == Method::GetBalance || m == Method::Deposit,
        ContractKind::MyContract => m == Method::SetValue || m == Method::GetValue,
        ContractKind::Proxy => m == Method::SetImplementation || m == Method::SetValue,
        ContractKind::ChainAware => m == Method::GetChainId,
        ContractKind::Token => m == Method::Mint || m == Method::TotalSupply || m
            == Method::BalanceOf || m == Method::Transfer,
    }
}

/// Whether a method may legally receive a non-zero value.
pub open spec fn is_payable(kind: ContractKind, m: Method) -> bool {
    kind == ContractKind::Vault && m == Method::Deposit
}

/// The argument shape each method expects.
pub open spec fn args_ok(m: Method, args: Seq<Arg>) -> bool {
    match m {
        Method::IncreaseBalance => args.len() == 1 && args[0] is W,
        Method::DecreaseBalance => args.len() == 1 && args[0] is W,
        Method::GetBalance => args.len() == 0,
        Method::Deposit => args.len() == 0,
        Method::SetValue => args.len() == 1 && args[0] is W,
        Method::GetValue => args.len() == 0,
        Method::SetImplementation => args.len() == 1 && args[0] is A,
        Method::GetChainId => args.len() == 0,
        Method::Mint => args.len() == 2 && args[0] is A && args[1] is W,
        Method::TotalSupply => args.len() == 0,
        Method::BalanceOf => args.len() == 1 && args[0] is A,
        Method::Transfer => args.len() == 2 && args[0] is A && args[1] is W,
    }
}

/// The word carried by one argument.
pub open spec fn arg_word(args: Seq<Arg>, i: int) -> U256 {
    match args[i] {
        Arg::W(v) => v,
        Arg::A(_) => U256 { l0: 0, l1: 0, l2: 0, l3: 0 },
    }
}

/// The address carried by one argument.
pub open spec fn arg_addr(args: Seq<Arg>, i: int) -> Address {
    match args[i] {
        Arg::A(a) => a,
        Arg::W(_) => Address { hi: 0, mid: 0, lo: 0 },
    }
}

/// Whether a kind answers a method at all.
pub fn method_known_exec(kind: ContractKind, m: Method) -> (r: bool)
    ensures
        r == method_known(kind, m),
{
    match kind {
        ContractKind::Vault => matches!(
            m,
            Method::IncreaseBalance | Method::DecreaseBalance | Method::GetBalance
                | Method::Deposit
        ),
        ContractKind::MyContract => matches!(m, Method::SetValue | Method::GetValue),
        ContractKind::Proxy => matches!(m, Method::SetImplementation | Method::SetValue),
        ContractKind::ChainAware => matches!(m, Method::GetChainId),
        ContractKind::Token => matches!(
            m,
            Method::Mint | Method::TotalSupply | Method::BalanceOf | Method::Transfer
        ),
    }
}

/// Whether a method may legally receive a non-zero value.
pub fn is_payable_exec(kind: ContractKind, m: Method) -> (r: bool)
    ensures
        r == is_payable(kind, m),
{
    kind == ContractKind::Vault && m == Method::Deposit
}

/// The argument shape each method expects.
pub fn args_ok_exec(m: Method, args: &Vec<Arg>) -> (r: bool)
    ensures
        r == args_ok(m, args@),
{
    match m {
        Method::IncreaseBalance | Method::DecreaseBalance | Method::SetValue => args.len() == 1
            && matches!(args[0], Arg::W(_)),
        Method::GetBalance | Method::Deposit | Method::GetValue | Method::GetChainId
            | Method::TotalSupply => args.len() == 0,
        Method::SetImplementation => args.len() == 1 && matches!(args[0], Arg::A(_)),
        Method::BalanceOf => args.len() == 1 && matches!(args[0], Arg::A(_)),
        Method::Mint | Method::Transfer => args.len() == 2 && matches!(args[0], Arg::A(_))
            && matches!(args[1], Arg::W(_)),
    }
}

/// The deposit notice the vault emits: who deposited and how much.
pub fn deposited_event(account: Address, value: U256) -> (r: Event)
    ensures
        r.topic == TOPIC_DEPOSITED,
        r.fields@ == seq![Field::Addr(account), Field::Word(value)],
{
    let mut fields: Vec<Field> = Vec::new();
    fields.push(Field::Addr(account));
    fields.push(Field::Word(value));
    proof {
        assert(fields@ =~= seq![Field::Addr(account), Field::Word(value)]);
    }
    Event { topic: TOPIC_DEPOSITED, fields }
}

/// The deposit notice as a log entry of the emitting vault.
pub open spec fn deposited_view(emitter: Address, account: Address, value: U256) -> EventView {
    EventView {
        emitter,
        topic: TOPIC_DEPOSITED,
        fields: seq![Field::Addr(account), Field::Word(value)],
    }
}

/// The transfer notice the token emits: from whom, to whom, how much.
pub fn transfer_event(from: Address, to: Address, value: U256) -> (r: Event)
    ensures
        r.topic == TOPIC_TRANSFER,
        r.fields@ == seq![Field::Addr(from), Field::Addr(to), Field::Word(value)],
{
    let mut fields: Vec<Field> = Vec::new();
    fields.push(Field::Addr(from));
    fields.push(Field::Addr(to));
    fields.push(Field::Word(value));
    proof {
        assert(fields@ =~= seq![Field::Addr(from), Field::Addr(to), Field::Word(value)]);
    }
    Event { topic: TOPIC_TRANSFER, fields }
}

/// The transfer notice as a log entry of the emitting token.
pub open spec fn transfer_view(emitter: Address, from: Address, to: Address, value: U256) -> EventView {
    EventView {
        emitter,
        topic: TOPIC_TRANSFER,
        fields: seq![Field::Addr(from), Field::Addr(to), Field::Word(value)],
    }
}

/// No storage cell changed.
pub open spec fn slots_unchanged(pre: Seq<SlotEntry>, post: Seq<SlotEntry>) -> bool {
    forall|b: Address, k: U256| slot_of(post, b, k) == slot_of(pre, b, k)
}

/// No storage cell changed but possibly the named one.
pub open spec fn slots_unchanged_except(
    pre: Seq<SlotEntry>,
    post: Seq<SlotEntry>,
    a: Address,
    k: U256,
) -> bool {
    forall|b: Address, k2: U256|
        !(b == a && k2 == k) ==> slot_of(post, b, k2) == slot_of(pre, b, k2)
}

/// No storage cell changed but possibly the two named ones.
pub open spec fn slots_unchanged_except_two(
    pre: Seq<SlotEntry>,
    post: Seq<SlotEntry>,
    a1: Address,
    k1: U256,
    a2: Address,
    k2: U256,
) -> bool {
    forall|b: Address, k: U256|
        !(b == a1 && k == k1) && !(b == a2 && k == k2) ==> slot_of(post, b, k) == slot_of(
            pre,
            b,
            k,
        )
}

/// The result of a dispatched method over mathematical values.
pub open spec fn res_view(r: Result<Vec<Arg>, TypedError>) -> Result<Seq<Arg>, TypedError> {
    match r {
        Ok(v) => Ok(v@),
        Err(e) => Err(e),
    }
}

/// What a vault method does: `GetBalance` returns the stored balance word;
/// `IncreaseBalance` adds to it, reverting on 256-bit overflow;
/// `DecreaseBalance` subtracts from it, reverting with the shortfall when it
/// would underflow; payable `Deposit` logs who sent how much. Only the
/// vault's first slot and its own log entries ever change.
pub open spec fn vault_post(
    pre_slots: Seq<SlotEntry>,
    post_slots: Seq<SlotEntry>,
    pre_log: Seq<EventView>,
    post_log: Seq<EventView>,
    self_addr: Address,
    sender: Address,
    value: U256,
    m: Method,
    args: Seq<Arg>,
    r: Result<Seq<Arg>, TypedError>,
) -> bool {
    let prev = slot_of(pre_slots, self_addr, key_zero());
    match m {
        Method::GetBalance => r == Ok::<Seq<Arg>, TypedError>(seq![Arg::W(prev)])
            && slots_unchanged(pre_slots, post_slots) && post_log == pre_log,
        Method::IncreaseBalance => {
            let v = arg_word(args, 0);
            post_log == pre_log && if prev.as_nat() + v.as_nat()
                < 0x10000000000000000000000000000000000000000000000000000000000000000 {
                r == Ok::<Seq<Arg>, TypedError>(Seq::empty()) && slot_of(
                    post_slots,
                    self_addr,
                    key_zero(),
                ).as_nat() == prev.as_nat() + v.as_nat() && slots_unchanged_except(
                    pre_slots,
                    post_slots,
                    self_addr,
                    key_zero(),
                )
            } else {
                r == Err::<Seq<Arg>, TypedError>(
                    TypedError::BalanceOverflow { balance: prev, added: v },
                ) && slots_unchanged(pre_slots, post_slots)
            }
        },
        Method::DecreaseBalance => {
            let v = arg_word(args, 0);
            post_log == pre_log && if v.as_nat() <= prev.as_nat() {
                r == Ok::<Seq<Arg>, TypedError>(Seq::empty()) && slot_of(
                    post_slots,
                    self_addr,
                    key_zero(),
                ).as_nat() == prev.as_nat() - v.as_nat() && slots_unchanged_except(
                    pre_slots,
                    post_slots,
                    self_addr,
                    key_zero(),
                )
            } else {
                r == Err::<Seq<Arg>, TypedError>(
                    TypedError::BalanceUnderflow { balance: prev, needed: v },
                ) && slots_unchanged(pre_slots, post_slots)
            }
        },
        Method::Deposit => r == Ok::<Seq<Arg>, TypedError>(Seq::empty()) && slots_unchanged(
            pre_slots,
            post_slots,
        ) && post_log == pre_log.push(deposited_view(self_addr, sender, value)),
        _ => true,
    }
}

/// What a value-holder method does: `SetValue` stores its word in the first
/// slot; `GetValue` returns it. Nothing else changes and nothing is logged.
pub open spec fn my_contract_post(
    pre_slots: Seq<SlotEntry>,
    post_slots: Seq<SlotEntry>,
    pre_log: Seq<EventView>,
    post_log: Seq<EventView>,
    self_addr: Address,
    m: Method,
    args: Seq<Arg>,
    r: Result<Seq<Arg>, TypedError>,
) -> bool {
    post_log == pre_log && match m {
        Method::SetValue => r == Ok::<Seq<Arg>, TypedError>(Seq::empty()) && slot_of(
            post_slots,
            self_addr,
            key_zero(),
        ) == arg_word(args, 0) && slots_unchanged_except(
            pre_slots,
            post_slots,
            self_addr,
            key_zero(),
        ),
        Method::GetValue => r == Ok::<Seq<Arg>, TypedError>(
            seq![Arg::W(slot_of(pre_slots, self_addr, key_zero()))],
        ) && slots_unchanged(pre_slots, post_slots),
        _ => true,
    }
}

/// What the chain-id reader does: returns the context's chain identifier as
/// a word, changing nothing.
pub open spec fn chain_aware_post(
    pre_slots: Seq<SlotEntry>,
    post_slots: Seq<SlotEntry>,
    pre_log: Seq<EventView>,
    post_log: Seq<EventView>,
    chain_id: u64,
    m: Method,
    r: Result<Seq<Arg>, TypedError>,
) -> bool {
    m == Method::GetChainId ==> r == Ok::<Seq<Arg>, TypedError>(
        seq![Arg::W(U256 { l0: chain_id, l1: 0, l2: 0, l3: 0 })],
    ) && slots_unchanged(pre_slots, post_slots) && post_log == pre_log
}

/// What a token method does: `Mint` grows one holder's balance and the
/// total supply, reverting when either would leave 256 bits, and reports a
/// transfer from the zero address; `Transfer` moves tokens from the sender
/// to a holder, reverting with the shortfall when the sender's balance is
/// short or when the receiver's would overflow; `BalanceOf` and
/// `TotalSupply` read without changing anything. Only the token's own
/// balance and supply cells and its own log entries ever change.
pub open spec fn token_post(
    pre_slots: Seq<SlotEntry>,
    post_slots: Seq<SlotEntry>,
    pre_log: Seq<EventView>,
    post_log: Seq<EventView>,
    self_addr: Address,
    sender: Address,
    m: Method,
    args: Seq<Arg>,
    r: Result<Seq<Arg>, TypedError>,
) -> bool {
    let sup = slot_of(pre_slots, self_addr, token_supply_key());
    match m {
        Method::TotalSupply => r == Ok::<Seq<Arg>, TypedError>(seq![Arg::W(sup)])
            && slots_unchanged(pre_slots, post_slots) && post_log == pre_log,
        Method::BalanceOf => r == Ok::<Seq<Arg>, TypedError>(
            seq![Arg::W(slot_of(pre_slots, self_addr, token_balance_key(arg_addr(args, 0))))],
        ) && slots_unchanged(pre_slots, post_slots) && post_log == pre_log,
        Method::Mint => {
            let to = arg_addr(args, 0);
            let v = arg_word(args, 1);
            let bal = slot_of(pre_slots, self_addr, token_balance_key(to));
            if sup.as_nat() + v.as_nat()
                >= 0x10000000000000000000000000000000000000000000000000000000000000000 {
                r == Err::<Seq<Arg>, TypedError>(
                    TypedError::BalanceOverflow { balance: sup, added: v },
                ) && slots_unchanged(pre_slots, post_slots) && post_log == pre_log
            } else if bal.as_nat() + v.as_nat()
                >= 0x10000000000000000000000000000000000000000000000000000000000000000 {
                r == Err::<Seq<Arg>, TypedError>(
                    TypedError::BalanceOverflow { balance: bal, added: v },
                ) && slots_unchanged(pre_slots, post_slots) && post_log == pre_log
            } else {
                r == Ok::<Seq<Arg>, TypedError>(Seq::empty()) && slot_of(
                    post_slots,
                    self_addr,
                    token_supply_key(),
                ).as_nat() == sup.as_nat() + v.as_nat() && slot_of(
                    post_slots,
                    self_addr,
                    token_balance_key(to),
                ).as_nat() == bal.as_nat() + v.as_nat() && slots_unchanged_except_two(
                    pre_slots,
                    post_slots,
                    self_addr,
                    token_supply_key(),
                    self_addr,
                    token_balance_key(to),
                ) && post_log == pre_log.push(transfer_view(self_addr, zero_address(), to, v))
            }
        },
        Method::Transfer => {
            let to = arg_addr(args, 0);
            let v = arg_word(args, 1);
            let bal_s = slot_of(pre_slots, self_addr, token_balance_key(sender));
            let bal_t = slot_of(pre_slots, self_addr, token_balance_key(to));
            if v.as_nat() > bal_s.as_nat() {
                r == Err::<Seq<Arg>, TypedError>(
                    TypedError::InsufficientTokenBalance { sender, balance: bal_s, needed: v },
                ) && slots_unchanged(pre_slots, post_slots) && post_log == pre_log
            } else if sender == to {
                r == Ok::<Seq<Arg>, TypedError>(Seq::empty()) && slots_unchanged(
                    pre_slots,
                    post_slots,
                ) && post_log == pre_log.push(transfer_view(self_addr, sender, to, v))
            } else if bal_t.as_nat() + v.as_nat()
                >= 0x10000000000000000000000000000000000000000000000000000000000000000 {
                r == Err::<Seq<Arg>, TypedError>(
                    TypedError::BalanceOverflow { balance: bal_t, added: v },
                ) && slots_unchanged(pre_slots, post_slots) && post_log == pre_log
            } else {
                r == Ok::<Seq<Arg>, TypedError>(Seq::empty()) && slot_of(
                    post_slots,
                    self_addr,
                    token_balance_key(sender),
                ).as_nat() == bal_s.as_nat() - v.as_nat() && slot_of(
                    post_slots,
                    self_addr,
                    token_balance_key(to),
                ).as_nat() == bal_t.as_nat() + v.as_nat() && slots_unchanged_except_two(
                    pre_slots,
                    post_slots,
                    self_addr,
                    token_balance_key(sender),
                    self_addr,
                    token_balance_key(to),
                ) && post_log == pre_log.push(transfer_view(self_addr, sender, to, v))
            }
        },
        _ => true,
    }
}

/// What a proxy method does. `SetImplementation` pins the forwarding target
/// in the first slot. `SetValue` writes nothing of the proxy's own and logs
/// nothing: it passes `SetValue` on to the pinned implementation with no
/// attached value, succeeds exactly when the inner call does, and fails
/// with `InnerCallFailed` otherwise. When the pinned implementation is a
/// value holder, a successful forward leaves the forwarded word in the
/// implementation's first slot, every other cell - the proxy's own storage
/// included - unchanged, and the log as it was; a failed forward leaves
/// everything unchanged.
pub open spec fn proxy_post(
    pre_slots: Seq<SlotEntry>,
    post_slots: Seq<SlotEntry>,
    pre_log: Seq<EventView>,
    post_log: Seq<EventView>,
    impl_kind: Option<ContractKind>,
    self_addr: Address,
    m: Method,
    args: Seq<Arg>,
    r: Result<Seq<Arg>, TypedError>,
) -> bool {
    let impl_addr = word_to_addr_spec(slot_of(pre_slots, self_addr, key_zero()));
    match m {
        Method::SetImplementation => r == Ok::<Seq<Arg>, TypedError>(Seq::empty()) && slot_of(
            post_slots,
            self_addr,
            key_zero(),
        ).as_nat() == arg_addr(args, 0).as_nat() && slots_unchanged_except(
            pre_slots,
            post_slots,
            self_addr,
            key_zero(),
        ) && post_log == pre_log,
        Method::SetValue => {
            let v = arg_word(args, 0);
            (r is Ok ==> r == Ok::<Seq<Arg>, TypedError>(Seq::empty())) && (r is Err ==> r
                == Err::<Seq<Arg>, TypedError>(TypedError::InnerCallFailed)) && (r is Err
                ==> slots_unchanged(pre_slots, post_slots) && post_log == pre_log) && (r is Ok
                && impl_kind == Some(ContractKind::MyContract) ==> slot_of(
                post_slots,
                impl_addr,
                key_zero(),
            ) == v && slots_unchanged_except(pre_slots, post_slots, impl_addr, key_zero())
                && post_log == pre_log)
        },
        _ => true,
    }
}

} // verus!
