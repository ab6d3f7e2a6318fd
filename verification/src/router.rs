//! The dispatch router: routes a call from a sender to a contract by
//! address, moves the attached value, pushes a call frame, runs the method
//! table, and rolls every effect back when the frame reverts.

use vstd::prelude::*;
use crate::addr::{Address, word_to_addr_spec};
use crate::word::U256;
use crate::event::{Event, EventView, Field, log_view, lemma_log_prefix_refl, lemma_log_prefix_push};
use crate::state::{bal_of, sum_balances, slot_of, kind_of, SlotEntry};
use crate::world::{World, Frame, ContractHandle, transfer_bal, copy_vec};
use crate::samples::{TOPIC_DEPOSITED,
    ContractKind, Method, Arg, TypedError, CallError, method_known, is_payable, args_ok,
    method_known_exec, is_payable_exec, args_ok_exec, arg_word, arg_addr, key_zero,
    vault_post, my_contract_post, chain_aware_post, proxy_post, token_post, res_view,
    deposited_event, transfer_event, token_balance_key, token_balance_key_of, token_supply_key,
    token_supply_key_of, lemma_token_key_injective, zero_address, TOPIC_TRANSFER,
};

verus! {

/// How deep calls may nest before the router gives up.
pub const CALL_FUEL: u64 = 64;

/// The refusal, if any, the router raises before the method body runs.
pub open spec fn call_gate(
    pre: World,
    from: Address,
    target: Address,
    value: U256,
    m: Method,
    args: Seq<Arg>,
    fuel: u64,
) -> Option<CallError> {
    if fuel == 0 {
        Some(CallError::DepthExceeded)
    } else {
        match kind_of(pre.contracts@, target) {
            None => Some(CallError::UnknownContract),
            Some(k) => if !method_known(k, m) {
                Some(CallError::UnknownMethod)
            } else if !args_ok(m, args) {
                Some(CallError::BadArguments)
            } else if value.as_nat() > 0 && !is_payable(k, m) {
                Some(CallError::NonPayableCallWithValue)
            } else if value.as_nat() > bal_of(pre.accounts@, from) {
                Some(CallError::InsufficientBalance)
            } else {
                None
            },
        }
    }
}

/// The kind the forwarding target registered in a proxy's first slot has.
pub open spec fn impl_kind_of(pre: World, self_addr: Address) -> Option<ContractKind> {
    kind_of(
        pre.contracts@,
        word_to_addr_spec(slot_of(pre.storage@, self_addr, key_zero())),
    )
}

/// What one method table does, by kind.
pub open spec fn kind_post(
    kind: ContractKind,
    pre_slots: Seq<SlotEntry>,
    post_slots: Seq<SlotEntry>,
    pre_log: Seq<EventView>,
    post_log: Seq<EventView>,
    impl_kind: Option<ContractKind>,
    chain_id: u64,
    self_addr: Address,
    sender: Address,
    value: U256,
    m: Method,
    args: Seq<Arg>,
    r: Result<Seq<Arg>, TypedError>,
) -> bool {
    match kind {
        ContractKind::Vault => vault_post(
            pre_slots,
            post_slots,
            pre_log,
            post_log,
            self_addr,
            sender,
            value,
            m,
            args,
            r,
        ),
        ContractKind::MyContract => my_contract_post(
            pre_slots,
            post_slots,
            pre_log,
            post_log,
            self_addr,
            m,
            args,
            r,
        ),
        ContractKind::ChainAware => chain_aware_post(
            pre_slots,
            post_slots,
            pre_log,
            post_log,
            chain_id,
            m,
            r,
        ),
        ContractKind::Proxy => proxy_post(
            pre_slots,
            post_slots,
            pre_log,
            post_log,
            impl_kind,
            self_addr,
            m,
            args,
            r,
        ),
        ContractKind::Token => token_post(
            pre_slots,
            post_slots,
            pre_log,
            post_log,
            self_addr,
            sender,
            m,
            args,
            r,
        ),
    }
}

/// Runs one method table with its frame already on the stack. Handlers move
/// no native value of their own and only append to the event log.
fn run_handler(
    w: &mut World,
    kind: ContractKind,
    self_addr: Address,
    sender: Address,
    value: U256,
    m: Method,
    args: &Vec<Arg>,
    fuel: u64,
) -> (r: Result<Vec<Arg>, TypedError>)
    requires
        old(w).wf(),
        method_known(kind, m),
        args_ok(m, args@),
    ensures
        final(w).wf(),
        final(w).frames@ == old(w).frames@,
        final(w).contracts@ == old(w).contracts@,
        final(w).tags@ == old(w).tags@,
        final(w).total == old(w).total,
        final(w).accounts@ == old(w).accounts@,
        World::same_ctx(*old(w), *final(w)),
        log_view(old(w).events@).is_prefix_of(log_view(final(w).events@)),
        kind == ContractKind::Proxy && m == Method::SetValue && fuel >= 1 && impl_kind_of(
            *old(w),
            self_addr,
        ) == Some(ContractKind::MyContract) ==> r is Ok,
        kind_post(
            kind,
            old(w).storage@,
            final(w).storage@,
            log_view(old(w).events@),
            log_view(final(w).events@),
            impl_kind_of(*old(w), self_addr),
            old(w).chain_id,
            self_addr,
            sender,
            value,
            m,
            args@,
            res_view(r),
        ),
    decreases fuel, 1int,
{
    match kind {
        ContractKind::Vault => {
            match m {
                Method::GetBalance => {
                    let prev = w.slot_get(self_addr, U256::zero());
                    let mut vals: Vec<Arg> = Vec::new();
                    vals.push(Arg::W(prev));
                    proof {
                        assert(vals@ =~= seq![Arg::W(prev)]);
                        lemma_log_prefix_refl(log_view(w.events@));
                    }
                    Ok(vals)
                },
                Method::IncreaseBalance => {
                    let prev = w.slot_get(self_addr, U256::zero());
                    let v = match args[0] {
                        Arg::W(v) => v,
                        Arg::A(_) => {
                            proof {
                                assert(false);
                            }
                            U256::zero()
                        },
                    };
                    match prev.checked_add(v) {
                        Some(nb) => {
                            w.slot_set(self_addr, U256::zero(), nb);
                            let vals: Vec<Arg> = Vec::new();
                            proof {
                                assert(vals@ =~= Seq::<Arg>::empty());
                                lemma_log_prefix_refl(log_view(w.events@));
                            }
                            Ok(vals)
                        },
                        None => {
                            proof {
                                lemma_log_prefix_refl(log_view(w.events@));
                            }
                            Err(TypedError::BalanceOverflow { balance: prev, added: v })
                        },
                    }
                },
                Method::DecreaseBalance => {
                    let prev = w.slot_get(self_addr, U256::zero());
                    let v = match args[0] {
                        Arg::W(v) => v,
                        Arg::A(_) => {
                            proof {
                                assert(false);
                            }
                            U256::zero()
                        },
                    };
                    match prev.checked_sub(v) {
                        Some(nb) => {
                            w.slot_set(self_addr, U256::zero(), nb);
                            let vals: Vec<Arg> = Vec::new();
                            proof {
                                assert(vals@ =~= Seq::<Arg>::empty());
                                lemma_log_prefix_refl(log_view(w.events@));
                            }
                            Ok(vals)
                        },
                        None => {
                            proof {
                                lemma_log_prefix_refl(log_view(w.events@));
                            }
                            Err(TypedError::BalanceUnderflow { balance: prev, needed: v })
                        },
                    }
                },
                _ => {
                    // method_known(Vault, m) leaves only Deposit here
                    let ghost pre_log = log_view(w.events@);
                    w.emit(self_addr, deposited_event(sender, value));
                    let vals: Vec<Arg> = Vec::new();
                    proof {
                        assert(vals@ =~= Seq::<Arg>::empty());
                        lemma_log_prefix_push(
                            pre_log,
                            EventView {
                                emitter: self_addr,
                                topic: TOPIC_DEPOSITED,
                                fields: seq![Field::Addr(sender), Field::Word(value)],
                            },
                        );
                    }
                    Ok(vals)
                },
            }
        },
        ContractKind::MyContract => {
            match m {
                Method::SetValue => {
                    let v = match args[0] {
                        Arg::W(v) => v,
                        Arg::A(_) => {
                            proof {
                                assert(false);
                            }
                            U256::zero()
                        },
                    };
                    w.slot_set(self_addr, U256::zero(), v);
                    let vals: Vec<Arg> = Vec::new();
                    proof {
                        assert(vals@ =~= Seq::<Arg>::empty());
                        lemma_log_prefix_refl(log_view(w.events@));
                    }
                    Ok(vals)
                },
                _ => {
                    let cur = w.slot_get(self_addr, U256::zero());
                    let mut vals: Vec<Arg> = Vec::new();
                    vals.push(Arg::W(cur));
                    proof {
                        assert(vals@ =~= seq![Arg::W(cur)]);
                        lemma_log_prefix_refl(log_view(w.events@));
                    }
                    Ok(vals)
                },
            }
        },
        ContractKind::ChainAware => {
            let cid = w.chain_id();
            let mut vals: Vec<Arg> = Vec::new();
            vals.push(Arg::W(U256::from_u64(cid)));
            proof {
                assert(vals@ =~= seq![Arg::W(U256 { l0: cid, l1: 0, l2: 0, l3: 0 })]);
                lemma_log_prefix_refl(log_view(w.events@));
            }
            Ok(vals)
        },
        ContractKind::Token => {
            match m {
                Method::TotalSupply => {
                    let sup = w.slot_get(self_addr, token_supply_key_of());
                    let mut vals: Vec<Arg> = Vec::new();
                    vals.push(Arg::W(sup));
                    proof {
                        assert(vals@ =~= seq![Arg::W(sup)]);
                        lemma_log_prefix_refl(log_view(w.events@));
                    }
                    Ok(vals)
                },
                Method::BalanceOf => {
                    let a = match args[0] {
                        Arg::A(a) => a,
                        Arg::W(_) => {
                            proof {
                                assert(false);
                            }
                            Address::zero_addr()
                        },
                    };
                    let bal = w.slot_get(self_addr, token_balance_key_of(a));
                    let mut vals: Vec<Arg> = Vec::new();
                    vals.push(Arg::W(bal));
                    proof {
                        assert(vals@ =~= seq![Arg::W(bal)]);
                        lemma_log_prefix_refl(log_view(w.events@));
                    }
                    Ok(vals)
                },
                Method::Mint => {
                    let to = match args[0] {
                        Arg::A(a) => a,
                        Arg::W(_) => {
                            proof {
                                assert(false);
                            }
                            Address::zero_addr()
                        },
                    };
                    let v = match args[1] {
                        Arg::W(v) => v,
                        Arg::A(_) => {
                            proof {
                                assert(false);
                            }
                            U256::zero()
                        },
                    };
                    let sup = w.slot_get(self_addr, token_supply_key_of());
                    let nsup = match sup.checked_add(v) {
                        Some(nsup) => nsup,
                        None => {
                            proof {
                                lemma_log_prefix_refl(log_view(w.events@));
                            }
                            return Err(TypedError::BalanceOverflow { balance: sup, added: v });
                        },
                    };
                    let bal = w.slot_get(self_addr, token_balance_key_of(to));
                    let nbal = match bal.checked_add(v) {
                        Some(nbal) => nbal,
                        None => {
                            proof {
                                lemma_log_prefix_refl(log_view(w.events@));
                            }
                            return Err(TypedError::BalanceOverflow { balance: bal, added: v });
                        },
                    };
                    let ghost pre_log = log_view(w.events@);
                    w.slot_set(self_addr, token_supply_key_of(), nsup);
                    w.slot_set(self_addr, token_balance_key_of(to), nbal);
                    w.emit(self_addr, transfer_event(Address::zero_addr(), to, v));
                    let vals: Vec<Arg> = Vec::new();
                    proof {
                        assert(vals@ =~= Seq::<Arg>::empty());
                        assert(token_supply_key() != token_balance_key(to));
                        lemma_log_prefix_push(
                            pre_log,
                            EventView {
                                emitter: self_addr,
                                topic: TOPIC_TRANSFER,
                                fields: seq![
                                    Field::Addr(zero_address()),
                                    Field::Addr(to),
                                    Field::Word(v),
                                ],
                            },
                        );
                    }
                    Ok(vals)
                },
                _ => {
                    // method_known(Token, m) leaves only Transfer here
                    let to = match args[0] {
                        Arg::A(a) => a,
                        Arg::W(_) => {
                            proof {
                                assert(false);
                            }
                            Address::zero_addr()
                        },
                    };
                    let v = match args[1] {
                        Arg::W(v) => v,
                        Arg::A(_) => {
                            proof {
                                assert(false);
                            }
                            U256::zero()
                        },
                    };
                    let bal_s = w.slot_get(self_addr, token_balance_key_of(sender));
                    let nbs = match bal_s.checked_sub(v) {
                        Some(nbs) => nbs,
                        None => {
                            proof {
                                lemma_log_prefix_refl(log_view(w.events@));
                            }
                            return Err(
                                TypedError::InsufficientTokenBalance {
                                    sender,
                                    balance: bal_s,
                                    needed: v,
                                },
                            );
                        },
                    };
                    let ghost pre_log = log_view(w.events@);
                    if sender == to {
                        w.emit(self_addr, transfer_event(sender, to, v));
                        let vals: Vec<Arg> = Vec::new();
                        proof {
                            assert(vals@ =~= Seq::<Arg>::empty());
                            lemma_log_prefix_push(
                                pre_log,
                                EventView {
                                    emitter: self_addr,
                                    topic: TOPIC_TRANSFER,
                                    fields: seq![
                                        Field::Addr(sender),
                                        Field::Addr(to),
                                        Field::Word(v),
                                    ],
                                },
                            );
                        }
                        return Ok(vals);
                    }
                    let bal_t = w.slot_get(self_addr, token_balance_key_of(to));
                    let nbt = match bal_t.checked_add(v) {
                        Some(nbt) => nbt,
                        None => {
                            proof {
                                lemma_log_prefix_refl(log_view(w.events@));
                            }
                            return Err(TypedError::BalanceOverflow { balance: bal_t, added: v });
                        },
                    };
                    w.slot_set(self_addr, token_balance_key_of(sender), nbs);
                    w.slot_set(self_addr, token_balance_key_of(to), nbt);
                    w.emit(self_addr, transfer_event(sender, to, v));
                    let vals: Vec<Arg> = Vec::new();
                    proof {
                        assert(vals@ =~= Seq::<Arg>::empty());
                        assert(token_balance_key(sender) != token_balance_key(to)) by {
                            if token_balance_key(sender) == token_balance_key(to) {
                                lemma_token_key_injective(sender, to);
                            }
                        };
                        lemma_log_prefix_push(
                            pre_log,
                            EventView {
                                emitter: self_addr,
                                topic: TOPIC_TRANSFER,
                                fields: seq![Field::Addr(sender), Field::Addr(to), Field::Word(v)],
                            },
                        );
                    }
                    Ok(vals)
                },
            }
        },
        ContractKind::Proxy => {
            match m {
                Method::SetImplementation => {
                    let a = match args[0] {
                        Arg::A(a) => a,
                        Arg::W(_) => {
                            proof {
                                assert(false);
                            }
                            Address::zero_addr()
                        },
                    };
                    w.slot_set(self_addr, U256::zero(), a.to_word());
                    let vals: Vec<Arg> = Vec::new();
                    proof {
                        assert(vals@ =~= Seq::<Arg>::empty());
                        lemma_log_prefix_refl(log_view(w.events@));
                    }
                    Ok(vals)
                },
                _ => {
                    // method_known(Proxy, m) leaves only SetValue here
                    let v = match args[0] {
                        Arg::W(v) => v,
                        Arg::A(_) => {
                            proof {
                                assert(false);
                            }
                            U256::zero()
                        },
                    };
                    let impl_word = w.slot_get(self_addr, U256::zero());
                    let impl_addr = Address::from_word(impl_word);
                    let mut inner_args: Vec<Arg> = Vec::new();
                    inner_args.push(Arg::W(v));
                    proof {
                        assert(inner_args@ =~= seq![Arg::W(v)]);
                    }
                    let inner = call_with_fuel(
                        w,
                        self_addr,
                        impl_addr,
                        U256::zero(),
                        Method::SetValue,
                        inner_args,
                        fuel,
                    );
                    match inner {
                        Ok(_) => {
                            let vals: Vec<Arg> = Vec::new();
                            proof {
                                assert(vals@ =~= Seq::<Arg>::empty());
                            }
                            Ok(vals)
                        },
                        Err(_) => Err(TypedError::InnerCallFailed),
                    }
                },
            }
        },
    }
}

/// Routes one call: refuses misuse before anything runs, moves the attached
/// value, pushes the frame, runs the method table, and on a typed revert
/// restores storage, balances and the event log to their state at entry.
///
/// The contract carries the router's laws: the ledger sum is conserved by
/// every completed call; a reverted call leaves storage, events and
/// balances exactly as they were; the event log only ever grows, in order;
/// and for each contract kind the effect of a successful call, and the
/// typed error of a reverted one, are pinned by the kind's postcondition.
pub fn call_with_fuel(
    w: &mut World,
    from: Address,
    target: Address,
    value: U256,
    m: Method,
    args: Vec<Arg>,
    fuel: u64,
) -> (r: Result<Vec<Arg>, CallError>)
    requires
        old(w).wf(),
    ensures
        final(w).wf(),
        final(w).frames@ == old(w).frames@,
        final(w).contracts@ == old(w).contracts@,
        final(w).tags@ == old(w).tags@,
        final(w).total == old(w).total,
        World::same_ctx(*old(w), *final(w)),
        sum_balances(final(w).accounts@) == sum_balances(old(w).accounts@),
        r is Err ==> final(w).accounts@ == old(w).accounts@ && final(w).storage@ == old(
            w,
        ).storage@ && log_view(final(w).events@) == log_view(old(w).events@),
        log_view(old(w).events@).is_prefix_of(log_view(final(w).events@)),
        call_gate(*old(w), from, target, value, m, args@, fuel) is None && kind_of(
            old(w).contracts@,
            target,
        ) == Some(ContractKind::Proxy) && m == Method::SetValue && fuel >= 2 && impl_kind_of(
            *old(w),
            target,
        ) == Some(ContractKind::MyContract) ==> r is Ok,
        match call_gate(*old(w), from, target, value, m, args@, fuel) {
            Some(e) => r == Err::<Vec<Arg>, CallError>(e) && *final(w) == *old(w),
            None => {
                &&& (r is Ok ==> forall|b: Address|
                    bal_of(final(w).accounts@, b) == transfer_bal(
                        old(w).accounts@,
                        from,
                        target,
                        value.as_nat(),
                        b,
                    ))
                &&& (r is Ok && value.as_nat() == 0 ==> final(w).accounts@ == old(w).accounts@)
                &&& match r {
                    Ok(vals) => kind_post(
                        kind_of(old(w).contracts@, target)->Some_0,
                        old(w).storage@,
                        final(w).storage@,
                        log_view(old(w).events@),
                        log_view(final(w).events@),
                        impl_kind_of(*old(w), target),
                        old(w).chain_id,
                        target,
                        from,
                        value,
                        m,
                        args@,
                        Ok(vals@),
                    ),
                    Err(CallError::Reverted(e)) => kind_post(
                        kind_of(old(w).contracts@, target)->Some_0,
                        old(w).storage@,
                        final(w).storage@,
                        log_view(old(w).events@),
                        log_view(final(w).events@),
                        impl_kind_of(*old(w), target),
                        old(w).chain_id,
                        target,
                        from,
                        value,
                        m,
                        args@,
                        Err(e),
                    ),
                    Err(_) => false,
                }
            },
        },
    decreases fuel, 0int,
{
    if fuel == 0 {
        return Err(CallError::DepthExceeded);
    }
    let kind = match w.contract_kind(target) {
        Some(k) => k,
        None => {
            return Err(CallError::UnknownContract);
        },
    };
    if !method_known_exec(kind, m) {
        return Err(CallError::UnknownMethod);
    }
    if !args_ok_exec(m, &args) {
        return Err(CallError::BadArguments);
    }
    let value_pos = U256::zero().lt(value);
    if value_pos && !is_payable_exec(kind, m) {
        return Err(CallError::NonPayableCallWithValue);
    }
    let ghost pre = *w;
    let snap_accounts = copy_vec(&w.accounts);
    let snap_storage = copy_vec(&w.storage);
    let snap_events_len = w.events.len();
    if value_pos {
        if !w.transfer(from, target, value) {
            return Err(CallError::InsufficientBalance);
        }
    }
    let ghost mid = *w;
    w.frames.push(Frame { caller: from, callee: target, value });
    let res = run_handler(w, kind, target, from, value, m, &args, fuel - 1);
    let _popped = w.frames.pop();
    proof {
        assert(w.frames@ =~= pre.frames@);
    }
    match res {
        Ok(vals) => {
            proof {
                assert(mid.storage@ == pre.storage@);
                assert(mid.events@ == pre.events@);
            }
            Ok(vals)
        },
        Err(e) => {
            w.accounts = snap_accounts;
            w.storage = snap_storage;
            let ghost before_trunc = w.events@;
            w.events.truncate(snap_events_len);
            proof {
                assert(log_view(pre.events@).is_prefix_of(log_view(before_trunc)));
                assert(log_view(pre.events@).len() == snap_events_len);
                assert(log_view(before_trunc).len() == before_trunc.len());
                assert(w.events@ =~= before_trunc.subrange(0, snap_events_len as int));
                assert(log_view(w.events@) =~= log_view(pre.events@));
                lemma_log_prefix_refl(log_view(pre.events@));
            }
            Err(CallError::Reverted(e))
        },
    }
}

/// Routes one call with the default nesting allowance.
pub fn call(
    w: &mut World,
    from: Address,
    target: Address,
    value: U256,
    m: Method,
    args: Vec<Arg>,
) -> (r: Result<Vec<Arg>, CallError>)
    requires
        old(w).wf(),
    ensures
        final(w).wf(),
        final(w).frames@ == old(w).frames@,
        final(w).contracts@ == old(w).contracts@,
        final(w).tags@ == old(w).tags@,
        final(w).total == old(w).total,
        World::same_ctx(*old(w), *final(w)),
        sum_balances(final(w).accounts@) == sum_balances(old(w).accounts@),
        r is Err ==> final(w).accounts@ == old(w).accounts@ && final(w).storage@ == old(
            w,
        ).storage@ && log_view(final(w).events@) == log_view(old(w).events@),
        log_view(old(w).events@).is_prefix_of(log_view(final(w).events@)),
        call_gate(*old(w), from, target, value, m, args@, CALL_FUEL) is None && kind_of(
            old(w).contracts@,
            target,
        ) == Some(ContractKind::Proxy) && m == Method::SetValue && impl_kind_of(
            *old(w),
            target,
        ) == Some(ContractKind::MyContract) ==> r is Ok,
        match call_gate(*old(w), from, target, value, m, args@, CALL_FUEL) {
            Some(e) => r == Err::<Vec<Arg>, CallError>(e) && *final(w) == *old(w),
            None => {
                &&& (r is Ok ==> forall|b: Address|
                    bal_of(final(w).accounts@, b) == transfer_bal(
                        old(w).accounts@,
                        from,
                        target,
                        value.as_nat(),
                        b,
                    ))
                &&& (r is Ok && value.as_nat() == 0 ==> final(w).accounts@ == old(w).accounts@)
                &&& match r {
                    Ok(vals) => kind_post(
                        kind_of(old(w).contracts@, target)->Some_0,
                        old(w).storage@,
                        final(w).storage@,
                        log_view(old(w).events@),
                        log_view(final(w).events@),
                        impl_kind_of(*old(w), target),
                        old(w).chain_id,
                        target,
                        from,
                        value,
                        m,
                        args@,
                        Ok(vals@),
                    ),
                    Err(CallError::Reverted(e)) => kind_post(
                        kind_of(old(w).contracts@, target)->Some_0,
                        old(w).storage@,
                        final(w).storage@,
                        log_view(old(w).events@),
                        log_view(final(w).events@),
                        impl_kind_of(*old(w), target),
                        old(w).chain_id,
                        target,
                        from,
                        value,
                        m,
                        args@,
                        Err(e),
                    ),
                    Err(_) => false,
                }
            },
        },
{
    call_with_fuel(w, from, target, value, m, args, CALL_FUEL)
}

/// A pending call: the sender framing a handle builds before invoking.
#[derive(Clone, Copy, PartialEq, Eq, Structural, Debug)]
pub struct CallBuilder {
    pub target: Address,
    pub from: Address,
    pub value: U256,
}

impl ContractHandle {
    /// Frames a call from `from` with no attached value.
    pub fn sender(&self, from: Address) -> (r: CallBuilder)
        ensures
            r.target == self.addr,
            r.from == from,
            r.value.as_nat() == 0,
    {
        CallBuilder { target: self.addr, from, value: U256::zero() }
    }

    /// Frames a call from `from` carrying `value`.
    pub fn sender_and_value(&self, from: Address, value: U256) -> (r: CallBuilder)
        ensures
            r.target == self.addr,
            r.from == from,
            r.value == value,
    {
        CallBuilder { target: self.addr, from, value }
    }
}

impl CallBuilder {
    /// Dispatches the framed call.
    pub fn invoke(&self, w: &mut World, m: Method, args: Vec<Arg>) -> (r: Result<
        Vec<Arg>,
        CallError,
    >)
        requires
            old(w).wf(),
        ensures
            final(w).wf(),
            final(w).frames@ == old(w).frames@,
            final(w).contracts@ == old(w).contracts@,
            final(w).tags@ == old(w).tags@,
            final(w).total == old(w).total,
            World::same_ctx(*old(w), *final(w)),
            sum_balances(final(w).accounts@) == sum_balances(old(w).accounts@),
            r is Err ==> final(w).accounts@ == old(w).accounts@ && final(w).storage@ == old(
                w,
            ).storage@ && log_view(final(w).events@) == log_view(old(w).events@),
            log_view(old(w).events@).is_prefix_of(log_view(final(w).events@)),
            call_gate(*old(w), self.from, self.target, self.value, m, args@, CALL_FUEL) is None
                && kind_of(old(w).contracts@, self.target) == Some(ContractKind::Proxy) && m
                == Method::SetValue && impl_kind_of(*old(w), self.target) == Some(
                ContractKind::MyContract,
            ) ==> r is Ok,
            match call_gate(*old(w), self.from, self.target, self.value, m, args@, CALL_FUEL) {
                Some(e) => r == Err::<Vec<Arg>, CallError>(e) && *final(w) == *old(w),
                None => {
                    &&& (r is Ok ==> forall|b: Address|
                        bal_of(final(w).accounts@, b) == transfer_bal(
                            old(w).accounts@,
                            self.from,
                            self.target,
                            self.value.as_nat(),
                            b,
                        ))
                    &&& (r is Ok && self.value.as_nat() == 0 ==> final(w).accounts@ == old(
                        w,
                    ).accounts@)
                    &&& match r {
                        Ok(vals) => kind_post(
                            kind_of(old(w).contracts@, self.target)->Some_0,
                            old(w).storage@,
                            final(w).storage@,
                            log_view(old(w).events@),
                            log_view(final(w).events@),
                            impl_kind_of(*old(w), self.target),
                            old(w).chain_id,
                            self.target,
                            self.from,
                            self.value,
                            m,
                            args@,
                            Ok(vals@),
                        ),
                        Err(CallError::Reverted(e)) => kind_post(
                            kind_of(old(w).contracts@, self.target)->Some_0,
                            old(w).storage@,
                            final(w).storage@,
                            log_view(old(w).events@),
                            log_view(final(w).events@),
                            impl_kind_of(*old(w), self.target),
                            old(w).chain_id,
                            self.target,
                            self.from,
                            self.value,
                            m,
                            args@,
                            Err(e),
                        ),
                        Err(_) => false,
                    }
                },
            },
    {
        call(w, self.from, self.target, self.value, m, args)
    }
}

} // verus!
