use testvm::addr::{account_address_of, address_of, Address};
use testvm::samples::CallError;
use testvm::samples::{deposited_event, transfer_event, Arg, ContractKind, Method, TypedError};
use testvm::word::U256;
use testvm::world::World;

const ALICE_HEX: &str = "0x328809bc894f92807417d2dad6b7c998c1afdac6";
const BOB_HEX: &str = "0x38e47a7b719dce63662aeaf43440326f551b8a7e";
const CONTRACT_HEX: &str = "0x7f6dd79f0020bee2024a097aaa5d32ab7ca31126";

fn alice_const() -> Address {
    Address::from_hex(ALICE_HEX).unwrap()
}

fn bob_const() -> Address {
    Address::from_hex(BOB_HEX).unwrap()
}

fn contract_const() -> Address {
    Address::from_hex(CONTRACT_HEX).unwrap()
}

#[test]
fn reads_balance() {
    let mut w = World::new();
    let contract = w.contract_from_tag("contract", ContractKind::Vault).unwrap();
    let alice = w.address_from_tag("alice");
    let balance = contract
        .sender(alice)
        .invoke(&mut w, Method::GetBalance, vec![])
        .unwrap();
    assert_eq!(balance, vec![Arg::W(U256::zero())]);
}

#[test]
fn test_with_account() {
    let mut w = World::new();
    let _alice = w.account_from_tag("alice");
    let msg = "message".as_bytes();
    let sig = w.sign_as("alice", msg);
    assert!(sig.is_some());
    assert_eq!(sig.unwrap().len(), 65);
}

#[test]
fn signing_needs_key_material() {
    let mut w = World::new();
    // a plain address fixture carries no key, so it cannot sign
    let _bob = w.address_from_tag("bob");
    assert!(w.sign_as("bob", b"message").is_none());
    // an account fixture can
    let _carol = w.account_from_tag("carol");
    assert!(w.sign_as("carol", b"message").is_some());
}

#[test]
fn test_with_injected_accounts() {
    let mut w = World::new();
    let alice = w.account_from_tag("alice");
    let bob = w.address_from_tag("bob");
    let contract = w.contract_from_tag("contract", ContractKind::Vault).unwrap();
    assert_eq!(alice_const(), alice);
    assert_eq!(bob_const(), bob);
    assert_eq!(contract_const(), contract.address());
}

#[test]
fn test_with_named_accounts() {
    let alice = account_address_of("alice");
    let bob = address_of("bob");
    let contract = address_of("contract");

    assert_eq!(alice_const(), alice);
    assert_eq!(bob_const(), bob);
    assert_eq!(contract_const(), contract);
}

#[test]
fn test_increase_balance() {
    let mut w = World::new();
    let contract = w.contract_from_tag("contract", ContractKind::Vault).unwrap();
    let alice = w.address_from_tag("alice");
    let value = U256::from_u64(100);

    contract
        .sender(alice)
        .invoke(&mut w, Method::IncreaseBalance, vec![Arg::W(value)])
        .unwrap();

    let new_balance = contract
        .sender(alice)
        .invoke(&mut w, Method::GetBalance, vec![])
        .unwrap();
    assert_eq!(new_balance, vec![Arg::W(value)]);
}

#[test]
fn test_payable_function() {
    let mut w = World::new();
    let contract = w.contract_from_tag("contract", ContractKind::Vault).unwrap();
    let alice = w.address_from_tag("alice");

    assert!(w.fund(alice, U256::from_u64(10)));

    contract
        .sender_and_value(alice, U256::from_u64(1))
        .invoke(&mut w, Method::Deposit, vec![])
        .unwrap();

    assert_eq!(w.balance(alice), U256::from_u64(9));
    assert_eq!(w.balance(contract.address()), U256::from_u64(1));
}

#[test]
fn test_events() {
    let mut w = World::new();
    let contract = w.contract_from_tag("contract", ContractKind::Vault).unwrap();
    let alice = w.address_from_tag("alice");

    assert!(w.fund(alice, U256::from_u64(10)));

    contract
        .sender_and_value(alice, U256::from_u64(1))
        .invoke(&mut w, Method::Deposit, vec![])
        .unwrap();

    let was_emitted = w.emitted(
        contract.address(),
        &deposited_event(alice, U256::from_u64(1)),
    );
    assert!(was_emitted);

    let wrong_value = w.emitted(
        contract.address(),
        &deposited_event(alice, U256::from_u64(100)),
    );
    assert!(!wrong_value);
}

#[test]
fn test_revert() {
    let mut w = World::new();
    let contract = w.contract_from_tag("contract", ContractKind::Vault).unwrap();
    let alice = w.address_from_tag("alice");

    let err = contract
        .sender(alice)
        .invoke(&mut w, Method::DecreaseBalance, vec![Arg::W(U256::from_u64(1000))])
        .unwrap_err();

    assert!(matches!(
        err,
        CallError::Reverted(TypedError::BalanceUnderflow { balance, needed })
            if balance == U256::zero() && needed == U256::from_u64(1000)
    ));
}

#[test]
fn test_proxy_call() {
    let mut w = World::new();
    let proxy = w.contract_from_tag("proxy", ContractKind::Proxy).unwrap();
    let my_contract = w
        .contract_from_tag("my_contract", ContractKind::MyContract)
        .unwrap();
    let alice = w.address_from_tag("alice");

    proxy
        .sender(alice)
        .invoke(&mut w, Method::SetImplementation, vec![Arg::A(my_contract.address())])
        .unwrap();

    let value = w.slot_get(my_contract.address(), U256::zero());
    assert_eq!(value, U256::zero());

    proxy
        .sender(alice)
        .invoke(&mut w, Method::SetValue, vec![Arg::W(U256::from_u64(100))])
        .unwrap();

    let value = w.slot_get(my_contract.address(), U256::zero());
    assert_eq!(value, U256::from_u64(100));

    // the proxy's own storage is unchanged: its implementation slot still
    // holds the pinned address and nothing else of its own was written
    assert_eq!(
        w.slot_get(proxy.address(), U256::zero()),
        my_contract.address().to_word()
    );
    assert_eq!(w.slot_get(proxy.address(), U256::from_u64(1)), U256::zero());
    // nothing was logged, and the stack is idle again after the nested call
    assert_eq!(w.events.len(), 0);
    assert_eq!(w.depth(), 0);
}

#[test]
fn test_with_custom_chain_id() {
    let mut w = World::new();
    let contract = w.contract_from_tag("contract", ContractKind::ChainAware).unwrap();
    let alice = w.address_from_tag("alice");

    let got = contract
        .sender(alice)
        .invoke(&mut w, Method::GetChainId, vec![])
        .unwrap();
    assert_eq!(got, vec![Arg::W(U256::from_u64(42161))]);

    w.set_chain_id(11155111);

    let got = contract
        .sender(alice)
        .invoke(&mut w, Method::GetChainId, vec![])
        .unwrap();
    assert_eq!(got, vec![Arg::W(U256::from_u64(11155111))]);
}

#[test]
fn reverted_subcall_rolls_everything_back() {
    let mut w = World::new();
    let proxy = w.contract_from_tag("proxy", ContractKind::Proxy).unwrap();
    // the implementation is a vault, which does not answer SetValue, so the
    // inner call fails and the outer frame must revert
    let vault = w.contract_from_tag("vault", ContractKind::Vault).unwrap();
    let alice = w.address_from_tag("alice");

    proxy
        .sender(alice)
        .invoke(&mut w, Method::SetImplementation, vec![Arg::A(vault.address())])
        .unwrap();

    let impl_slot_before = w.slot_get(proxy.address(), U256::zero());
    let vault_slot_before = w.slot_get(vault.address(), U256::zero());
    let events_before = w.events.len();

    let err = proxy
        .sender(alice)
        .invoke(&mut w, Method::SetValue, vec![Arg::W(U256::from_u64(7))])
        .unwrap_err();
    assert!(matches!(err, CallError::Reverted(TypedError::InnerCallFailed)));

    assert_eq!(w.slot_get(proxy.address(), U256::zero()), impl_slot_before);
    assert_eq!(w.slot_get(vault.address(), U256::zero()), vault_slot_before);
    assert_eq!(w.events.len(), events_before);
    assert_eq!(w.depth(), 0);
}

#[test]
fn self_referential_proxy_runs_out_of_frames() {
    let mut w = World::new();
    let proxy = w.contract_from_tag("proxy", ContractKind::Proxy).unwrap();
    let alice = w.address_from_tag("alice");

    proxy
        .sender(alice)
        .invoke(&mut w, Method::SetImplementation, vec![Arg::A(proxy.address())])
        .unwrap();

    let err = proxy
        .sender(alice)
        .invoke(&mut w, Method::SetValue, vec![Arg::W(U256::from_u64(5))])
        .unwrap_err();
    assert!(matches!(err, CallError::Reverted(TypedError::InnerCallFailed)));

    // the whole chain reverted: the implementation slot still points home
    // and nothing was logged
    assert_eq!(
        w.slot_get(proxy.address(), U256::zero()),
        proxy.address().to_word()
    );
    assert_eq!(w.events.len(), 0);
    assert_eq!(w.depth(), 0);
}

#[test]
fn balances_are_conserved_by_calls() {
    let mut w = World::new();
    let contract = w.contract_from_tag("contract", ContractKind::Vault).unwrap();
    let alice = w.address_from_tag("alice");
    let bob = w.address_from_tag("bob");

    assert!(w.fund(alice, U256::from_u64(10)));
    assert!(w.fund(bob, U256::from_u64(3)));

    contract
        .sender_and_value(alice, U256::from_u64(4))
        .invoke(&mut w, Method::Deposit, vec![])
        .unwrap();

    // a failing call must conserve them too
    let _ = contract
        .sender_and_value(bob, U256::from_u64(99))
        .invoke(&mut w, Method::Deposit, vec![])
        .unwrap_err();

    let total = w.balance(alice).l0 + w.balance(bob).l0 + w.balance(contract.address()).l0;
    assert_eq!(total, 13);
}

#[test]
fn misuse_is_refused_before_anything_runs() {
    let mut w = World::new();
    let vault = w.contract_from_tag("vault", ContractKind::Vault).unwrap();
    let alice = w.address_from_tag("alice");
    let nobody = w.address_from_tag("nobody");

    // an unregistered callee
    let err = testvm::router::call(
        &mut w,
        alice,
        nobody,
        U256::zero(),
        Method::GetBalance,
        vec![],
    )
    .unwrap_err();
    assert_eq!(err, CallError::UnknownContract);

    // a method the kind does not answer
    let err = vault
        .sender(alice)
        .invoke(&mut w, Method::GetChainId, vec![])
        .unwrap_err();
    assert_eq!(err, CallError::UnknownMethod);

    // a wrong argument shape
    let err = vault
        .sender(alice)
        .invoke(&mut w, Method::IncreaseBalance, vec![])
        .unwrap_err();
    assert_eq!(err, CallError::BadArguments);

    // value attached to a non-payable method
    assert!(w.fund(alice, U256::from_u64(5)));
    let err = vault
        .sender_and_value(alice, U256::from_u64(1))
        .invoke(&mut w, Method::IncreaseBalance, vec![Arg::W(U256::from_u64(1))])
        .unwrap_err();
    assert_eq!(err, CallError::NonPayableCallWithValue);

    // a deposit beyond the sender's means
    let err = vault
        .sender_and_value(alice, U256::from_u64(50))
        .invoke(&mut w, Method::Deposit, vec![])
        .unwrap_err();
    assert_eq!(err, CallError::InsufficientBalance);

    // none of it moved any value or wrote any storage
    assert_eq!(w.balance(alice), U256::from_u64(5));
    assert_eq!(w.balance(vault.address()), U256::zero());
    assert_eq!(w.slot_get(vault.address(), U256::zero()), U256::zero());
    assert_eq!(w.events.len(), 0);
}

#[test]
fn events_keep_emission_order() {
    let mut w = World::new();
    let vault = w.contract_from_tag("vault", ContractKind::Vault).unwrap();
    let alice = w.address_from_tag("alice");
    assert!(w.fund(alice, U256::from_u64(10)));

    vault
        .sender_and_value(alice, U256::from_u64(1))
        .invoke(&mut w, Method::Deposit, vec![])
        .unwrap();
    vault
        .sender_and_value(alice, U256::from_u64(2))
        .invoke(&mut w, Method::Deposit, vec![])
        .unwrap();

    assert_eq!(w.events.len(), 2);
    assert!(w.events[0].ev.matches(&deposited_event(alice, U256::from_u64(1))));
    assert!(w.events[1].ev.matches(&deposited_event(alice, U256::from_u64(2))));
}

#[test]
fn storage_round_trip() {
    let mut w = World::new();
    let a = w.address_from_tag("arena");
    let k = U256::from_u64(7);
    let other = U256::from_u64(8);
    assert_eq!(w.slot_get(a, k), U256::zero());
    w.slot_set(a, k, U256::from_u64(99));
    assert_eq!(w.slot_get(a, k), U256::from_u64(99));
    assert_eq!(w.slot_get(a, other), U256::zero());
    w.slot_set(a, k, U256::from_u64(100));
    assert_eq!(w.slot_get(a, k), U256::from_u64(100));
}

#[test]
fn tag_derivation_is_deterministic() {
    let a1 = address_of("some-tag");
    let a2 = address_of("some-tag");
    assert_eq!(a1, a2);
    let b = address_of("another-tag");
    assert_ne!(a1, b);
}

#[test]
fn deploying_twice_at_one_address_is_refused() {
    let mut w = World::new();
    let a = address_of("spot");
    assert!(w.deploy_at(a, ContractKind::Vault).is_some());
    assert!(w.deploy_at(a, ContractKind::Proxy).is_none());
}

#[test]
fn block_context_overrides_persist() {
    let mut w = World::new();
    assert_eq!(w.block_number(), 0);
    assert_eq!(w.block_timestamp(), 0);
    w.set_block_number(123);
    w.set_block_timestamp(456);
    assert_eq!(w.block_number(), 123);
    assert_eq!(w.block_timestamp(), 456);
    // overrides survive dispatched calls
    let vault = w.contract_from_tag("vault", ContractKind::Vault).unwrap();
    let alice = w.address_from_tag("alice");
    vault
        .sender(alice)
        .invoke(&mut w, Method::IncreaseBalance, vec![Arg::W(U256::from_u64(1))])
        .unwrap();
    assert_eq!(w.block_number(), 123);
    assert_eq!(w.block_timestamp(), 456);
    assert_eq!(w.chain_id(), 42161);
}

#[test]
fn handle_surface_delegates_to_the_world() {
    let mut w = World::new();
    let vault = w.contract_from_tag("vault", ContractKind::Vault).unwrap();
    let alice = w.address_from_tag("alice");
    assert!(w.fund(alice, U256::from_u64(10)));
    vault
        .sender_and_value(alice, U256::from_u64(3))
        .invoke(&mut w, Method::Deposit, vec![])
        .unwrap();
    assert_eq!(vault.balance(&w), U256::from_u64(3));
    assert!(vault.emitted(&w, &deposited_event(alice, U256::from_u64(3))));
    assert!(!vault.emitted(&w, &deposited_event(alice, U256::from_u64(4))));
}

#[test]
fn tags_are_remembered_for_diagnostics() {
    let mut w = World::new();
    let alice = w.address_from_tag("alice");
    assert_eq!(w.tag_of(alice), Some(String::from("alice")));
    let stranger = Address::from_hex("deadbeefdeadbeefdeadbeefdeadbeefdeadbeef").unwrap();
    assert_eq!(w.tag_of(stranger), None);
}

#[test]
fn test_token_transfers() {
    let mut w = World::new();
    let token = w.contract_from_tag("token", ContractKind::Token).unwrap();
    let alice = w.address_from_tag("alice");
    let bob = w.address_from_tag("bob");
    let amount = U256::from_u64(100);

    token
        .sender(alice)
        .invoke(&mut w, Method::Mint, vec![Arg::A(alice), Arg::W(amount)])
        .unwrap();

    assert_eq!(
        token
            .sender(alice)
            .invoke(&mut w, Method::BalanceOf, vec![Arg::A(alice)])
            .unwrap(),
        vec![Arg::W(amount)]
    );
    assert_eq!(
        token
            .sender(alice)
            .invoke(&mut w, Method::BalanceOf, vec![Arg::A(bob)])
            .unwrap(),
        vec![Arg::W(U256::zero())]
    );

    let transfer_amount = U256::from_u64(30);
    token
        .sender(alice)
        .invoke(&mut w, Method::Transfer, vec![Arg::A(bob), Arg::W(transfer_amount)])
        .unwrap();

    assert_eq!(
        token
            .sender(alice)
            .invoke(&mut w, Method::BalanceOf, vec![Arg::A(alice)])
            .unwrap(),
        vec![Arg::W(U256::from_u64(70))]
    );
    assert_eq!(
        token
            .sender(alice)
            .invoke(&mut w, Method::BalanceOf, vec![Arg::A(bob)])
            .unwrap(),
        vec![Arg::W(transfer_amount)]
    );

    assert!(token.emitted(&w, &transfer_event(alice, bob, transfer_amount)));

    let too_much = U256::from_u64(200);
    let err = token
        .sender(alice)
        .invoke(&mut w, Method::Transfer, vec![Arg::A(bob), Arg::W(too_much)])
        .unwrap_err();
    assert!(matches!(
        err,
        CallError::Reverted(TypedError::InsufficientTokenBalance { .. })
    ));
}

#[test]
fn minting_reports_a_transfer_from_the_zero_address_and_grows_the_supply() {
    let mut w = World::new();
    let token = w.contract_from_tag("token", ContractKind::Token).unwrap();
    let alice = w.address_from_tag("alice");

    token
        .sender(alice)
        .invoke(&mut w, Method::Mint, vec![Arg::A(alice), Arg::W(U256::from_u64(5))])
        .unwrap();
    token
        .sender(alice)
        .invoke(&mut w, Method::Mint, vec![Arg::A(alice), Arg::W(U256::from_u64(7))])
        .unwrap();

    assert_eq!(
        token
            .sender(alice)
            .invoke(&mut w, Method::TotalSupply, vec![])
            .unwrap(),
        vec![Arg::W(U256::from_u64(12))]
    );
    let zero = Address { hi: 0, mid: 0, lo: 0 };
    assert!(token.emitted(&w, &transfer_event(zero, alice, U256::from_u64(5))));
    assert!(token.emitted(&w, &transfer_event(zero, alice, U256::from_u64(7))));
}
