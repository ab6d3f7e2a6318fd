use testvm::addr::Address;
use testvm::word::U256;

#[test]
fn word_addition_exact_values() {
    let a = U256::from_u64(u64::MAX);
    let one = U256::from_u64(1);
    let sum = a.checked_add(one).unwrap();
    assert_eq!(sum, U256 { l0: 0, l1: 1, l2: 0, l3: 0 });

    let back = sum.checked_sub(one).unwrap();
    assert_eq!(back, a);
}

#[test]
fn word_addition_overflows_at_the_top() {
    let max = U256 { l0: u64::MAX, l1: u64::MAX, l2: u64::MAX, l3: u64::MAX };
    assert!(max.checked_add(U256::from_u64(1)).is_none());
    assert!(max.checked_add(U256::zero()).is_some());
}

#[test]
fn word_subtraction_underflows_below_zero() {
    let small = U256::from_u64(3);
    let big = U256::from_u64(5);
    assert!(small.checked_sub(big).is_none());
    assert_eq!(big.checked_sub(small).unwrap(), U256::from_u64(2));
}

#[test]
fn word_comparison_orders_by_value() {
    let lo = U256::from_u64(9);
    let hi = U256 { l0: 0, l1: 0, l2: 1, l3: 0 };
    assert!(lo.lt(hi));
    assert!(!hi.lt(lo));
    assert!(!lo.lt(lo));
}

#[test]
fn address_hex_parsing_accepts_both_prefixes() {
    let bare = Address::from_hex("328809bc894f92807417d2dad6b7c998c1afdac6").unwrap();
    let pre = Address::from_hex("0x328809bc894f92807417d2dad6b7c998c1afdac6").unwrap();
    let caps = Address::from_hex("0X328809BC894F92807417D2DAD6B7C998C1AFDAC6").unwrap();
    assert_eq!(bare, pre);
    assert_eq!(bare, caps);
    assert_eq!(bare.hi, 0x328809bc894f9280);
    assert_eq!(bare.mid, 0x7417d2dad6b7c998);
    assert_eq!(bare.lo, 0xc1afdac6);
}

#[test]
fn address_hex_parsing_rejects_bad_input() {
    assert!(Address::from_hex("").is_none());
    assert!(Address::from_hex("0x1234").is_none());
    assert!(Address::from_hex("zz8809bc894f92807417d2dad6b7c998c1afdac6").is_none());
    assert!(Address::from_hex("0x328809bc894f92807417d2dad6b7c998c1afdac60").is_none());
}

#[test]
fn address_word_round_trip() {
    let a = Address::from_hex("0x38e47a7b719dce63662aeaf43440326f551b8a7e").unwrap();
    let w = a.to_word();
    let b = Address::from_word(w);
    assert_eq!(a, b);

    // a word beyond 160 bits truncates to its low bits
    let big = U256 { l0: 5, l1: 0, l2: 0, l3: 77 };
    assert_eq!(Address::from_word(big), Address { hi: 0, mid: 0, lo: 5 });
}

#[test]
fn funding_is_refused_when_the_ledger_total_would_overflow() {
    let mut w = testvm::world::World::new();
    let a = testvm::addr::address_of("rich");
    let huge = U256 { l0: 0, l1: 0, l2: 0, l3: u64::MAX };
    assert!(w.fund(a, huge));
    assert!(!w.fund(a, huge));
    // the refused funding changed nothing
    assert_eq!(w.balance(a), huge);
}

