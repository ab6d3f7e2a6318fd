//! Twenty-byte account and contract addresses, hexadecimal parsing, packing
//! into 256-bit words, and the deterministic derivation of an address from a
//! human-readable tag.

use vstd::prelude::*;
use vstd::arithmetic::div_mod::lemma_fundamental_div_mod_converse;
use vstd::string::StringSliceAdditionalSpecFns;
use crate::word::U256;

verus! {

/// A 20-byte address, packed big-endian: `hi` holds bytes 0..8, `mid` bytes
/// 8..16, `lo` bytes 16..20. Equality is equality of the byte values.
#[derive(Clone, Copy, PartialEq, Eq, Structural, Debug)]
pub struct Address {
    pub hi: u64,
    pub mid: u64,
    pub lo: u32,
}

impl Address {
    /// The address read as one big-endian 160-bit number.
    pub open spec fn as_nat(self) -> nat {
        (self.hi as nat * 0x1000000000000000000000000
            + self.mid as nat * 0x100000000
            + self.lo as nat) as nat
    }

    pub fn zero_addr() -> (r: Address)
        ensures
            r == (Address { hi: 0, mid: 0, lo: 0 }),
    {
        Address { hi: 0, mid: 0, lo: 0 }
    }

    /// Every address value is below 2^160.
    pub proof fn lemma_bound(self)
        ensures
            self.as_nat() < pow2_160(),
    {
    }

    /// Addresses with equal values are equal field for field.
    pub proof fn lemma_as_nat_injective(a: Address, b: Address)
        requires
            a.as_nat() == b.as_nat(),
        ensures
            a == b,
    {
        let n = a.as_nat() as int;
        lemma_fundamental_div_mod_converse(
            n,
            0x100000000,
            a.hi as int * 0x10000000000000000 + a.mid as int,
            a.lo as int,
        );
        lemma_fundamental_div_mod_converse(
            n,
            0x100000000,
            b.hi as int * 0x10000000000000000 + b.mid as int,
            b.lo as int,
        );
        let q = n / 0x100000000;
        lemma_fundamental_div_mod_converse(q, 0x10000000000000000, a.hi as int, a.mid as int);
        lemma_fundamental_div_mod_converse(q, 0x10000000000000000, b.hi as int, b.mid as int);
    }

    /// Packs the address into the low 160 bits of a word.
    pub fn to_word(self) -> (r: U256)
        ensures
            r.as_nat() == self.as_nat(),
            r == addr_to_word_spec(self),
    {
        let low: u128 = self.mid as u128 * 0x100000000 + self.lo as u128;
        let l0: u64 = (low % 0x10000000000000000u128) as u64;
        let carry: u64 = (low / 0x10000000000000000u128) as u64;
        let l1: u64 = (self.hi % 0x100000000) * 0x100000000 + carry;
        let l2: u64 = self.hi / 0x100000000;
        proof {
            assert(low == (low / 0x10000000000000000u128) as int * 0x10000000000000000 + l0);
            assert(self.hi == l2 as int * 0x100000000 + (self.hi as int % 0x100000000));
            assert(carry < 0x100000000) by {
                assert(low < 0x1000000000000000000000000);
            };
        }
        U256 { l0, l1, l2, l3: 0 }
    }

    /// Reads an address back out of the low 160 bits of a word.
    pub fn from_word(w: U256) -> (r: Address)
        ensures
            r.as_nat() == w.as_nat() % pow2_160(),
            w.as_nat() < pow2_160() ==> r.as_nat() == w.as_nat(),
            r == word_to_addr_spec(w),
    {
        let lo: u32 = (w.l0 % 0x100000000) as u32;
        let mid: u64 = w.l0 / 0x100000000 + (w.l1 % 0x100000000) * 0x100000000;
        let hi: u64 = w.l1 / 0x100000000 + (w.l2 % 0x100000000) * 0x100000000;
        let r = Address { hi, mid, lo };
        proof {
            let q0: int = w.l0 as int / 0x100000000;
            let m0: int = w.l0 as int % 0x100000000;
            let q1: int = w.l1 as int / 0x100000000;
            let m1: int = w.l1 as int % 0x100000000;
            let q2: int = w.l2 as int / 0x100000000;
            let m2: int = w.l2 as int % 0x100000000;
            assert(w.l0 == q0 * 0x100000000 + m0);
            assert(w.l1 == q1 * 0x100000000 + m1);
            assert(w.l2 == q2 * 0x100000000 + m2);
            assert(r.hi == q1 + m2 * 0x100000000);
            assert(r.mid == q0 + m1 * 0x100000000);
            assert(r.lo == m0);
            let junk: int = q2 + w.l3 as int * 0x100000000;
            assert(r.as_nat() as int == (q1 + m2 * 0x100000000) * 0x1000000000000000000000000 + (
            q0 + m1 * 0x100000000) * 0x100000000 + m0);
            assert(r.as_nat() as int == m0 + q0 * 0x100000000 + m1 * 0x10000000000000000 + q1
                * 0x1000000000000000000000000 + m2 * 0x100000000000000000000000000000000);
            assert(w.l1 as int * 0x10000000000000000 == q1 * 0x1000000000000000000000000 + m1
                * 0x10000000000000000);
            assert(w.l2 as int * 0x100000000000000000000000000000000 == q2
                * 0x10000000000000000000000000000000000000000 + m2
                * 0x100000000000000000000000000000000);
            assert(w.as_nat() as int == w.l0 as int + w.l1 as int * 0x10000000000000000 + w.l2
                as int * 0x100000000000000000000000000000000 + w.l3 as int
                * 0x1000000000000000000000000000000000000000000000000);
            assert(w.as_nat() as int == m0 + q0 * 0x100000000 + m1 * 0x10000000000000000 + q1
                * 0x1000000000000000000000000 + m2 * 0x100000000000000000000000000000000 + q2
                * 0x10000000000000000000000000000000000000000 + w.l3 as int
                * 0x1000000000000000000000000000000000000000000000000);
            let p160: int = pow2_160() as int;
            assert(p160 == 0x10000000000000000000000000000000000000000);
            assert(junk * p160 == q2 * 0x10000000000000000000000000000000000000000 + w.l3 as int
                * 0x1000000000000000000000000000000000000000000000000);
            assert(w.as_nat() as int == junk * p160 + r.as_nat() as int);
            lemma_fundamental_div_mod_converse(
                w.as_nat() as int,
                pow2_160() as int,
                junk,
                r.as_nat() as int,
            );
        }
        r
    }

    /// Round trip: packing an address into a word and reading it back gives
    /// the address itself.
    pub proof fn lemma_word_round_trip(a: Address, w: U256, b: Address)
        requires
            w.as_nat() == a.as_nat(),
            b.as_nat() == w.as_nat() % pow2_160(),
        ensures
            b == a,
    {
        a.lemma_bound();
        Address::lemma_as_nat_injective(a, b);
    }
}

/// The word whose low 160 bits spell the address.
pub open spec fn addr_to_word_spec(a: Address) -> U256 {
    U256 {
        l0: ((a.mid as nat * 0x100000000 + a.lo as nat) % 0x10000000000000000) as u64,
        l1: (((a.hi as nat % 0x100000000) * 0x100000000) + (a.mid as nat * 0x100000000
            + a.lo as nat) / 0x10000000000000000) as u64,
        l2: (a.hi as nat / 0x100000000) as u64,
        l3: 0,
    }
}

/// The address spelled by the low 160 bits of a word.
pub open spec fn word_to_addr_spec(w: U256) -> Address {
    Address {
        hi: (w.l1 as nat / 0x100000000 + (w.l2 as nat % 0x100000000) * 0x100000000) as u64,
        mid: (w.l0 as nat / 0x100000000 + (w.l1 as nat % 0x100000000) * 0x100000000) as u64,
        lo: (w.l0 as nat % 0x100000000) as u32,
    }
}

/// Two raised to the 160th power: the number of distinct addresses.
pub open spec fn pow2_160() -> nat {
    0x10000000000000000000000000000000000000000nat
}

/// True of the bytes of one hexadecimal digit.
pub open spec fn is_hex_digit(c: u8) -> bool {
    (0x30 <= c && c <= 0x39) || (0x61 <= c && c <= 0x66) || (0x41 <= c && c <= 0x46)
}

/// The value of one hexadecimal digit byte.
pub open spec fn hex_digit_val(c: u8) -> nat {
    if 0x30 <= c && c <= 0x39 {
        (c - 0x30) as nat
    } else if 0x61 <= c && c <= 0x66 {
        (c - 0x61 + 10) as nat
    } else if 0x41 <= c && c <= 0x46 {
        (c - 0x41 + 10) as nat
    } else {
        0
    }
}

/// The big-endian value of a string of hexadecimal digit bytes.
pub open spec fn hex_nat(s: Seq<u8>) -> nat
    decreases s.len(),
{
    if s.len() == 0 {
        0
    } else {
        hex_nat(s.drop_last()) * 16 + hex_digit_val(s.last())
    }
}

/// The input bytes with one leading `0x` or `0X` removed, if present.
pub open spec fn strip_0x(b: Seq<u8>) -> Seq<u8> {
    if b.len() >= 2 && b[0] == 0x30 && (b[1] == 0x78 || b[1] == 0x58) {
        b.subrange(2, b.len() as int)
    } else {
        b
    }
}

/// The address spelled by exactly forty hexadecimal digit bytes.
pub open spec fn addr_of_hex_digits(d: Seq<u8>) -> Address {
    Address {
        hi: hex_nat(d.subrange(0, 16)) as u64,
        mid: hex_nat(d.subrange(16, 32)) as u64,
        lo: hex_nat(d.subrange(32, 40)) as u32,
    }
}

impl Address {
    /// Parses a 40-digit hexadecimal address, with an optional `0x` prefix.
    /// Returns `None` exactly when the digits are not 40 hexadecimal digits.
    pub fn from_hex(s: &str) -> (r: Option<Address>)
        ensures
            r is Some <==> {
                let d = strip_0x(s.spec_bytes());
                d.len() == 40 && forall|i: int| 0 <= i < 40 ==> is_hex_digit(#[trigger] d[i])
            },
            r is Some ==> r->Some_0 == addr_of_hex_digits(strip_0x(s.spec_bytes())),
    {
        let b = s.as_bytes();
        let ghost whole = s.spec_bytes();
        let start: usize = if b.len() >= 2 && b[0] == 0x30 && (b[1] == 0x78 || b[1] == 0x58) {
            2
        } else {
            0
        };
        let ghost d = strip_0x(whole);
        proof {
            assert(d =~= whole.subrange(start as int, whole.len() as int));
        }
        if b.len() - start != 40 {
            return None;
        }
        let h = parse_hex_u64(b, start, 16);
        let m = parse_hex_u64(b, start + 16, 16);
        let l = parse_hex_u64(b, start + 32, 8);
        proof {
            assert(d.len() == 40);
            assert(forall|i: int| 0 <= i < 40 ==> #[trigger] d[i] == whole[start + i]);
            if forall|i: int| 0 <= i < 40 ==> is_hex_digit(#[trigger] d[i]) {
                assert forall|j: int| start <= j < start + 40 implies is_hex_digit(
                    #[trigger] b@[j],
                ) by {
                    assert(d[j - start] == whole[j]);
                    assert(is_hex_digit(d[j - start]));
                };
                assert(h is Some && m is Some && l is Some);
            }
        }
        match (h, m, l) {
            (Some(hi), Some(mid), Some(lo64)) => {
                proof {
                    lemma_pow16_values();
                    assert(d.subrange(0, 16) =~= whole.subrange(start as int, start as int + 16));
                    assert(d.subrange(16, 32) =~= whole.subrange(
                        start as int + 16,
                        start as int + 32,
                    ));
                    assert(d.subrange(32, 40) =~= whole.subrange(
                        start as int + 32,
                        start as int + 40,
                    ));
                    assert forall|i: int| 0 <= i < 40 implies is_hex_digit(#[trigger] d[i]) by {
                        assert(d[i] == whole[start + i]);
                    };
                }
                Some(Address { hi, mid, lo: lo64 as u32 })
            },
            _ => None,
        }
    }
}

/// Parses `n <= 16` hexadecimal digit bytes starting at `start`; `None`
/// exactly when one of them is not a hexadecimal digit.
fn parse_hex_u64(b: &[u8], start: usize, n: usize) -> (r: Option<u64>)
    requires
        n <= 16,
        start + n <= b@.len(),
    ensures
        r is Some <==> forall|i: int|
            start <= i < start + n ==> is_hex_digit(#[trigger] b@[i]),
        r is Some ==> r->Some_0 == hex_nat(b@.subrange(start as int, (start + n) as int)),
        r is Some ==> r->Some_0 < pow16(n as nat),
{
    let blen: usize = b.len();
    let mut acc: u64 = 0;
    let mut i: usize = 0;
    proof {
        assert(b@.subrange(start as int, start as int) =~= Seq::<u8>::empty());
    }
    while i < n
        invariant
            i <= n,
            n <= 16,
            start + n <= blen == b@.len(),
            acc == hex_nat(b@.subrange(start as int, (start + i) as int)),
            acc < pow16(i as nat),
            forall|j: int| start <= j < start + i ==> is_hex_digit(#[trigger] b@[j]),
        decreases n - i,
    {
        let c = b[start + i];
        let v: u64 = if 0x30 <= c && c <= 0x39 {
            (c - 0x30) as u64
        } else if 0x61 <= c && c <= 0x66 {
            (c - 0x61 + 10) as u64
        } else if 0x41 <= c && c <= 0x46 {
            (c - 0x41 + 10) as u64
        } else {
            return None;
        };
        proof {
            assert(pow16((i + 1) as nat) == 16 * pow16(i as nat));
            lemma_pow16_bound((i + 1) as nat);
            assert(b@.subrange(start as int, (start + i + 1) as int).drop_last() =~= b@.subrange(
                start as int,
                (start + i) as int,
            ));
            assert(b@.subrange(start as int, (start + i + 1) as int).last() == b@[start + i]);
        }
        acc = acc * 16 + v;
        i = i + 1;
    }
    Some(acc)
}

/// Sixteen raised to the given power.
pub open spec fn pow16(n: nat) -> nat
    decreases n,
{
    if n == 0 {
        1
    } else {
        16 * pow16((n - 1) as nat)
    }
}

/// The two powers of sixteen that bound the parsing accumulators.
proof fn lemma_pow16_values()
    ensures
        pow16(8) == 0x100000000,
        pow16(16) == 0x10000000000000000,
{
    reveal_with_fuel(pow16, 17);
}

/// Up to the sixteenth power the accumulator stays within a `u64`.
proof fn lemma_pow16_bound(n: nat)
    requires
        n <= 16,
    ensures
        pow16(n) <= 0x10000000000000000,
{
    lemma_pow16_values();
    lemma_pow16_mono(n, 16);
}

/// `pow16` grows with its argument.
proof fn lemma_pow16_mono(a: nat, b: nat)
    requires
        a <= b,
    ensures
        pow16(a) <= pow16(b),
    decreases b,
{
    if a < b {
        lemma_pow16_mono(a, (b - 1) as nat);
        assert(pow16(b) == 16 * pow16((b - 1) as nat));
    }
}

/// The plain tag derivation: the address a tag itself hashes to. A function
/// of the tag's characters alone; its concrete values are fixed by the
/// outside hash.
pub uninterp spec fn tag_address_of(tag: Seq<char>) -> Address;

/// Relies on `alloy_primitives::keccak256`: the result is the first twenty
/// bytes of the digest of the tag's bytes, so it depends on the tag's
/// characters alone.
#[verifier::external_body]
fn derive_tag_address(tag: &str) -> (r: Address)
    ensures
        r == tag_address_of(tag@),
{
    let digest = alloy_primitives::keccak256(tag.as_bytes());
    addr_from_be_bytes(&digest.as_slice()[..20])
}

/// The keyed tag derivation: the address belonging to the signing key a tag
/// hashes to. A function of the tag's characters alone; its concrete values
/// are fixed by the outside hash and curve.
pub uninterp spec fn tag_key_address_of(tag: Seq<char>) -> Address;

/// Relies on `alloy_primitives::keccak256` and
/// `alloy_signer_local::PrivateKeySigner`: the digest of the tag's bytes is
/// taken as a secp256k1 signing key and the key's address is returned. Both
/// steps depend on the tag's characters alone, so the result is a pure
/// function of the tag; the negligible set of digests that are not valid
/// keys is mapped, still deterministically, to the zero address.
#[verifier::external_body]
fn derive_tag_key_address(tag: &str) -> (r: Address)
    ensures
        r == tag_key_address_of(tag@),
{
    let digest = alloy_primitives::keccak256(tag.as_bytes());
    match alloy_signer_local::PrivateKeySigner::from_slice(digest.as_slice()) {
        Ok(signer) => addr_from_be_bytes(signer.address().as_slice()),
        Err(_) => Address::zero_addr(),
    }
}

/// The big-endian value of a string of bytes.
pub open spec fn be_bytes_nat(s: Seq<u8>) -> nat
    decreases s.len(),
{
    if s.len() == 0 {
        0
    } else {
        be_bytes_nat(s.drop_last()) * 256 + s.last() as nat
    }
}

/// Packs `n <= 8` big-endian bytes starting at `start` into one number.
fn read_be_u64(b: &[u8], start: usize, n: usize) -> (r: u64)
    requires
        n <= 8,
        start + n <= b@.len(),
    ensures
        r == be_bytes_nat(b@.subrange(start as int, (start + n) as int)),
        r < pow16((2 * n) as nat),
{
    let blen: usize = b.len();
    let mut acc: u64 = 0;
    let mut i: usize = 0;
    proof {
        assert(b@.subrange(start as int, start as int) =~= Seq::<u8>::empty());
    }
    while i < n
        invariant
            i <= n,
            n <= 8,
            start + n <= blen == b@.len(),
            acc == be_bytes_nat(b@.subrange(start as int, (start + i) as int)),
            acc < pow16((2 * i) as nat),
        decreases n - i,
    {
        proof {
            assert(pow16((2 * i + 1) as nat) == 16 * pow16((2 * i) as nat));
            assert(pow16((2 * i + 2) as nat) == 16 * pow16((2 * i + 1) as nat));
            lemma_pow16_bound((2 * i + 2) as nat);
            assert(b@.subrange(start as int, (start + i + 1) as int).drop_last() =~= b@.subrange(
                start as int,
                (start + i) as int,
            ));
            assert(b@.subrange(start as int, (start + i + 1) as int).last() == b@[start + i]);
        }
        acc = acc * 256 + b[start + i] as u64;
        i = i + 1;
    }
    acc
}

/// Reads a 20-byte big-endian address out of a byte slice.
pub fn addr_from_be_bytes(b: &[u8]) -> (r: Address)
    requires
        b@.len() == 20,
    ensures
        r == (Address {
            hi: be_bytes_nat(b@.subrange(0, 8)) as u64,
            mid: be_bytes_nat(b@.subrange(8, 16)) as u64,
            lo: be_bytes_nat(b@.subrange(16, 20)) as u32,
        }),
{
    let hi = read_be_u64(b, 0, 8);
    let mid = read_be_u64(b, 8, 16 - 8);
    let lo = read_be_u64(b, 16, 20 - 16);
    proof {
        lemma_pow16_values();
    }
    Address { hi, mid, lo: lo as u32 }
}

/// The registry derivation for a plain address or contract tag.
pub fn address_of(tag: &str) -> (r: Address)
    ensures
        r == tag_address_of(tag@),
{
    derive_tag_address(tag)
}

/// The registry derivation for an account tag, whose address must belong to
/// the account's signing key.
pub fn account_address_of(tag: &str) -> (r: Address)
    ensures
        r == tag_key_address_of(tag@),
{
    derive_tag_key_address(tag)
}

/// The 65-byte signature the tag's signing key produces over a message.
/// Signing is the tag's digest taken as a secp256k1 key, the message hashed
/// with its length prefix, and a deterministic nonce derived from key and
/// hash alone, so the bytes are a pure function of tag and message.
pub uninterp spec fn tag_signature_of(tag: Seq<char>, msg: Seq<u8>) -> Seq<u8>;

/// Whether signing under the tag's key succeeds at all. Every step of the
/// pipeline is deterministic, so success too is a pure function of tag and
/// message.
pub uninterp spec fn tag_key_signs(tag: Seq<char>, msg: Seq<u8>) -> bool;

/// Relies on `alloy_primitives::keccak256`,
/// `alloy_signer_local::PrivateKeySigner` and
/// `alloy_signer::SignerSync::sign_message_sync`: signs a message with the
/// signing key that the tag hashes to. The signature is 65 bytes, and both
/// it and the success of the call depend on the tag and message alone: the
/// nonce comes from the deterministic derivation the curve library
/// documents, never from a random source.
#[verifier::external_body]
pub(crate) fn sign_with_tag_key(tag: &str, msg: &[u8]) -> (r: Option<Vec<u8>>)
    ensures
        r is Some <==> tag_key_signs(tag@, msg@),
        r is Some ==> r->Some_0@ == tag_signature_of(tag@, msg@),
        r is Some ==> r->Some_0@.len() == 65,
{
    let digest = alloy_primitives::keccak256(tag.as_bytes());
    let signer = match alloy_signer_local::PrivateKeySigner::from_slice(digest.as_slice()) {
        Ok(s) => s,
        Err(_) => return None,
    };
    match alloy_signer::SignerSync::sign_message_sync(&signer, msg) {
        Ok(sig) => Some(sig.as_bytes().to_vec()),
        Err(_) => None,
    }
}

} // verus!
