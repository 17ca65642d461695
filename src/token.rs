//! Session identifiers: five upper-case letters drawn from a hashed random value.

use std::collections::hash_map::DefaultHasher;
use std::hash::Hasher;
use rand::Rng;
use vstd::prelude::*;
use vstd::std_specs::hash::DefaultHasherAdditionalSpecFns;

verus! {

/// Number of letters in an identifier.
pub const TOKEN_LEN: usize = 5;

/// Number of letters in the alphabet identifiers are drawn from.
pub const ALPHABET_SIZE: u64 = 26;

/// The letter that stands for digit `d` (`0 <= d < 26`).
pub open spec fn letter(d: nat) -> char {
    (65 + d) as char
}

/// Whether `c` is an upper-case Latin letter.
pub open spec fn is_upper_letter(c: char) -> bool {
    'A' <= c && c <= 'Z'
}

/// The first `k` base-26 digits of `h`, least significant first, as letters.
pub open spec fn digits_of(h: nat, k: nat) -> Seq<char>
    decreases k,
{
    if k == 0 {
        Seq::empty()
    } else {
        seq![letter(h % 26)] + digits_of(h / 26, (k - 1) as nat)
    }
}

/// The identifier derived from hash value `h`.
pub open spec fn token_of(h: u64) -> Seq<char> {
    digits_of(h as nat, TOKEN_LEN as nat)
}

/// Whether `s` has the shape of an identifier.
pub open spec fn is_token(s: Seq<char>) -> bool {
    &&& s.len() == TOKEN_LEN
    &&& forall|i: int| 0 <= i < s.len() ==> is_upper_letter(#[trigger] s[i])
}

/// `26` to the power `k`: how many identifiers of `k` letters there are.
pub open spec fn pow26(k: nat) -> nat
    decreases k,
{
    if k == 0 {
        1
    } else {
        26 * pow26((k - 1) as nat)
    }
}

/// The number whose base-26 spelling, least significant digit first, is `s`.
pub open spec fn value_of(s: Seq<char>) -> int
    decreases s.len(),
{
    if s.len() == 0 {
        0
    } else {
        (s[0] as int - 65) + 26 * value_of(s.drop_first())
    }
}

proof fn lemma_digits_period(h: nat, k: nat)
    ensures
        digits_of(h + pow26(k), k) == digits_of(h, k),
    decreases k,
{
    if k > 0 {
        let p = pow26((k - 1) as nat);
        assert((h + 26 * p) % 26 == h % 26);
        assert((h + 26 * p) / 26 == h / 26 + p);
        lemma_digits_period(h / 26, (k - 1) as nat);
    }
}

proof fn lemma_digits_injective(a: nat, b: nat, k: nat)
    requires
        a < pow26(k),
        b < pow26(k),
        digits_of(a, k) == digits_of(b, k),
    ensures
        a == b,
    decreases k,
{
    if k == 0 {
    } else {
        let p = pow26((k - 1) as nat);
        assert(digits_of(a, k)[0] == letter(a % 26));
        assert(digits_of(b, k)[0] == letter(b % 26));
        assert(a % 26 == b % 26);
        assert(digits_of(a, k).drop_first() =~= digits_of(a / 26, (k - 1) as nat));
        assert(digits_of(b, k).drop_first() =~= digits_of(b / 26, (k - 1) as nat));
        assert(a / 26 < p);
        assert(b / 26 < p);
        lemma_digits_injective(a / 26, b / 26, (k - 1) as nat);
    }
}

proof fn lemma_digits_onto(s: Seq<char>)
    requires
        forall|i: int| 0 <= i < s.len() ==> is_upper_letter(#[trigger] s[i]),
    ensures
        0 <= value_of(s) < pow26(s.len()),
        digits_of(value_of(s) as nat, s.len()) == s,
    decreases s.len(),
{
    if s.len() > 0 {
        let t = s.drop_first();
        assert forall|i: int| 0 <= i < t.len() implies is_upper_letter(#[trigger] t[i]) by {
            assert(t[i] == s[i + 1]);
        }
        lemma_digits_onto(t);
        let v = value_of(t);
        let d = s[0] as int - 65;
        assert(is_upper_letter(s[0]));
        assert(0 <= d < 26);
        assert((d + 26 * v) % 26 == d);
        assert((d + 26 * v) / 26 == v);
        assert(letter(d as nat) == s[0]);
        assert(digits_of(value_of(s) as nat, s.len()) =~= s);
    }
}

/// Uniformity: the identifier of a hash value depends only on its remainder
/// modulo `26^5`, and the `26^5` remainders give each identifier exactly once.
/// So over any whole number of such blocks of hash values every identifier,
/// and at each position every letter, comes up equally often.
pub proof fn lemma_tokens_uniform(h: u64, t: Seq<char>)
    ensures
        h + pow26(TOKEN_LEN as nat) <= u64::MAX ==> token_of((h + pow26(TOKEN_LEN as nat)) as u64)
            == token_of(h),
        is_token(t) ==> exists|r: u64| r < pow26(TOKEN_LEN as nat) && token_of(r) == t,
        forall|a: u64, b: u64|
            a < pow26(TOKEN_LEN as nat) && b < pow26(TOKEN_LEN as nat) && #[trigger] token_of(a)
                == #[trigger] token_of(b) ==> a == b,
{
    let n = TOKEN_LEN as nat;
    lemma_digits_period(h as nat, n);
    if is_token(t) {
        lemma_digits_onto(t);
        reveal_with_fuel(pow26, 6);
        assert(pow26(5) == 11881376);
        let r = value_of(t) as u64;
        assert(token_of(r) == t);
    }
    assert forall|a: u64, b: u64|
        a < pow26(n) && b < pow26(n) && #[trigger] token_of(a) == #[trigger] token_of(b) implies a
        == b by {
        lemma_digits_injective(a as nat, b as nat, n);
    }
}

/// Relies on `String::with_capacity`: the new string is empty.
pub assume_specification[ String::with_capacity ](capacity: usize) -> (r: String)
    ensures
        r@ == Seq::<char>::empty(),
;

/// Relies on `String::push`: the character is appended at the end.
pub assume_specification[ String::push ](s: &mut String, ch: char)
    ensures
        final(s)@ == old(s)@.push(ch),
;

/// Relies on rand's `thread_rng` and `Rng::gen_range`: a value drawn from
/// `0..u64::MAX`, so never `u64::MAX` itself.
#[verifier::external_body]
fn random_u64() -> (r: u64)
    ensures
        r < u64::MAX,
{
    rand::thread_rng().gen_range(0..u64::MAX)
}

/// Relies on `u64::to_ne_bytes`: the value's eight bytes in native order, the
/// bytes that std's `Hash` impl for `u64` feeds to a hasher.
#[verifier::external_body]
fn native_bytes(v: u64) -> (r: [u8; 8]) {
    v.to_ne_bytes()
}

proof fn lemma_digits_len(h: nat, k: nat)
    ensures
        digits_of(h, k).len() == k,
        forall|i: int| 0 <= i < k ==> is_upper_letter(#[trigger] digits_of(h, k)[i]),
    decreases k,
{
    if k > 0 {
        lemma_digits_len(h / 26, (k - 1) as nat);
        let rest = digits_of(h / 26, (k - 1) as nat);
        assert(0 <= h % 26 < 26);
        assert(digits_of(h, k) == seq![letter(h % 26)] + rest);
        assert forall|i: int| 0 <= i < k implies is_upper_letter(#[trigger] digits_of(h, k)[i]) by {
            if i > 0 {
                assert(digits_of(h, k)[i] == rest[i - 1]);
            }
        }
    }
}

/// Every identifier derived from a hash value has the identifier shape.
pub proof fn lemma_token_shape(h: u64)
    ensures
        is_token(token_of(h)),
{
    lemma_digits_len(h as nat, TOKEN_LEN as nat);
}

/// Spells out `hash` as five base-26 letters, least significant digit first.
pub fn token_from_hash(hash: u64) -> (r: String)
    ensures
        r@ == token_of(hash),
        is_token(r@),
{
    let mut link = String::with_capacity(TOKEN_LEN);
    let mut h: u64 = hash;
    let mut i: usize = 0;
    while i < TOKEN_LEN
        invariant
            0 <= i <= TOKEN_LEN,
            link@ + digits_of(h as nat, (TOKEN_LEN - i) as nat) == token_of(hash),
        decreases TOKEN_LEN - i,
    {
        let d: u64 = h % ALPHABET_SIZE;
        let ch = (65u8 + d as u8) as char;
        assert(ch == letter(h as nat % 26));
        let ghost before = link@;
        let ghost rest = digits_of(h as nat / 26, (TOKEN_LEN - i - 1) as nat);
        link.push(ch);
        assert(digits_of(h as nat, (TOKEN_LEN - i) as nat) == seq![ch] + rest);
        assert(link@ + rest == before + (seq![ch] + rest));
        h = h / ALPHABET_SIZE;
        i = i + 1;
    }
    assert(link@ == link@ + digits_of(h as nat, 0));
    proof {
        lemma_token_shape(hash);
    }
    link
}

/// The identifier spelled from the default hasher's digest of the eight
/// bytes `b`, the bytes of a drawn value.
pub open spec fn hashed_token(b: Seq<u8>) -> Seq<char> {
    token_of(DefaultHasher::spec_finish(seq![b]))
}

/// Draws a fresh identifier: a random value, hashed with std's default hasher,
/// spelled out as letters. Identifiers are not checked for uniqueness.
pub fn uid() -> (r: String)
    ensures
        is_token(r@),
        exists|b: Seq<u8>| b.len() == 8 && r@ == hashed_token(b),
{
    let value = random_u64();
    let mut hasher = DefaultHasher::new();
    let bytes: [u8; 8] = native_bytes(value);
    hasher.write(&bytes);
    let ghost b = bytes@;
    assert(b.len() == 8);
    assert(hasher@ =~= seq![b]);
    let hash = hasher.finish();
    token_from_hash(hash)
}

} // verus!
