//! The identity of a transfer: a key derived from its source and destination
//! paths alone, written as lower-case hexadecimal.

use vstd::prelude::*;
use vstd::std_specs::hash::DefaultHasherAdditionalSpecFns;
use vstd::utf8::encode_utf8;
use std::collections::hash_map::DefaultHasher;
use std::hash::Hasher;

verus! {

/// The digits of bases up to sixteen, lower case.
pub open spec fn digit_alphabet() -> Seq<char> {
    seq!['0', '1', '2', '3', '4', '5', '6', '7', '8', '9', 'a', 'b', 'c', 'd', 'e', 'f']
}

/// `n` written in base `base`, most significant digit first, without leading zeros.
pub open spec fn radix_text(n: nat, base: nat) -> Seq<char>
    decreases n
    via radix_text_decreases
{
    if base < 2 || n < base {
        seq![digit_alphabet()[n as int]]
    } else {
        radix_text(n / base, base).push(digit_alphabet()[(n % base) as int])
    }
}

/// What is fed to the hasher for a pair of paths: each path's UTF-8 bytes,
/// each followed by the byte 0xff, as `str` hashing does.
pub open spec fn identity_writes(source: Seq<char>, destination: Seq<char>) -> Seq<Seq<u8>> {
    seq![encode_utf8(source), seq![0xffu8], encode_utf8(destination), seq![0xffu8]]
}

/// The transfer id of a source and destination: the hexadecimal form of the
/// default hasher's digest of the two paths.
pub open spec fn transfer_id_of(source: Seq<char>, destination: Seq<char>) -> Seq<char> {
    radix_text(DefaultHasher::spec_finish(identity_writes(source, destination)) as nat, 16)
}

#[via_fn]
proof fn radix_text_decreases(n: nat, base: nat) {
    if !(base < 2 || n < base) {
        lemma_quotient_smaller(n, base);
    }
}

proof fn lemma_quotient_smaller(n: nat, base: nat)
    requires
        2 <= base <= n,
    ensures
        n / base < n,
{
    assert(n / base < n) by (nonlinear_arith)
        requires
            2 <= base <= n,
    ;
}

/// Each digit stands for one value.
proof fn lemma_digits_distinct(i: int, j: int)
    requires
        0 <= i < 16,
        0 <= j < 16,
        digit_alphabet()[i] == digit_alphabet()[j],
    ensures
        i == j,
{
}

proof fn lemma_radix_text_nonempty(n: nat, base: nat)
    ensures
        radix_text(n, base).len() >= 1,
    decreases n,
{
    if !(base < 2 || n < base) {
        lemma_quotient_smaller(n, base);
        lemma_radix_text_nonempty(n / base, base);
    }
}

/// Different numbers have different hexadecimal forms.
pub proof fn lemma_hex_text_injective(a: nat, b: nat)
    requires
        radix_text(a, 16) == radix_text(b, 16),
    ensures
        a == b,
    decreases a + b,
{
    let ta = radix_text(a, 16);
    let tb = radix_text(b, 16);
    lemma_radix_text_nonempty(a / 16, 16);
    lemma_radix_text_nonempty(b / 16, 16);
    if a < 16 && b < 16 {
        assert(ta[0] == tb[0]);
        lemma_digits_distinct(a as int, b as int);
    } else if a < 16 {
        assert(ta.len() == 1);
        assert(tb.len() >= 2);
    } else if b < 16 {
        assert(tb.len() == 1);
        assert(ta.len() >= 2);
    } else {
        assert(ta.last() == tb.last());
        lemma_digits_distinct((a % 16) as int, (b % 16) as int);
        assert(ta.drop_last() == radix_text(a / 16, 16));
        assert(tb.drop_last() == radix_text(b / 16, 16));
        lemma_hex_text_injective(a / 16, b / 16);
    }
}

/// Two requests get the same transfer id exactly when the default hasher
/// gives their paths the same digest: the id is a function of the two paths
/// alone, and the hexadecimal form adds no collision of its own.
pub proof fn lemma_transfer_id_identity(s1: Seq<char>, d1: Seq<char>, s2: Seq<char>, d2: Seq<char>)
    ensures
        transfer_id_of(s1, d1) == transfer_id_of(s2, d2) <==> DefaultHasher::spec_finish(
            identity_writes(s1, d1),
        ) == DefaultHasher::spec_finish(identity_writes(s2, d2)),
{
    let h1 = DefaultHasher::spec_finish(identity_writes(s1, d1)) as nat;
    let h2 = DefaultHasher::spec_finish(identity_writes(s2, d2)) as nat;
    if transfer_id_of(s1, d1) == transfer_id_of(s2, d2) {
        lemma_hex_text_injective(h1, h2);
    }
}

/// Different pairs of paths feed the hasher different writes: UTF-8 encoding
/// loses nothing, so only a collision of the hash itself can give two pairs
/// one transfer id.
pub proof fn lemma_distinct_pairs_distinct_writes(
    s1: Seq<char>,
    d1: Seq<char>,
    s2: Seq<char>,
    d2: Seq<char>,
)
    requires
        s1 != s2 || d1 != d2,
    ensures
        identity_writes(s1, d1) != identity_writes(s2, d2),
{
    vstd::utf8::encode_utf8_decode_utf8(s1);
    vstd::utf8::encode_utf8_decode_utf8(s2);
    vstd::utf8::encode_utf8_decode_utf8(d1);
    vstd::utf8::encode_utf8_decode_utf8(d2);
    if identity_writes(s1, d1) == identity_writes(s2, d2) {
        assert(identity_writes(s1, d1)[0] == identity_writes(s2, d2)[0]);
        assert(identity_writes(s1, d1)[2] == identity_writes(s2, d2)[2]);
    }
}

/// The digit `d` as a one-character string.
fn digit_string(d: u64) -> (r: &'static str)
    requires
        d < 16,
    ensures
        r@ == seq![digit_alphabet()[d as int]],
{
    let digits = "0123456789abcdef";
    proof {
        reveal_strlit("0123456789abcdef");
        assert(digits@ =~= digit_alphabet());
    }
    let r = digits.substring_char(d as usize, d as usize + 1);
    proof {
        assert(r@ =~= seq![digit_alphabet()[d as int]]);
    }
    r
}

/// `n` written in base `base`, most significant digit first.
pub fn radix_string(n: u64, base: u64) -> (r: String)
    requires
        2 <= base <= 16,
    ensures
        r@ == radix_text(n as nat, base as nat),
    decreases n,
{
    if n < base {
        String::from_str(digit_string(n))
    } else {
        proof {
            lemma_quotient_smaller(n as nat, base as nat);
        }
        let mut s = radix_string(n / base, base);
        s.append(digit_string(n % base));
        s
    }
}

/// The transfer id of copying `source` to `destination`: the same pair
/// always gives the same id, whatever the file's size or content.
pub fn generate_transfer_id(source: &str, destination: &str) -> (r: String)
    ensures
        r@ == transfer_id_of(source@, destination@),
{
    let separator: [u8; 1] = [0xffu8];
    let mut hasher = DefaultHasher::new();
    hasher.write(source.as_bytes());
    hasher.write(separator.as_slice());
    hasher.write(destination.as_bytes());
    hasher.write(separator.as_slice());
    let digest = hasher.finish();
    proof {
        assert(separator@ =~= seq![0xffu8]);
        assert(hasher@ =~= identity_writes(source@, destination@));
    }
    radix_string(digest, 16)
}

} // verus!
