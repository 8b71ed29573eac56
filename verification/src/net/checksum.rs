//! The Internet checksum (RFC 1071): a ones'-complement sum of big-endian 16-bit words.
use vstd::prelude::*;
use crate::net::wire::{be16, u16_be};

verus! {

/// A length up to which the word sum of any input, added to a pseudo-header sum, fits in
/// 32 bits (see `lemma_short_sum_fits`).
pub const MAX_SUM_LEN: usize = 131000;

/// Sum of the big-endian 16-bit words of `s`; an odd final byte counts as its high byte.
pub open spec fn word_sum(s: Seq<u8>) -> nat
    decreases s.len(),
{
    if s.len() == 0 {
        0
    } else if s.len() == 1 {
        s[0] as nat * 256
    } else {
        be16(s[0], s[1]) as nat + word_sum(s.subrange(2, s.len() as int))
    }
}

/// End-around-carry folding of a sum into 16 bits.
pub open spec fn fold16(n: nat) -> nat
    decreases n,
{
    if n < 0x10000 {
        n
    } else {
        proof {
            lemma_fold_step_decreases(n);
        }
        fold16(n % 0x10000 + n / 0x10000)
    }
}

/// The checksum of a word sum: the ones' complement of its folded value.
pub open spec fn complement16(n: nat) -> u16 {
    (0xFFFF - fold16(n)) as u16
}

pub proof fn lemma_fold_step_decreases(n: nat)
    requires
        n >= 0x10000,
    ensures
        n % 0x10000 + n / 0x10000 < n,
        (n % 0x10000 + n / 0x10000) % 0xFFFF == n % 0xFFFF,
        n % 0x10000 + n / 0x10000 > 0,
{
    let q = n / 0x10000;
    let r = n % 0x10000;
    vstd::arithmetic::div_mod::lemma_fundamental_div_mod(n as int, 0x10000);
    assert(q >= 1) by {
        vstd::arithmetic::div_mod::lemma_div_is_ordered(0x10000, n as int, 0x10000);
    }
    assert(n == 0xFFFF * q + (q + r));
    vstd::arithmetic::div_mod::lemma_mod_multiples_vanish(q as int, (q + r) as int, 0xFFFF);
}

/// Folding yields a 16-bit value that is congruent to the sum modulo 0xFFFF, is no larger
/// than the sum, and is zero only for a zero sum.
pub proof fn lemma_fold16(n: nat)
    ensures
        fold16(n) <= 0xFFFF,
        fold16(n) <= n,
        fold16(n) % 0xFFFF == n % 0xFFFF,
        n > 0 ==> fold16(n) > 0,
    decreases n,
{
    if n >= 0x10000 {
        lemma_fold_step_decreases(n);
        lemma_fold16(n % 0x10000 + n / 0x10000);
    }
}

/// The checksum law: adding the complement of a folded sum to that sum folds to 0xFFFF.
pub proof fn lemma_complement_sums_to_ffff(s: nat)
    ensures
        fold16(s + complement16(s) as nat) == 0xFFFF,
{
    lemma_fold16(s);
    let f = fold16(s);
    let t: nat = s + (0xFFFF - f) as nat;
    assert(complement16(s) as nat == 0xFFFF - f);
    lemma_fold16(t);
    // t - 0xFFFF == s - f, which is a multiple of 0xFFFF
    vstd::arithmetic::div_mod::lemma_fundamental_div_mod(s as int, 0xFFFF);
    vstd::arithmetic::div_mod::lemma_fundamental_div_mod(f as int, 0xFFFF);
    let k = s / 0xFFFF - f / 0xFFFF;
    assert(s - f == 0xFFFF * k);
    assert(t == 0xFFFF * (k + 1));
    vstd::arithmetic::div_mod::lemma_mod_multiples_vanish((k + 1) as int, 0, 0xFFFF);
    assert(t % 0xFFFF == 0);
    assert(t > 0) by {
        if f == 0xFFFF {
            assert(s > 0);
        }
    }
    let g = fold16(t);
    assert(g % 0xFFFF == 0);
    assert(0 < g <= 0xFFFF);
    if g < 0xFFFF {
        vstd::arithmetic::div_mod::lemma_small_mod(g, 0xFFFF);
    }
}

/// The word sum of a concatenation whose first part has even length.
pub proof fn lemma_word_sum_concat(a: Seq<u8>, b: Seq<u8>)
    requires
        a.len() % 2 == 0,
    ensures
        word_sum(a + b) == word_sum(a) + word_sum(b),
    decreases a.len(),
{
    if a.len() > 0 {
        let ab = a + b;
        assert(ab.subrange(2, ab.len() as int) =~= a.subrange(2, a.len() as int) + b);
        lemma_word_sum_concat(a.subrange(2, a.len() as int), b);
    } else {
        assert(a + b =~= b);
    }
}

/// A bound on the word sum: at most 0xFFFF per started word.
pub proof fn lemma_word_sum_bound(s: Seq<u8>)
    ensures
        word_sum(s) <= 0xFFFF * ((s.len() + 1) / 2),
    decreases s.len(),
{
    if s.len() >= 2 {
        lemma_word_sum_bound(s.subrange(2, s.len() as int));
    }
}

/// The word sum of a prefix of `s`, one word further.
pub proof fn lemma_word_sum_take_step(s: Seq<u8>, i: int)
    requires
        0 <= i,
        i % 2 == 0,
        i + 2 <= s.len(),
    ensures
        word_sum(s.take(i + 2)) == word_sum(s.take(i)) + be16(s[i], s[i + 1]),
{
    let w = seq![s[i], s[i + 1]];
    assert(s.take(i + 2) =~= s.take(i) + w);
    lemma_word_sum_concat(s.take(i), w);
    assert(w.subrange(2, 2) =~= Seq::<u8>::empty());
    assert(word_sum(w.subrange(2, w.len() as int)) == 0);
    assert(word_sum(w) == be16(s[i], s[i + 1]) as nat);
}

/// The word sum of a prefix of `s`, extended by its final odd byte.
pub proof fn lemma_word_sum_take_last(s: Seq<u8>, i: int)
    requires
        0 <= i,
        i % 2 == 0,
        i + 1 == s.len(),
    ensures
        word_sum(s) == word_sum(s.take(i)) + s[i] as nat * 256,
{
    let w = seq![s[i]];
    assert(s =~= s.take(i) + w);
    lemma_word_sum_concat(s.take(i), w);
}

/// Writing a value into a 16-bit field at an even offset adds that value to the word sum.
pub proof fn lemma_checksum_field(p: Seq<u8>, q: Seq<u8>, c: u16)
    requires
        p.len() % 2 == 0,
    ensures
        word_sum(p + u16_be(c) + q) == word_sum(p + u16_be(0) + q) + c,
{
    lemma_word_sum_field(p, q, c);
    lemma_word_sum_field(p, q, 0);
}

proof fn lemma_word_sum_field(p: Seq<u8>, q: Seq<u8>, c: u16)
    requires
        p.len() % 2 == 0,
    ensures
        word_sum(p + u16_be(c) + q) == word_sum(p) + c + word_sum(q),
{
    let w = u16_be(c);
    assert(p + w + q =~= p + (w + q));
    lemma_word_sum_concat(p, w + q);
    lemma_word_sum_concat(w, q);
    assert(w.subrange(2, 2) =~= Seq::<u8>::empty());
    assert(word_sum(w.subrange(2, w.len() as int)) == 0);
    crate::net::wire::lemma_u16_be_roundtrip(c);
}

/// A checksum computed with its field zeroed, then stored in that field, makes the
/// folded sum (with any extra pseudo-header sum) equal 0xFFFF.
pub proof fn lemma_checksum_verifies(extra: nat, p: Seq<u8>, q: Seq<u8>)
    requires
        p.len() % 2 == 0,
    ensures
        fold16(extra + word_sum(p + u16_be(complement16(extra + word_sum(p + u16_be(0) + q))) + q))
            == 0xFFFF,
{
    let s = extra + word_sum(p + u16_be(0) + q);
    lemma_checksum_field(p, q, complement16(s));
    lemma_complement_sums_to_ffff(s);
}

/// A message whose bytes 2 and 3 are replaced by the big-endian checksum of the message.
pub open spec fn with_checksum_field(body: Seq<u8>) -> Seq<u8> {
    body.subrange(0, 2) + u16_be(complement16(word_sum(body))) + body.subrange(4, body.len() as int)
}

/// A message with its checksum filled in sums (folded) to 0xFFFF, so its checksum is 0.
pub proof fn lemma_filled_verifies(body: Seq<u8>)
    requires
        body.len() >= 4,
        body[2] == 0,
        body[3] == 0,
    ensures
        fold16(word_sum(with_checksum_field(body))) == 0xFFFF,
        complement16(word_sum(with_checksum_field(body))) == 0,
{
    let p = body.subrange(0, 2);
    let q = body.subrange(4, body.len() as int);
    assert(body =~= p + u16_be(0) + q);
    lemma_checksum_verifies(0, p, q);
}

/// Stores the checksum of a message with a zero checksum field in its bytes 2 and 3.
pub fn fill_checksum_field(packet: &mut Vec<u8>)
    requires
        4 <= old(packet)@.len(),
        word_sum(old(packet)@) <= u32::MAX,
        old(packet)@[2] == 0,
        old(packet)@[3] == 0,
    ensures
        final(packet)@ == with_checksum_field(old(packet)@),
{
    let sum = sum_words(packet.as_slice(), 0);
    let cs = complement(fold_sum(sum));
    packet.set(2, (cs / 256) as u8);
    packet.set(3, (cs % 256) as u8);
    assert(final(packet)@ =~= with_checksum_field(old(packet)@));
}

/// Folds a 32-bit running sum into 16 bits with end-around carry.
pub fn fold_sum(sum: u32) -> (r: u16)
    ensures
        r as nat == fold16(sum as nat),
{
    let mut s = sum;
    while (s >> 16) != 0
        invariant
            fold16(s as nat) == fold16(sum as nat),
        decreases s,
    {
        assert((s >> 16) == s / 0x10000 && (s & 0xFFFF) == s % 0x10000) by (bit_vector);
        proof {
            lemma_fold_step_decreases(s as nat);
        }
        s = (s & 0xFFFF) + (s >> 16);
    }
    assert((s >> 16) == s / 0x10000) by (bit_vector);
    s as u16
}

/// The word sum of a prefix of even length is at most the word sum of the whole.
pub proof fn lemma_word_sum_prefix(s: Seq<u8>, i: int)
    requires
        0 <= i <= s.len(),
        i % 2 == 0,
    ensures
        word_sum(s.take(i)) <= word_sum(s),
{
    assert(s =~= s.take(i) + s.skip(i));
    lemma_word_sum_concat(s.take(i), s.skip(i));
}

/// Inputs of at most `MAX_SUM_LEN` bytes, added to a small start, fit in 32 bits.
pub proof fn lemma_short_sum_fits(s: Seq<u8>, start: nat)
    requires
        s.len() <= MAX_SUM_LEN,
        start <= 0x10_0000,
    ensures
        start + word_sum(s) <= u32::MAX,
{
    lemma_word_sum_bound(s);
    let n = s.len();
    assert(0xFFFF * ((n + 1) / 2) <= 0xFFFF * 65500) by (nonlinear_arith)
        requires n <= 131000;
}

/// Adds the big-endian words of `data` to `start`; the total must fit in 32 bits.
pub fn sum_words(data: &[u8], start: u32) -> (r: u32)
    requires
        start as nat + word_sum(data@) <= u32::MAX,
    ensures
        r as nat == start as nat + word_sum(data@),
{
    let n = data.len();
    let mut sum = start;
    let mut i: usize = 0;
    proof {
        assert(data@.take(0) =~= Seq::<u8>::empty());
    }
    while i + 1 < n
        invariant
            n == data@.len(),
            i % 2 == 0,
            i <= n,
            start as nat + word_sum(data@) <= u32::MAX,
            sum as nat == start as nat + word_sum(data@.take(i as int)),
        decreases n - i,
    {
        proof {
            lemma_word_sum_take_step(data@, i as int);
            lemma_word_sum_prefix(data@, i + 2);
        }
        sum = sum + (data[i] as u32) * 256 + data[i + 1] as u32;
        i = i + 2;
    }
    if i < n {
        proof {
            lemma_word_sum_take_last(data@, i as int);
        }
        sum = sum + (data[i] as u32) * 256;
    } else {
        assert(data@.take(i as int) =~= data@);
    }
    sum
}

/// The ones' complement of a folded 16-bit value.
pub fn complement(folded: u16) -> (r: u16)
    ensures
        r == 0xFFFF - folded,
{
    assert(!folded == 0xFFFF - folded) by (bit_vector);
    !folded
}

} // verus!
