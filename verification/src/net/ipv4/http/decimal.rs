//! Decimal numbers in text: reading them as `str::parse` does for unsigned types, and writing
//! them as `{}` formats them.
use vstd::prelude::*;
use vstd::string::StrSliceExecFns;

verus! {

pub open spec fn is_digit(c: char) -> bool {
    48 <= c as u32 <= 57
}

pub open spec fn digit_value(c: char) -> nat {
    (c as u32 - 48) as nat
}

/// The value of a string of decimal digits.
pub open spec fn decimal_value(s: Seq<char>) -> nat
    decreases s.len(),
{
    if s.len() == 0 {
        0
    } else {
        decimal_value(s.drop_last()) * 10 + digit_value(s.last())
    }
}

/// The digits of an unsigned number's text: without the one `+` it may start with.
pub open spec fn unsigned_digits(s: Seq<char>) -> Seq<char> {
    if s.len() > 0 && s[0] == '+' {
        s.drop_first()
    } else {
        s
    }
}

/// What `str::parse` gives for an unsigned integer type whose largest value is `max`: the
/// value when the text is an optional `+` and at least one decimal digit, and the value fits.
pub open spec fn parse_unsigned(s: Seq<char>, max: nat) -> Option<nat> {
    let d = unsigned_digits(s);
    if d.len() > 0 && (forall|i: int| 0 <= i < d.len() ==> is_digit(#[trigger] d[i])) && decimal_value(d) <= max {
        Some(decimal_value(d))
    } else {
        None
    }
}

/// The decimal text of a number, as `{}` writes it.
pub open spec fn decimal_text(n: nat) -> Seq<u8>
    decreases n,
{
    if n < 10 {
        seq![(48 + n) as u8]
    } else {
        decimal_text(n / 10) + seq![(48 + n % 10) as u8]
    }
}

/// Reads the text as an unsigned number of at most `max`.
pub fn parse_unsigned_str(s: &str, max: u32) -> (r: Option<u32>)
    requires
        max < 0x1000_0000,
    ensures
        match parse_unsigned(s@, max as nat) {
            Some(v) => r == Some(v as u32),
            None => r is None,
        },
{
    let n = s.unicode_len();
    let start: usize = if n > 0 && s.get_char(0) == '+' { 1 } else { 0 };
    let ghost d = unsigned_digits(s@);
    assert(d =~= s@.skip(start as int));
    if start == n {
        return None;
    }
    let mut v: u32 = 0;
    let mut i: usize = start;
    assert(d.take(0) =~= Seq::<char>::empty());
    while i < n
        invariant
            start <= i <= n,
            n == s@.len(),
            max < 0x1000_0000,
            d == s@.skip(start as int),
            d == unsigned_digits(s@),
            forall|k: int| 0 <= k < i - start ==> is_digit(#[trigger] d[k]),
            v as nat == if decimal_value(d.take(i - start)) <= max { decimal_value(d.take(i - start)) } else { max as nat + 1 },
        decreases n - i,
    {
        let c = s.get_char(i);
        let cv = c as u32;
        if cv < 48 || cv > 57 {
            proof {
                let k = i - start;
                assert(d[k] == s@[i as int]);
                assert(!is_digit(d[k]));
                assert(!(forall|j: int| 0 <= j < d.len() ==> is_digit(#[trigger] d[j])));
            }
            return None;
        }
        let ghost p = d.take(i - start);
        let ghost q = d.take(i + 1 - start);
        assert(q.drop_last() =~= p);
        assert(q.last() == c);
        let w = v * 10 + (cv - 48);
        v = if w > max { max + 1 } else { w };
        i = i + 1;
    }
    assert(d.take(n - start) =~= d);
    if v > max {
        None
    } else {
        Some(v)
    }
}

/// Appends the decimal text of `n`.
pub fn push_decimal(out: &mut Vec<u8>, n: usize)
    ensures
        final(out)@ == old(out)@ + decimal_text(n as nat),
    decreases n,
{
    if n >= 10 {
        push_decimal(out, n / 10);
    }
    let d = (n % 10) as u8;
    out.push(48 + d);
    proof {
        if n >= 10 {
            assert(decimal_text(n as nat) == decimal_text((n / 10) as nat) + seq![(48 + n % 10) as u8]);
        }
    }
    assert(final(out)@ =~= old(out)@ + decimal_text(n as nat));
}

/// A string of digits is worth at least each of its prefixes.
pub proof fn lemma_decimal_prefix(d: Seq<char>, k: int)
    requires
        0 <= k <= d.len(),
    ensures
        decimal_value(d) >= decimal_value(d.take(k)),
    decreases d.len() - k,
{
    if k < d.len() {
        lemma_decimal_prefix(d.drop_last(), k);
        assert(d.drop_last().take(k) =~= d.take(k));
    } else {
        assert(d.take(k) =~= d);
    }
}

/// Reads the text as a `usize`, as `str::parse::<usize>` does.
pub fn parse_usize_str(s: &str) -> (r: Option<usize>)
    ensures
        match parse_unsigned(s@, usize::MAX as nat) {
            Some(v) => r == Some(v as usize),
            None => r is None,
        },
{
    let n = s.unicode_len();
    let start: usize = if n > 0 && s.get_char(0) == '+' { 1 } else { 0 };
    let ghost d = unsigned_digits(s@);
    assert(d =~= s@.skip(start as int));
    if start == n {
        return None;
    }
    let mut v: usize = 0;
    let mut i: usize = start;
    assert(d.take(0) =~= Seq::<char>::empty());
    while i < n
        invariant
            start <= i <= n,
            n == s@.len(),
            d == s@.skip(start as int),
            d == unsigned_digits(s@),
            forall|k: int| 0 <= k < i - start ==> is_digit(#[trigger] d[k]),
            v as nat == decimal_value(d.take(i - start)),
        decreases n - i,
    {
        let c = s.get_char(i);
        let cv = c as u32;
        let k = i - start;
        assert(d[k as int] == s@[i as int]);
        if cv < 48 || cv > 57 {
            assert(!(forall|j: int| 0 <= j < d.len() ==> is_digit(#[trigger] d[j])));
            return None;
        }
        let dv = (cv - 48) as usize;
        let ghost q = d.take(k + 1);
        assert(q.drop_last() =~= d.take(k as int));
        assert(q.last() == c);
        if v > (usize::MAX - dv) / 10 {
            proof {
                assert(decimal_value(q) == v * 10 + dv);
                assert(decimal_value(q) > usize::MAX) by (nonlinear_arith)
                    requires
                        v > (usize::MAX - dv) / 10,
                        decimal_value(q) == v * 10 + dv,
                        dv <= 9,
                ;
                lemma_decimal_prefix(d, k + 1);
            }
            return None;
        }
        assert(v * 10 + dv <= usize::MAX) by (nonlinear_arith)
            requires
                v <= (usize::MAX - dv) / 10,
                dv <= 9,
        ;
        v = v * 10 + dv;
        i = i + 1;
    }
    assert(d.take(n - start) =~= d);
    Some(v)
}

} // verus!
