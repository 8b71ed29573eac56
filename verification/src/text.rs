//! Text helpers over the characters of a string: white space and trimming, searching,
//! comparing.
use vstd::prelude::*;
use vstd::string::StrSliceExecFns;

verus! {

/// Unicode `White_Space`: the characters that `str::trim` removes.
pub open spec fn is_white_space(c: char) -> bool {
    let v = c as u32;
    ||| 0x09 <= v <= 0x0d
    ||| v == 0x20
    ||| v == 0x85
    ||| v == 0xa0
    ||| v == 0x1680
    ||| 0x2000 <= v <= 0x200a
    ||| v == 0x2028
    ||| v == 0x2029
    ||| v == 0x202f
    ||| v == 0x205f
    ||| v == 0x3000
}

/// The text without its leading white space.
pub open spec fn trim_start(s: Seq<char>) -> Seq<char>
    decreases s.len(),
{
    if s.len() > 0 && is_white_space(s[0]) {
        trim_start(s.drop_first())
    } else {
        s
    }
}

/// The text without its trailing white space.
pub open spec fn trim_end(s: Seq<char>) -> Seq<char>
    decreases s.len(),
{
    if s.len() > 0 && is_white_space(s.last()) {
        trim_end(s.drop_last())
    } else {
        s
    }
}

/// The text without white space at either end.
pub open spec fn trimmed(s: Seq<char>) -> Seq<char> {
    trim_end(trim_start(s))
}

/// The first position of the text that holds `a` or `b`.
pub open spec fn first_of(t: Seq<char>, a: char, b: char) -> Option<int> {
    if exists|i: int| 0 <= i < t.len() && (#[trigger] t[i] == a || t[i] == b) {
        Some(choose|i: int| 0 <= i < t.len() && (#[trigger] t[i] == a || t[i] == b)
            && forall|k: int| 0 <= k < i ==> #[trigger] t[k] != a && t[k] != b)
    } else {
        None
    }
}

pub proof fn lemma_trim_start_at(s: Seq<char>, a: int)
    requires
        0 <= a <= s.len(),
        forall|i: int| 0 <= i < a ==> is_white_space(#[trigger] s[i]),
        a < s.len() ==> !is_white_space(s[a]),
    ensures
        trim_start(s) == s.skip(a),
    decreases a,
{
    if a > 0 {
        assert(is_white_space(s[0]));
        let d = s.drop_first();
        assert forall|i: int| 0 <= i < a - 1 implies is_white_space(#[trigger] d[i]) by {
            assert(d[i] == s[i + 1]);
        }
        lemma_trim_start_at(d, a - 1);
        assert(d.skip(a - 1) =~= s.skip(a));
    } else {
        assert(s.skip(0) =~= s);
    }
}

pub proof fn lemma_trim_end_at(s: Seq<char>, b: int)
    requires
        0 <= b <= s.len(),
        forall|i: int| b <= i < s.len() ==> is_white_space(#[trigger] s[i]),
        b > 0 ==> !is_white_space(s[b - 1]),
    ensures
        trim_end(s) == s.take(b),
    decreases s.len() - b,
{
    if b < s.len() {
        assert(is_white_space(s[s.len() - 1]));
        let d = s.drop_last();
        assert forall|i: int| b <= i < d.len() implies is_white_space(#[trigger] d[i]) by {
            assert(d[i] == s[i]);
        }
        lemma_trim_end_at(d, b);
        assert(d.take(b) =~= s.take(b));
    } else {
        assert(s.take(b) =~= s);
    }
}

pub proof fn lemma_first_of_at(t: Seq<char>, a: char, b: char, k: int)
    requires
        0 <= k < t.len(),
        t[k] == a || t[k] == b,
        forall|m: int| 0 <= m < k ==> #[trigger] t[m] != a && t[m] != b,
    ensures
        first_of(t, a, b) == Some(k),
{
    let j = first_of(t, a, b).unwrap();
    if j < k {
        assert(t[j] != a && t[j] != b);
    } else if j > k {
        assert(t[k] != a && t[k] != b);
    }
}

pub proof fn lemma_first_of_none(t: Seq<char>, a: char, b: char)
    requires
        forall|m: int| 0 <= m < t.len() ==> #[trigger] t[m] != a && t[m] != b,
    ensures
        first_of(t, a, b) is None,
{
    if first_of(t, a, b) is Some {
        let j = first_of(t, a, b).unwrap();
        assert(t[j] != a && t[j] != b);
    }
}

/// The first position from `from` on that holds `a` or `b`, or the length when there is none.
pub fn find_from(s: &str, n: usize, from: usize, a: char, b: char) -> (r: usize)
    requires
        n == s@.len(),
        from <= n,
    ensures
        from <= r <= n,
        forall|k: int| from <= k < r ==> #[trigger] s@[k] != a && s@[k] != b,
        r < n ==> s@[r as int] == a || s@[r as int] == b,
{
    let mut i = from;
    while i < n
        invariant
            from <= i <= n,
            n == s@.len(),
            forall|k: int| from <= k < i ==> #[trigger] s@[k] != a && s@[k] != b,
        decreases n - i,
    {
        let c = s.get_char(i);
        if c == a || c == b {
            return i;
        }
        i = i + 1;
    }
    i
}

/// Whether the character is Unicode white space.
pub fn white_space(c: char) -> (r: bool)
    ensures
        r == is_white_space(c),
{
    let v = c as u32;
    (0x09 <= v && v <= 0x0d) || v == 0x20 || v == 0x85 || v == 0xa0 || v == 0x1680 || (0x2000 <= v
        && v <= 0x200a) || v == 0x2028 || v == 0x2029 || v == 0x202f || v == 0x205f || v == 0x3000
}

/// The line without white space at either end.
pub fn trim(s: &str) -> (r: &str)
    ensures
        r@ == trimmed(s@),
{
    let n = s.unicode_len();
    let mut a: usize = 0;
    while a < n && white_space(s.get_char(a))
        invariant
            a <= n,
            n == s@.len(),
            forall|i: int| 0 <= i < a ==> is_white_space(#[trigger] s@[i]),
        decreases n - a,
    {
        a = a + 1;
    }
    proof {
        lemma_trim_start_at(s@, a as int);
    }
    let ghost u = s@.skip(a as int);
    let mut b: usize = n;
    while b > a && white_space(s.get_char(b - 1))
        invariant
            a <= b <= n,
            n == s@.len(),
            u == s@.skip(a as int),
            forall|i: int| b <= i < n ==> is_white_space(#[trigger] s@[i]),
        decreases b,
    {
        b = b - 1;
    }
    proof {
        let m = (b - a) as int;
        assert forall|i: int| m <= i < u.len() implies is_white_space(#[trigger] u[i]) by {
            assert(u[i] == s@[i + a]);
        }
        if m > 0 {
            assert(u[m - 1] == s@[b - 1]);
        }
        lemma_trim_end_at(u, m);
        assert(u.take(m) =~= s@.subrange(a as int, b as int));
    }
    s.substring_char(a, b)
}

/// Whether two texts are equal.
pub fn text_eq(a: &str, b: &str) -> (r: bool)
    ensures
        r == (a@ == b@),
{
    let n = a.unicode_len();
    if n != b.unicode_len() {
        return false;
    }
    let mut i: usize = 0;
    while i < n
        invariant
            i <= n,
            n == a@.len(),
            n == b@.len(),
            forall|k: int| 0 <= k < i ==> a@[k] == b@[k],
        decreases n - i,
    {
        if a.get_char(i) != b.get_char(i) {
            return false;
        }
        i = i + 1;
    }
    assert(a@ =~= b@);
    true
}

/// The first position of the text where `a` stands directly before `b`.
pub open spec fn first_pair(t: Seq<char>, a: char, b: char) -> Option<int> {
    if exists|i: int| 0 <= i && i + 1 < t.len() && #[trigger] t[i] == a && t[i + 1] == b {
        Some(choose|i: int| 0 <= i && i + 1 < t.len() && #[trigger] t[i] == a && t[i + 1] == b
            && forall|k: int| 0 <= k < i ==> !(#[trigger] t[k] == a && t[k + 1] == b))
    } else {
        None
    }
}

pub proof fn lemma_first_pair_at(t: Seq<char>, a: char, b: char, k: int)
    requires
        0 <= k && k + 1 < t.len(),
        t[k] == a && t[k + 1] == b,
        forall|m: int| 0 <= m < k ==> !(#[trigger] t[m] == a && t[m + 1] == b),
    ensures
        first_pair(t, a, b) == Some(k),
{
    let j = first_pair(t, a, b).unwrap();
    if j < k {
        assert(!(t[j] == a && t[j + 1] == b));
    } else if j > k {
        assert(!(t[k] == a && t[k + 1] == b));
    }
}

pub proof fn lemma_first_pair_none(t: Seq<char>, a: char, b: char)
    requires
        forall|m: int| 0 <= m && m + 1 < t.len() ==> !(#[trigger] t[m] == a && t[m + 1] == b),
    ensures
        first_pair(t, a, b) is None,
{
    if first_pair(t, a, b) is Some {
        let j = first_pair(t, a, b).unwrap();
        assert(!(t[j] == a && t[j + 1] == b));
    }
}

/// The first position from `from` on where `a` stands directly before `b`, or the length
/// when there is none.
pub fn find_pair(s: &str, n: usize, from: usize, a: char, b: char) -> (r: usize)
    requires
        n == s@.len(),
        from <= n,
    ensures
        from <= r <= n,
        forall|k: int| from <= k < r && k + 1 < n ==> !(#[trigger] s@[k] == a && s@[k + 1] == b),
        r < n ==> r + 1 < n && s@[r as int] == a && s@[r + 1] == b,
        r == n ==> forall|k: int| from <= k && k + 1 < n ==> !(#[trigger] s@[k] == a && s@[k + 1] == b),
{
    let mut i = from;
    while i < n && i + 1 < n
        invariant
            from <= i,
            i <= n,
            n == s@.len(),
            forall|k: int| from <= k < i && k + 1 < n ==> !(#[trigger] s@[k] == a && s@[k + 1] == b),
        decreases n - i,
    {
        if s.get_char(i) == a && s.get_char(i + 1) == b {
            return i;
        }
        i = i + 1;
    }
    n
}

} // verus!
