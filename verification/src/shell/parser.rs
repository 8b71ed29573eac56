//! Splits a shell line into a command and its arguments.
use vstd::prelude::*;
use vstd::string::StrSliceExecFns;
use crate::text::{trim, trimmed};

verus! {

/// The position of the first space of the text.
pub open spec fn first_space(t: Seq<char>) -> Option<int> {
    if exists|i: int| 0 <= i < t.len() && #[trigger] t[i] == ' ' {
        Some(choose|i: int| 0 <= i < t.len() && #[trigger] t[i] == ' ' && forall|k: int| 0 <= k < i ==> #[trigger] t[k] != ' ')
    } else {
        None
    }
}

/// The parts of the trimmed line before and after its first space, if it has one.
pub open spec fn parse_spec(s: Seq<char>) -> Option<(Seq<char>, Seq<char>)> {
    let t = trimmed(s);
    match first_space(t) {
        Some(i) => Some((t.take(i), t.skip(i + 1))),
        None => None,
    }
}

proof fn lemma_first_space_at(t: Seq<char>, k: int)
    requires
        0 <= k < t.len(),
        t[k] == ' ',
        forall|m: int| 0 <= m < k ==> #[trigger] t[m] != ' ',
    ensures
        first_space(t) == Some(k),
{
    let j = first_space(t).unwrap();
    if j < k {
        assert(t[j] != ' ');
    } else if j > k {
        assert(t[k] != ' ');
    }
}

/// Splits the trimmed line at its first space into the command and its arguments; `None`
/// when the trimmed line has no space.
pub fn parser(s: &str) -> (r: Option<(&str, &str)>)
    ensures
        match parse_spec(s@) {
            Some((c, a)) => r is Some && r.unwrap().0@ == c && r.unwrap().1@ == a,
            None => r is None,
        },
{
    let t = trim(s);
    let m = t.unicode_len();
    let mut k: usize = 0;
    while k < m
        invariant
            k <= m,
            m == t@.len(),
            t@ == trimmed(s@),
            forall|i: int| 0 <= i < k ==> #[trigger] t@[i] != ' ',
        decreases m - k,
    {
        if t.get_char(k) == ' ' {
            proof {
                lemma_first_space_at(t@, k as int);
            }
            let command = t.substring_char(0, k);
            let args = t.substring_char(k + 1, m);
            assert(command@ =~= t@.take(k as int));
            assert(args@ =~= t@.skip(k + 1));
            return Some((command, args));
        }
        k = k + 1;
    }
    proof {
        if first_space(t@) is Some {
            let j = first_space(t@).unwrap();
            assert(t@[j] != ' ');
        }
    }
    None
}

} // verus!
