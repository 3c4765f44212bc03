//! Splitting mesh and material text into lines and whitespace-separated
//! tokens.
//!
//! The executable splitters walk the bytes from the end to the front, so
//! that each step mirrors one unfolding of the head-recursive
//! specifications below.

use vstd::prelude::*;

verus! {

/// `b` is ASCII whitespace: space, tab, line feed, form feed or carriage
/// return.
pub open spec fn is_space(b: u8) -> bool {
    b == 32 || b == 9 || b == 10 || b == 12 || b == 13
}

/// The lines of a byte string: the segments between line feeds.  There is
/// always at least one (possibly empty) line.
pub open spec fn spec_lines(s: Seq<u8>) -> Seq<Seq<u8>>
    decreases s.len(),
{
    if s.len() == 0 {
        seq![Seq::<u8>::empty()]
    } else if s[0] == 10u8 {
        seq![Seq::<u8>::empty()] + spec_lines(s.skip(1))
    } else {
        let rest: Seq<Seq<u8>> = spec_lines(s.skip(1));
        seq![seq![s[0]] + rest[0]] + rest.skip(1)
    }
}

/// The whitespace-separated tokens of a byte string: the maximal runs of
/// non-whitespace bytes, in order.
pub open spec fn spec_tokens(s: Seq<u8>) -> Seq<Seq<u8>>
    decreases s.len(),
{
    if s.len() == 0 {
        Seq::<Seq<u8>>::empty()
    } else if is_space(s[0]) {
        spec_tokens(s.skip(1))
    } else if s.len() == 1 || is_space(s[1]) {
        seq![seq![s[0]]] + spec_tokens(s.skip(1))
    } else {
        let rest: Seq<Seq<u8>> = spec_tokens(s.skip(1));
        seq![seq![s[0]] + rest[0]] + rest.skip(1)
    }
}

pub proof fn lemma_lines_nonempty(s: Seq<u8>)
    ensures
        spec_lines(s).len() >= 1,
    decreases s.len(),
{
    if s.len() == 0 {
    } else {
        lemma_lines_nonempty(s.skip(1));
    }
}

pub proof fn lemma_tokens_head_nonempty(s: Seq<u8>)
    requires
        s.len() > 0,
        !is_space(s[0]),
    ensures
        spec_tokens(s).len() >= 1,
    decreases s.len(),
{
    if s.len() == 1 || is_space(s[1]) {
    } else {
        lemma_tokens_head_nonempty(s.skip(1));
    }
}

/// Byte-string equality.
pub fn bytes_eq(a: &[u8], b: &[u8]) -> (r: bool)
    ensures
        r == (a@ == b@),
{
    if a.len() != b.len() {
        return false;
    }
    let n: usize = a.len();
    let mut i: usize = 0;
    while i < n
        invariant
            0 <= i <= n,
            n == a@.len() == b@.len(),
            forall|j: int| 0 <= j < i ==> a@[j] == b@[j],
        decreases n - i,
    {
        if a[i] != b[i] {
            return false;
        }
        i += 1;
    }
    proof {
        assert(a@ =~= b@);
    }
    true
}

fn byte_is_space(b: u8) -> (r: bool)
    ensures
        r == is_space(b),
{
    b == 32 || b == 9 || b == 10 || b == 12 || b == 13
}

/// Split a byte string into its lines.
pub fn lines_of(s: &[u8]) -> (r: Vec<Vec<u8>>)
    ensures
        r@.len() == spec_lines(s@).len(),
        forall|j: int| 0 <= j < r@.len() ==> #[trigger] r@[j]@ == spec_lines(s@)[j],
{
    let n: usize = s.len();
    let mut acc: Vec<Vec<u8>> = Vec::new();
    acc.push(Vec::new());
    let mut i: usize = n;
    while i > 0
        invariant
            i <= n,
            n == s@.len(),
            acc@.len() == spec_lines(s@.skip(i as int)).len(),
            forall|j: int|
                0 <= j < acc@.len() ==> #[trigger] acc@[j]@ == spec_lines(s@.skip(i as int))[j],
        decreases i,
    {
        i -= 1;
        let ghost tail: Seq<Seq<u8>> = spec_lines(s@.skip(i as int + 1));
        proof {
            assert(s@.skip(i as int).skip(1) =~= s@.skip(i as int + 1));
            lemma_lines_nonempty(s@.skip(i as int + 1));
        }
        let b: u8 = s[i];
        if b == 10 {
            acc.insert(0, Vec::new());
        } else {
            let mut first: Vec<u8> = acc.remove(0);
            first.insert(0, b);
            acc.insert(0, first);
            proof {
                assert(acc@[0]@ =~= seq![s@[i as int]] + tail[0]);
            }
        }
    }
    proof {
        assert(s@.skip(0) =~= s@);
    }
    acc
}

/// Split a line into its whitespace-separated tokens.
pub fn tokens_of(s: &[u8]) -> (r: Vec<Vec<u8>>)
    ensures
        r@.len() == spec_tokens(s@).len(),
        forall|j: int| 0 <= j < r@.len() ==> #[trigger] r@[j]@ == spec_tokens(s@)[j],
{
    let n: usize = s.len();
    let mut acc: Vec<Vec<u8>> = Vec::new();
    let mut i: usize = n;
    while i > 0
        invariant
            i <= n,
            n == s@.len(),
            acc@.len() == spec_tokens(s@.skip(i as int)).len(),
            forall|j: int|
                0 <= j < acc@.len() ==> #[trigger] acc@[j]@ == spec_tokens(s@.skip(i as int))[j],
        decreases i,
    {
        i -= 1;
        let ghost tail: Seq<Seq<u8>> = spec_tokens(s@.skip(i as int + 1));
        proof {
            assert(s@.skip(i as int).skip(1) =~= s@.skip(i as int + 1));
        }
        let b: u8 = s[i];
        if byte_is_space(b) {
            // whitespace: the token list is unchanged
        } else if i + 1 == n || byte_is_space(s[i + 1]) {
            // last byte of a token: open a new token
            let mut t: Vec<u8> = Vec::new();
            t.push(b);
            acc.insert(0, t);
            proof {
                assert(acc@[0]@ =~= seq![s@[i as int]]);
            }
        } else {
            // the byte extends the following token
            proof {
                assert(s@.skip(i as int + 1)[0] == s@[i as int + 1]);
                lemma_tokens_head_nonempty(s@.skip(i as int + 1));
            }
            let mut first: Vec<u8> = acc.remove(0);
            first.insert(0, b);
            acc.insert(0, first);
            proof {
                assert(acc@[0]@ =~= seq![s@[i as int]] + tail[0]);
            }
        }
    }
    proof {
        assert(s@.skip(0) =~= s@);
    }
    acc
}

} // verus!
