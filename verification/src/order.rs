//! Lexicographic ordering of workspace names.
//!
//! Workspace lists are kept sorted ascending by name under this order,
//! comparing characters by their scalar value. For dynamic-workspace names
//! the fixed-width zero padding makes this coincide with numeric order of
//! the embedded index.

use vstd::prelude::*;
use vstd::string::*;

verus! {

/// Lexicographic "less than or equal" on character sequences.
pub open spec fn lex_leq(a: Seq<char>, b: Seq<char>) -> bool
    decreases a.len(),
{
    if a.len() == 0 {
        true
    } else if b.len() == 0 {
        false
    } else if a[0] == b[0] {
        lex_leq(a.drop_first(), b.drop_first())
    } else {
        (a[0] as int) < (b[0] as int)
    }
}

/// The lexicographic order relates every pair of sequences one way or the
/// other.
pub proof fn lemma_lex_leq_total(a: Seq<char>, b: Seq<char>)
    ensures
        lex_leq(a, b) || lex_leq(b, a),
    decreases a.len(),
{
    if a.len() == 0 || b.len() == 0 {
    } else if a[0] == b[0] {
        lemma_lex_leq_total(a.drop_first(), b.drop_first());
    }
}

/// The lexicographic order is transitive.
pub proof fn lemma_lex_leq_trans(a: Seq<char>, b: Seq<char>, c: Seq<char>)
    requires
        lex_leq(a, b),
        lex_leq(b, c),
    ensures
        lex_leq(a, c),
    decreases a.len(),
{
    if a.len() == 0 {
    } else {
        // lex_leq(a, b) with a nonempty forces b nonempty, and so on for c.
        if a[0] == b[0] && b[0] == c[0] {
            lemma_lex_leq_trans(a.drop_first(), b.drop_first(), c.drop_first());
        }
    }
}

/// Dropping an equal leading part on both sides does not change how two
/// sequences compare.
pub proof fn lemma_lex_leq_skip(a: Seq<char>, b: Seq<char>, k: int)
    requires
        0 <= k <= a.len(),
        k <= b.len(),
        a.subrange(0, k) == b.subrange(0, k),
    ensures
        lex_leq(a, b) == lex_leq(a.skip(k), b.skip(k)),
    decreases k,
{
    if k > 0 {
        assert(a.subrange(0, k)[0] == b.subrange(0, k)[0]);
        assert(a.subrange(0, k)[0] == a[0]);
        assert(b.subrange(0, k)[0] == b[0]);
        assert(a.drop_first().subrange(0, k - 1) =~= a.subrange(0, k).drop_first());
        assert(b.drop_first().subrange(0, k - 1) =~= b.subrange(0, k).drop_first());
        lemma_lex_leq_skip(a.drop_first(), b.drop_first(), k - 1);
        assert(a.drop_first().skip(k - 1) =~= a.skip(k));
        assert(b.drop_first().skip(k - 1) =~= b.skip(k));
    } else {
        assert(a.skip(0) =~= a);
        assert(b.skip(0) =~= b);
    }
}

/// Compares two strings under the lexicographic order on their characters.
pub fn str_leq(a: &str, b: &str) -> (r: bool)
    ensures
        r == lex_leq(a@, b@),
{
    let la = a.unicode_len();
    let lb = b.unicode_len();
    let min: usize = if la < lb {
        la
    } else {
        lb
    };
    let mut i: usize = 0;
    while i < min
        invariant
            0 <= i <= min,
            min == if la < lb { la } else { lb },
            la == a@.len(),
            lb == b@.len(),
            a@.subrange(0, i as int) == b@.subrange(0, i as int),
        decreases min - i,
    {
        let ca = a.get_char(i);
        let cb = b.get_char(i);
        if ca != cb {
            proof {
                lemma_lex_leq_skip(a@, b@, i as int);
                assert(a@.skip(i as int)[0] == ca);
                assert(b@.skip(i as int)[0] == cb);
            }
            return (ca as u32) < (cb as u32);
        }
        proof {
            assert(a@.subrange(0, i + 1) =~= a@.subrange(0, i as int).push(ca));
            assert(b@.subrange(0, i + 1) =~= b@.subrange(0, i as int).push(cb));
        }
        i += 1;
    }
    proof {
        lemma_lex_leq_skip(a@, b@, min as int);
        if la <= lb {
            assert(a@.skip(min as int).len() == 0);
        } else {
            assert(b@.skip(min as int).len() == 0);
            assert(a@.skip(min as int).len() > 0);
        }
    }
    la <= lb
}

/// Tests two strings for equality of their character sequences.
pub fn str_eq(a: &str, b: &str) -> (r: bool)
    ensures
        r == (a@ == b@),
{
    let la = a.unicode_len();
    let lb = b.unicode_len();
    if la != lb {
        return false;
    }
    let mut i: usize = 0;
    while i < la
        invariant
            0 <= i <= la,
            la == a@.len(),
            la == b@.len(),
            a@.subrange(0, i as int) == b@.subrange(0, i as int),
        decreases la - i,
    {
        let ca = a.get_char(i);
        let cb = b.get_char(i);
        if ca != cb {
            return false;
        }
        proof {
            assert(a@.subrange(0, i + 1) =~= a@.subrange(0, i as int).push(ca));
            assert(b@.subrange(0, i + 1) =~= b@.subrange(0, i as int).push(cb));
        }
        i += 1;
    }
    proof {
        assert(a@.subrange(0, la as int) =~= a@);
        assert(b@.subrange(0, la as int) =~= b@);
    }
    true
}

/// Tests whether `s` starts with `prefix`.
pub fn str_starts_with(s: &str, prefix: &str) -> (r: bool)
    ensures
        r == crate::codec::has_prefix(s@, prefix@),
{
    let ls = s.unicode_len();
    let lp = prefix.unicode_len();
    if lp > ls {
        return false;
    }
    let mut i: usize = 0;
    while i < lp
        invariant
            0 <= i <= lp,
            lp <= ls,
            ls == s@.len(),
            lp == prefix@.len(),
            s@.subrange(0, i as int) == prefix@.subrange(0, i as int),
        decreases lp - i,
    {
        let cs = s.get_char(i);
        let cp = prefix.get_char(i);
        if cs != cp {
            proof {
                assert(!crate::codec::has_prefix(s@, prefix@)) by {
                    if crate::codec::has_prefix(s@, prefix@) {
                        assert(s@.subrange(0, lp as int)[i as int] == prefix@[i as int]);
                    }
                }
            }
            return false;
        }
        proof {
            assert(s@.subrange(0, i + 1) =~= s@.subrange(0, i as int).push(cs));
            assert(prefix@.subrange(0, i + 1) =~= prefix@.subrange(0, i as int).push(cp));
        }
        i += 1;
    }
    proof {
        assert(prefix@.subrange(0, lp as int) =~= prefix@);
    }
    true
}

} // verus!
