//! Runs: the longest prefix, or suffix, of a sequence whose elements all
//! satisfy a predicate. Every scan of the journal ("up to the first line
//! that ...") is the length of such a run.

use vstd::prelude::*;

verus! {

/// The length of the longest prefix of `s` all of whose elements satisfy `p`.
pub open spec fn prefix_run<A>(s: Seq<A>, p: spec_fn(A) -> bool) -> int
    decreases s.len(),
{
    if s.len() == 0 || !p(s[0]) {
        0
    } else {
        1 + prefix_run(s.skip(1), p)
    }
}

/// The length of the longest suffix of `s` all of whose elements satisfy `p`.
pub open spec fn suffix_run<A>(s: Seq<A>, p: spec_fn(A) -> bool) -> int
    decreases s.len(),
{
    if s.len() == 0 || !p(s.last()) {
        0
    } else {
        1 + suffix_run(s.drop_last(), p)
    }
}

/// A prefix run lies within the sequence, covers only elements that satisfy
/// the predicate, and stops at one that does not.
pub proof fn lemma_prefix_run<A>(s: Seq<A>, p: spec_fn(A) -> bool)
    ensures
        0 <= prefix_run(s, p) <= s.len(),
        forall|j: int| 0 <= j < prefix_run(s, p) ==> p(#[trigger] s[j]),
        prefix_run(s, p) < s.len() ==> !p(s[prefix_run(s, p)]),
    decreases s.len(),
{
    if s.len() == 0 || !p(s[0]) {
    } else {
        let t = s.skip(1);
        lemma_prefix_run(t, p);
        assert forall|j: int| 0 <= j < prefix_run(s, p) implies p(#[trigger] s[j]) by {
            if j > 0 {
                assert(s[j] == t[j - 1]);
            }
        }
        if prefix_run(s, p) < s.len() {
            assert(s[prefix_run(s, p)] == t[prefix_run(t, p)]);
        }
    }
}

/// The prefix run is the only `n` such that the first `n` elements satisfy
/// the predicate and the next one, if any, does not.
pub proof fn lemma_prefix_run_is<A>(s: Seq<A>, p: spec_fn(A) -> bool, n: int)
    requires
        0 <= n <= s.len(),
        forall|j: int| 0 <= j < n ==> p(#[trigger] s[j]),
        n < s.len() ==> !p(s[n]),
    ensures
        prefix_run(s, p) == n,
    decreases s.len(),
{
    if n == 0 {
    } else {
        let t = s.skip(1);
        assert(p(s[0]));
        assert forall|j: int| 0 <= j < n - 1 implies p(#[trigger] t[j]) by {
            assert(t[j] == s[j + 1]);
        }
        if n - 1 < t.len() {
            assert(t[n - 1] == s[n]);
        }
        lemma_prefix_run_is(t, p, n - 1);
    }
}

/// The suffix run is the only `n` such that the last `n` elements satisfy
/// the predicate and the one before them, if any, does not.
pub proof fn lemma_suffix_run_is<A>(s: Seq<A>, p: spec_fn(A) -> bool, n: int)
    requires
        0 <= n <= s.len(),
        forall|j: int| s.len() - n <= j < s.len() ==> p(#[trigger] s[j]),
        n < s.len() ==> !p(s[s.len() - n - 1]),
    ensures
        suffix_run(s, p) == n,
    decreases s.len(),
{
    if n == 0 {
    } else {
        let t = s.drop_last();
        assert(p(s[s.len() - 1]));
        assert forall|j: int| t.len() - (n - 1) <= j < t.len() implies p(#[trigger] t[j]) by {
            assert(t[j] == s[j]);
        }
        if n - 1 < t.len() {
            assert(t[t.len() - (n - 1) - 1] == s[s.len() - n - 1]);
        }
        lemma_suffix_run_is(t, p, n - 1);
    }
}

} // verus!
