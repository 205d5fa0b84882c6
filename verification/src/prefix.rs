//! Scans that read a sequence from the front and stop at their first error.
use vstd::prelude::*;

verus! {

/// Once such a scan fails on a prefix, it fails the same way on the whole
/// sequence. `f` is a scan of that kind: on a non-empty sequence whose front
/// part already fails, it gives that failure.
pub proof fn lemma_err_prefix<A, T, E>(f: spec_fn(Seq<A>) -> Result<T, E>, s: Seq<A>, n: int)
    requires
        0 <= n <= s.len(),
        f(s.take(n)) is Err,
        forall|t: Seq<A>| #![trigger f(t)] t.len() > 0 && f(t.drop_last()) is Err ==> f(t) == f(t.drop_last()),
    ensures
        f(s) == f(s.take(n)),
    decreases s.len() - n,
{
    if n < s.len() {
        assert(s.take(n + 1).drop_last() =~= s.take(n));
        assert(f(s.take(n + 1)) == f(s.take(n + 1).drop_last()));
        lemma_err_prefix(f, s, n + 1);
    } else {
        assert(s.take(n) =~= s);
    }
}

} // verus!
