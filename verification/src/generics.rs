//! Which generic parameters and where-predicates the memento keeps.
//!
//! A parameter is kept when a stored field names it, or when a kept parameter or
//! a kept where-predicate names it; a where-predicate is kept when it names a
//! kept parameter. The kept parameters are the least set closed under these
//! rules.
use vstd::prelude::*;
use crate::model::{GenericParamModel, Mention, ParamKind, WherePredModel};
use crate::text::text_eq;

verus! {

/// The position of the last parameter of kind `kind` named `name`.
pub open spec fn spec_lookup(params: Seq<GenericParamModel>, kind: ParamKind, name: Seq<char>) -> Option<usize>
    decreases params.len(),
{
    if params.len() == 0 {
        None
    } else if params.last().kind == kind && params.last().name@ == name {
        Some((params.len() - 1) as usize)
    } else {
        spec_lookup(params.drop_last(), kind, name)
    }
}

/// A found position is in range and names a parameter of that kind and name.
pub proof fn lemma_lookup_found(params: Seq<GenericParamModel>, kind: ParamKind, name: Seq<char>)
    requires
        params.len() <= usize::MAX,
    ensures
        spec_lookup(params, kind, name) matches Some(i) ==> i < params.len() && params[i as int].kind
            == kind && params[i as int].name@ == name,
        spec_lookup(params, kind, name) is None ==> forall|j: int|
            0 <= j < params.len() ==> !(params[j].kind == kind && params[j].name@ == name),
    decreases params.len(),
{
    if params.len() > 0 {
        let p = params.drop_last();
        lemma_lookup_found(p, kind, name);
        assert forall|j: int| 0 <= j < p.len() implies p[j] == params[j] by {}
        if !(params.last().kind == kind && params.last().name@ == name) {
            if spec_lookup(p, kind, name) is None {
                assert forall|j: int| 0 <= j < params.len() implies !(params[j].kind == kind
                    && params[j].name@ == name) by {
                    if j < p.len() {
                        assert(p[j] == params[j]);
                    }
                }
            }
        }
    }
}

/// Finds the last parameter of kind `kind` named `name`.
pub fn lookup(params: &Vec<GenericParamModel>, kind: ParamKind, name: &String) -> (r: Option<usize>)
    ensures
        r == spec_lookup(params@, kind, name@),
{
    let mut found: Option<usize> = None;
    let mut i: usize = 0;
    while i < params.len()
        invariant
            0 <= i <= params@.len(),
            found == spec_lookup(params@.take(i as int), kind, name@),
        decreases params@.len() - i,
    {
        assert(params@.take(i + 1).drop_last() == params@.take(i as int));
        assert(params@.take(i + 1).last() == params@[i as int]);
        if params[i].kind == kind && text_eq(&params[i].name, name) {
            found = Some(i);
        }
        i = i + 1;
    }
    assert(params@.take(i as int) == params@);
    found
}

/// The parameter a mention refers to: lifetimes by name; a type path by its
/// first segment when that is a type parameter, or, as a bare one-segment path
/// inside angle-bracketed arguments, when it is a const parameter; a one-segment
/// expression path when it is a const parameter.
pub open spec fn spec_mention_param(params: Seq<GenericParamModel>, m: Mention) -> Option<usize> {
    match m {
        Mention::Lifetime(l) => spec_lookup(params, ParamKind::Lifetime, l@),
        Mention::TypePath { first, bare_single, in_angle_args } => match spec_lookup(
            params,
            ParamKind::Type,
            first@,
        ) {
            Some(i) => Some(i),
            None => if in_angle_args && bare_single {
                spec_lookup(params, ParamKind::Const, first@)
            } else {
                None
            },
        },
        Mention::ExprPath(e) => spec_lookup(params, ParamKind::Const, e@),
    }
}

/// The parameters that a list of mentions refers to, in order (repeats kept).
pub open spec fn spec_deps(params: Seq<GenericParamModel>, ms: Seq<Mention>) -> Seq<usize>
    decreases ms.len(),
{
    if ms.len() == 0 {
        Seq::empty()
    } else {
        let prev = spec_deps(params, ms.drop_last());
        match spec_mention_param(params, ms.last()) {
            Some(i) => prev.push(i),
            None => prev,
        }
    }
}

/// Every parameter that a list of mentions refers to is in range.
pub proof fn lemma_deps_in_range(params: Seq<GenericParamModel>, ms: Seq<Mention>)
    requires
        params.len() <= usize::MAX,
    ensures
        forall|k: int| 0 <= k < spec_deps(params, ms).len() ==> spec_deps(params, ms)[k] < params.len(),
    decreases ms.len(),
{
    if ms.len() > 0 {
        lemma_deps_in_range(params, ms.drop_last());
        match ms.last() {
            Mention::Lifetime(l) => lemma_lookup_found(params, ParamKind::Lifetime, l@),
            Mention::TypePath { first, .. } => {
                lemma_lookup_found(params, ParamKind::Type, first@);
                lemma_lookup_found(params, ParamKind::Const, first@);
            },
            Mention::ExprPath(e) => lemma_lookup_found(params, ParamKind::Const, e@),
        }
        let prev = spec_deps(params, ms.drop_last());
        let cur = spec_deps(params, ms);
        assert forall|k: int| 0 <= k < cur.len() implies cur[k] < params.len() by {
            if k < prev.len() {
                assert(cur[k] == prev[k]);
            }
        }
    }
}

fn mention_param(params: &Vec<GenericParamModel>, m: &Mention) -> (r: Option<usize>)
    ensures
        r == spec_mention_param(params@, *m),
{
    match m {
        Mention::Lifetime(l) => lookup(params, ParamKind::Lifetime, l),
        Mention::TypePath { first, bare_single, in_angle_args } => {
            match lookup(params, ParamKind::Type, first) {
                Some(i) => Some(i),
                None => {
                    if *in_angle_args && *bare_single {
                        lookup(params, ParamKind::Const, first)
                    } else {
                        None
                    }
                },
            }
        },
        Mention::ExprPath(e) => lookup(params, ParamKind::Const, e),
    }
}

/// The parameters that `ms` refers to.
pub fn collect_deps(params: &Vec<GenericParamModel>, ms: &Vec<Mention>) -> (r: Vec<usize>)
    ensures
        r@ == spec_deps(params@, ms@),
        forall|k: int| 0 <= k < r@.len() ==> r@[k] < params@.len(),
{
    let mut out: Vec<usize> = Vec::new();
    let mut i: usize = 0;
    while i < ms.len()
        invariant
            0 <= i <= ms@.len(),
            out@ == spec_deps(params@, ms@.take(i as int)),
        decreases ms@.len() - i,
    {
        assert(ms@.take(i + 1).drop_last() == ms@.take(i as int));
        assert(ms@.take(i + 1).last() == ms@[i as int]);
        match mention_param(params, &ms[i]) {
            Some(j) => out.push(j),
            None => {},
        }
        i = i + 1;
    }
    assert(ms@.take(i as int) == ms@);
    let n = params.len();
    proof { lemma_deps_in_range(params@, ms@); }
    out
}


/// The positions set in `r`.
pub open spec fn in_set(r: Seq<bool>) -> Set<int> {
    Set::new(|i: int| 0 <= i < r.len() && r[i])
}

/// The dependency lists of a vector of vectors.
pub open spec fn nested(v: Seq<Vec<usize>>) -> Seq<Seq<usize>> {
    v.map_values(|x: Vec<usize>| x@)
}

/// Every entry of `d` is in `s`.
pub open spec fn deps_in(d: Seq<usize>, s: Set<int>) -> bool {
    forall|k: int| 0 <= k < d.len() ==> s.contains(d[k] as int)
}

/// Some entry of `d` is in `s`.
pub open spec fn hits(d: Seq<usize>, s: Set<int>) -> bool {
    exists|k: int| 0 <= k < d.len() && s.contains(d[k] as int)
}

/// `s` is closed under the parameter dependencies `pd` (a kept parameter keeps
/// what it names) and the predicate dependencies `qd` (a predicate that names a
/// kept parameter keeps everything it names).
pub open spec fn closed(pd: Seq<Seq<usize>>, qd: Seq<Seq<usize>>, s: Set<int>) -> bool {
    &&& forall|i: int| 0 <= i < pd.len() && s.contains(i) ==> deps_in(#[trigger] pd[i], s)
    &&& forall|p: int| 0 <= p < qd.len() && hits(#[trigger] qd[p], s) ==> deps_in(qd[p], s)
}

/// `r` lies inside every closed set that holds `init`.
pub open spec fn below_closed(pd: Seq<Seq<usize>>, qd: Seq<Seq<usize>>, init: Set<int>, r: Set<int>) -> bool {
    forall|s: Set<int>| #[trigger] closed(pd, qd, s) && init.subset_of(s) ==> r.subset_of(s)
}

/// `r` is the least closed set that holds `init`.
pub open spec fn least_closed(pd: Seq<Seq<usize>>, qd: Seq<Seq<usize>>, init: Set<int>, r: Set<int>) -> bool {
    &&& init.subset_of(r)
    &&& closed(pd, qd, r)
    &&& below_closed(pd, qd, init, r)
}

/// All dependency indices are below `n`.
pub open spec fn deps_below(d: Seq<Seq<usize>>, n: int) -> bool {
    forall|i: int, k: int| 0 <= i < d.len() && 0 <= k < d[i].len() ==> d[i][k] < n
}

/// The number of set positions.
pub open spec fn count_true(s: Seq<bool>) -> nat
    decreases s.len(),
{
    if s.len() == 0 {
        0
    } else {
        count_true(s.drop_last()) + (if s.last() {
            1nat
        } else {
            0nat
        })
    }
}

proof fn lemma_count_le(s: Seq<bool>)
    ensures
        count_true(s) <= s.len(),
    decreases s.len(),
{
    if s.len() > 0 {
        lemma_count_le(s.drop_last());
    }
}

proof fn lemma_count_set(s: Seq<bool>, i: int)
    requires
        0 <= i < s.len(),
        !s[i],
    ensures
        count_true(s.update(i, true)) == count_true(s) + 1,
    decreases s.len(),
{
    let t = s.update(i, true);
    if i == s.len() - 1 {
        assert(t.drop_last() =~= s.drop_last());
    } else {
        assert(t.drop_last() =~= s.drop_last().update(i, true));
        lemma_count_set(s.drop_last(), i);
    }
}

proof fn lemma_param_step(pd: Seq<Seq<usize>>, qd: Seq<Seq<usize>>, init: Set<int>, r: Seq<bool>, i: int, k: int)
    requires
        below_closed(pd, qd, init, in_set(r)),
        0 <= i < pd.len(),
        0 <= i < r.len(),
        r[i],
        0 <= k < pd[i].len(),
        pd[i][k] < r.len(),
    ensures
        below_closed(pd, qd, init, in_set(r.update(pd[i][k] as int, true))),
{
    let d = pd[i][k] as int;
    let r2 = r.update(d, true);
    assert forall|s: Set<int>| #[trigger] closed(pd, qd, s) && init.subset_of(s) implies in_set(r2).subset_of(s) by {
        assert(in_set(r).subset_of(s));
        assert(in_set(r).contains(i));
        assert(deps_in(pd[i], s));
        assert forall|x: int| in_set(r2).contains(x) implies s.contains(x) by {
            if x != d {
                assert(in_set(r).contains(x));
            }
        }
    }
}

proof fn lemma_pred_step(
    pd: Seq<Seq<usize>>,
    qd: Seq<Seq<usize>>,
    init: Set<int>,
    r: Seq<bool>,
    p: int,
    w: int,
    k: int,
)
    requires
        below_closed(pd, qd, init, in_set(r)),
        0 <= p < qd.len(),
        0 <= w < qd[p].len(),
        qd[p][w] < r.len(),
        r[qd[p][w] as int],
        0 <= k < qd[p].len(),
        qd[p][k] < r.len(),
    ensures
        below_closed(pd, qd, init, in_set(r.update(qd[p][k] as int, true))),
{
    let d = qd[p][k] as int;
    let r2 = r.update(d, true);
    assert forall|s: Set<int>| #[trigger] closed(pd, qd, s) && init.subset_of(s) implies in_set(r2).subset_of(s) by {
        assert(in_set(r).subset_of(s));
        assert(in_set(r).contains(qd[p][w] as int));
        assert(hits(qd[p], s));
        assert(deps_in(qd[p], s));
        assert forall|x: int| in_set(r2).contains(x) implies s.contains(x) by {
            if x != d {
                assert(in_set(r).contains(x));
            }
        }
    }
}

/// Grows `init` to the least set that is closed under the parameter dependencies
/// `pd` and the predicate dependencies `qd` (the kept generic parameters).
pub fn close_retained(pd: &Vec<Vec<usize>>, qd: &Vec<Vec<usize>>, init: Vec<bool>) -> (r: Vec<bool>)
    requires
        init@.len() == pd@.len(),
        deps_below(nested(pd@), pd@.len() as int),
        deps_below(nested(qd@), pd@.len() as int),
    ensures
        r@.len() == pd@.len(),
        least_closed(nested(pd@), nested(qd@), in_set(init@), in_set(r@)),
{
    let ghost pds = nested(pd@);
    let ghost qds = nested(qd@);
    let ghost init_set = in_set(init@);
    let n = pd.len();
    let mut r = init;
    let mut changed = true;
    proof {
        assert forall|s: Set<int>| #[trigger] closed(pds, qds, s) && init_set.subset_of(s) implies in_set(r@).subset_of(s) by {}
        lemma_count_le(r@);
    }
    while changed
        invariant
            n == pd@.len(),
            r@.len() == n,
            pds == nested(pd@),
            qds == nested(qd@),
            deps_below(pds, n as int),
            deps_below(qds, n as int),
            init_set.subset_of(in_set(r@)),
            below_closed(pds, qds, init_set, in_set(r@)),
            !changed ==> closed(pds, qds, in_set(r@)),
            count_true(r@) <= n,
        decreases (n - count_true(r@)) + (if changed {
            1int
        } else {
            0int
        }),
    {
        let ghost r0 = r@;
        changed = false;
        let mut i: usize = 0;
        while i < n
            invariant
                n == pd@.len(),
                r@.len() == n,
                0 <= i <= n,
                pds == nested(pd@),
                qds == nested(qd@),
                deps_below(pds, n as int),
                deps_below(qds, n as int),
                init_set.subset_of(in_set(r@)),
                below_closed(pds, qds, init_set, in_set(r@)),
                r0.len() == n,
                forall|j: int| 0 <= j < n && r0[j] ==> r@[j],
                changed ==> count_true(r@) > count_true(r0),
                !changed ==> r@ == r0,
                forall|j: int| 0 <= j < i && r0[j] ==> deps_in(pds[j], in_set(r@)),
                count_true(r@) <= n,
            decreases n - i,
        {
            if r[i] {
                let deps = &pd[i];
                assert(deps@ == pds[i as int]);
                let mut k: usize = 0;
                while k < deps.len()
                    invariant
                        n == pd@.len(),
                        r@.len() == n,
                        0 <= i < n,
                        0 <= k <= deps@.len(),
                        deps@ == pds[i as int],
                        pds == nested(pd@),
                        deps_below(pds, n as int),
                        r@[i as int],
                        init_set.subset_of(in_set(r@)),
                        below_closed(pds, qds, init_set, in_set(r@)),
                        r0.len() == n,
                        forall|j: int| 0 <= j < n && r0[j] ==> r@[j],
                        changed ==> count_true(r@) > count_true(r0),
                        !changed ==> r@ == r0,
                        forall|j: int| 0 <= j < i && r0[j] ==> deps_in(pds[j], in_set(r@)),
                        forall|m: int| 0 <= m < k ==> in_set(r@).contains(deps@[m] as int),
                        count_true(r@) <= n,
                    decreases deps@.len() - k,
                {
                    let d = deps[k];
                    assert(d < n);
                    if !r[d] {
                        proof {
                            lemma_param_step(pds, qds, init_set, r@, i as int, k as int);
                            lemma_count_set(r@, d as int);
                        }
                        let ghost before = r@;
                        r.set(d, true);
                        changed = true;
                        proof {
                            lemma_count_le(r@);
                            assert forall|j: int| 0 <= j < i && r0[j] implies deps_in(pds[j], in_set(r@)) by {
                                assert(deps_in(pds[j], in_set(before)));
                            }
                        }
                    }
                    assert(in_set(r@).contains(d as int));
                    k = k + 1;
                }
                assert(deps_in(pds[i as int], in_set(r@)));
            }
            i = i + 1;
        }
        let ghost r1 = r@;
        let mut p: usize = 0;
        while p < qd.len()
            invariant
                n == pd@.len(),
                r@.len() == n,
                0 <= p <= qd@.len(),
                pds == nested(pd@),
                qds == nested(qd@),
                deps_below(pds, n as int),
                deps_below(qds, n as int),
                init_set.subset_of(in_set(r@)),
                below_closed(pds, qds, init_set, in_set(r@)),
                r0.len() == n,
                r1.len() == n,
                forall|j: int| 0 <= j < n && r0[j] ==> r1[j],
                forall|j: int| 0 <= j < n && r1[j] ==> r@[j],
                changed ==> count_true(r@) > count_true(r0),
                !changed ==> r@ == r0 && r1 == r0,
                forall|j: int| 0 <= j < n && r0[j] ==> deps_in(pds[j], in_set(r1)),
                forall|q: int| 0 <= q < p && hits(qds[q], in_set(r0)) ==> deps_in(qds[q], in_set(r@)),
                count_true(r@) <= n,
            decreases qd@.len() - p,
        {
            let deps = &qd[p];
            assert(deps@ == qds[p as int]);
            let mut hit = false;
            let mut w: usize = 0;
            let mut k: usize = 0;
            while k < deps.len()
                invariant
                    0 <= k <= deps@.len(),
                    r@.len() == n,
                    deps@ == qds[p as int],
                    deps_below(qds, n as int),
                    0 <= p < qds.len(),
                    hit ==> w < deps@.len() && r@[deps@[w as int] as int],
                    !hit ==> forall|m: int| 0 <= m < k ==> !r@[deps@[m] as int],
                decreases deps@.len() - k,
            {
                if r[deps[k]] {
                    hit = true;
                    w = k;
                }
                k = k + 1;
            }
            if hit {
                let ghost wit = deps@[w as int];
                let mut k: usize = 0;
                while k < deps.len()
                    invariant
                        n == pd@.len(),
                        r@.len() == n,
                        0 <= p < qds.len(),
                        0 <= k <= deps@.len(),
                        deps@ == qds[p as int],
                        w < deps@.len(),
                        r@[deps@[w as int] as int],
                        qds == nested(qd@),
                        deps_below(qds, n as int),
                        init_set.subset_of(in_set(r@)),
                        below_closed(pds, qds, init_set, in_set(r@)),
                        r0.len() == n,
                        r1.len() == n,
                        forall|j: int| 0 <= j < n && r1[j] ==> r@[j],
                        changed ==> count_true(r@) > count_true(r0),
                        !changed ==> r@ == r0 && r1 == r0,
                        forall|q: int| 0 <= q < p && hits(qds[q], in_set(r0)) ==> deps_in(qds[q], in_set(r@)),
                        forall|m: int| 0 <= m < k ==> in_set(r@).contains(deps@[m] as int),
                        count_true(r@) <= n,
                    decreases deps@.len() - k,
                {
                    let d = deps[k];
                    assert(d < n);
                    if !r[d] {
                        proof {
                            lemma_pred_step(pds, qds, init_set, r@, p as int, w as int, k as int);
                            lemma_count_set(r@, d as int);
                        }
                        let ghost before = r@;
                        r.set(d, true);
                        changed = true;
                        proof {
                            lemma_count_le(r@);
                            assert forall|q: int| 0 <= q < p && hits(qds[q], in_set(r0)) implies deps_in(qds[q], in_set(r@)) by {
                                assert(deps_in(qds[q], in_set(before)));
                            }
                        }
                    }
                    assert(in_set(r@).contains(d as int));
                    k = k + 1;
                }
                assert(deps_in(qds[p as int], in_set(r@)));
            } else {
                proof {
                    if hits(qds[p as int], in_set(r0)) {
                        let m = choose|m: int| 0 <= m < qds[p as int].len() && in_set(r0).contains(qds[p as int][m] as int);
                        assert(r@[deps@[m] as int]);
                    }
                }
            }
            p = p + 1;
        }
        proof {
            if !changed {
                assert(r@ == r0);
                assert forall|i: int| 0 <= i < pds.len() && in_set(r@).contains(i) implies deps_in(#[trigger] pds[i], in_set(r@)) by {}
                assert forall|q: int| 0 <= q < qds.len() && hits(#[trigger] qds[q], in_set(r@)) implies deps_in(qds[q], in_set(r@)) by {}
            }
        }
    }
    r
}


/// How a generic parameter is carried into the memento.
#[derive(Clone, Copy, Debug, PartialEq, Eq, Structural)]
pub enum Retention {
    /// The memento does not declare it.
    Dropped,
    /// The memento declares it as written.
    Retained,
    /// A type parameter that is itself a `#[recallable]` field's type; the
    /// memento stores its `Memento`.
    RetainedAsRecallable,
}

/// The dependency list of each parameter.
pub open spec fn spec_param_dep_lists(params: Seq<GenericParamModel>) -> Seq<Seq<usize>> {
    Seq::new(params.len(), |i: int| spec_deps(params, params[i].mentions@))
}

/// The dependency list of each where-predicate.
pub open spec fn spec_pred_dep_lists(params: Seq<GenericParamModel>, preds: Seq<WherePredModel>) -> Seq<Seq<usize>> {
    Seq::new(preds.len(), |p: int| spec_deps(params, preds[p].mentions@))
}

/// The positions listed in `used`.
pub open spec fn listed(used: Seq<usize>) -> Set<int> {
    Set::new(|i: int| exists|k: int| 0 <= k < used.len() && used[k] as int == i)
}

/// The kept parameters of a retention plan.
pub open spec fn retained_set(ret: Seq<Retention>) -> Set<int> {
    Set::new(|i: int| 0 <= i < ret.len() && ret[i] != Retention::Dropped)
}

/// The positions of the predicates that name a kept parameter, in order.
pub open spec fn spec_kept_preds(qd: Seq<Seq<usize>>, r: Set<int>) -> Seq<usize>
    decreases qd.len(),
{
    if qd.len() == 0 {
        Seq::empty()
    } else {
        let prev = spec_kept_preds(qd.drop_last(), r);
        if hits(qd.last(), r) {
            prev.push((qd.len() - 1) as usize)
        } else {
            prev
        }
    }
}

/// What the memento keeps of the item's generics.
pub struct GenericPlan {
    /// One entry per generic parameter.
    pub retention: Vec<Retention>,
    /// The kept where-predicates by position; `None` when the memento has no
    /// where-predicates of the item's own.
    pub kept_preds: Option<Vec<usize>>,
}

/// `plan` keeps exactly the least closed set of parameters that holds the ones
/// named by stored fields (`used`), marks a kept type parameter recallable when
/// it is a recallable field's type (`rec`), and keeps the where-predicates that
/// name a kept parameter.
pub open spec fn spec_plan(
    params: Seq<GenericParamModel>,
    where_clause: Option<Seq<WherePredModel>>,
    used: Seq<usize>,
    rec: Seq<usize>,
    retention: Seq<Retention>,
    kept: Option<Seq<usize>>,
) -> bool {
    let pd = spec_param_dep_lists(params);
    let r = retained_set(retention);
    &&& retention.len() == params.len()
    &&& least_closed(pd, spec_pred_dep_lists(params, where_clause.unwrap_or(Seq::empty())), listed(used), r)
    &&& forall|i: int| 0 <= i < params.len() ==> ((retention[i] == Retention::RetainedAsRecallable) <==> (
        r.contains(i) && params[i].kind == ParamKind::Type && listed(rec).contains(i)))
    &&& kept == match where_clause {
        None => None,
        Some(preds) => {
            let k = spec_kept_preds(spec_pred_dep_lists(params, preds), r);
            if k.len() == 0 {
                None
            } else {
                Some(k)
            }
        },
    }
}

/// Two least closed sets over the same rules and start are the same set.
pub proof fn lemma_least_closed_unique(pd: Seq<Seq<usize>>, qd: Seq<Seq<usize>>, init: Set<int>, a: Set<int>, b: Set<int>)
    requires
        least_closed(pd, qd, init, a),
        least_closed(pd, qd, init, b),
    ensures
        a == b,
{
    assert(closed(pd, qd, b));
    assert(closed(pd, qd, a));
    assert(a.subset_of(b));
    assert(b.subset_of(a));
    assert(a =~= b);
}

fn contains_index(v: &Vec<usize>, x: usize) -> (r: bool)
    ensures
        r == listed(v@).contains(x as int),
{
    let mut i: usize = 0;
    while i < v.len()
        invariant
            0 <= i <= v@.len(),
            forall|k: int| 0 <= k < i ==> v@[k] != x,
        decreases v@.len() - i,
    {
        if v[i] == x {
            assert(v@[i as int] as int == x as int);
            return true;
        }
        i = i + 1;
    }
    false
}

fn kept_preds(qd: &Vec<Vec<usize>>, r: &Vec<bool>) -> (k: Vec<usize>)
    requires
        deps_below(nested(qd@), r@.len() as int),
    ensures
        k@ == spec_kept_preds(nested(qd@), in_set(r@)),
{
    let ghost qds = nested(qd@);
    let mut out: Vec<usize> = Vec::new();
    let mut p: usize = 0;
    while p < qd.len()
        invariant
            0 <= p <= qd@.len(),
            qds == nested(qd@),
            deps_below(qds, r@.len() as int),
            out@ == spec_kept_preds(qds.take(p as int), in_set(r@)),
        decreases qd@.len() - p,
    {
        assert(qds.take(p + 1).drop_last() == qds.take(p as int));
        assert(qds.take(p + 1).last() == qds[p as int]);
        let deps = &qd[p];
        assert(deps@ == qds[p as int]);
        let mut hit = false;
        let mut k: usize = 0;
        while k < deps.len()
            invariant
                0 <= k <= deps@.len(),
                deps@ == qds[p as int],
                0 <= p < qds.len(),
                deps_below(qds, r@.len() as int),
                hit ==> hits(deps@, in_set(r@)),
                !hit ==> forall|m: int| 0 <= m < k ==> !in_set(r@).contains(deps@[m] as int),
            decreases deps@.len() - k,
        {
            assert(deps@[k as int] < r@.len());
            if r[deps[k]] {
                hit = true;
                assert(in_set(r@).contains(deps@[k as int] as int));
            }
            k = k + 1;
        }
        if hit {
            out.push(p);
        }
        p = p + 1;
    }
    assert(qds.take(p as int) == qds);
    out
}

/// Decides which generic parameters and where-predicates the memento keeps.
pub fn plan_memento_generics(
    params: &Vec<GenericParamModel>,
    where_clause: &Option<Vec<WherePredModel>>,
    used: &Vec<usize>,
    rec: &Vec<usize>,
) -> (plan: GenericPlan)
    requires
        forall|k: int| 0 <= k < used@.len() ==> used@[k] < params@.len(),
    ensures
        spec_plan(
            params@,
            match where_clause {
                Some(w) => Some(w@),
                None => None,
            },
            used@,
            rec@,
            plan.retention@,
            match plan.kept_preds {
                Some(k) => Some(k@),
                None => None,
            },
        ),
{
    let n = params.len();
    let ghost pdl = spec_param_dep_lists(params@);
    let mut pd: Vec<Vec<usize>> = Vec::new();
    let mut i: usize = 0;
    while i < n
        invariant
            0 <= i <= n,
            n == params@.len(),
            pdl == spec_param_dep_lists(params@),
            nested(pd@) == pdl.take(i as int),
            deps_below(nested(pd@), n as int),
        decreases n - i,
    {
        let d = collect_deps(params, &params[i].mentions);
        let ghost prev = pd@;
        pd.push(d);
        assert(nested(pd@) =~= pdl.take(i + 1)) by {
            assert(nested(pd@) =~= nested(prev).push(pd@[i as int]@));
        }
        assert(deps_below(nested(pd@), n as int)) by {
            assert forall|a: int, b: int| 0 <= a < nested(pd@).len() && 0 <= b < nested(pd@)[a].len() implies nested(pd@)[a][b] < n by {
                if a < i {
                    assert(nested(pd@)[a] == nested(prev)[a]);
                }
            }
        }
        i = i + 1;
    }
    assert(pdl.take(n as int) == pdl);
    let empty: Vec<WherePredModel> = Vec::new();
    let preds = match where_clause {
        Some(w) => w,
        None => &empty,
    };
    let ghost qdl = spec_pred_dep_lists(params@, preds@);
    let mut qd: Vec<Vec<usize>> = Vec::new();
    let mut p: usize = 0;
    while p < preds.len()
        invariant
            0 <= p <= preds@.len(),
            n == params@.len(),
            qdl == spec_pred_dep_lists(params@, preds@),
            nested(qd@) == qdl.take(p as int),
            deps_below(nested(qd@), n as int),
        decreases preds@.len() - p,
    {
        let d = collect_deps(params, &preds[p].mentions);
        let ghost prev = qd@;
        qd.push(d);
        assert(nested(qd@) =~= qdl.take(p + 1)) by {
            assert(nested(qd@) =~= nested(prev).push(qd@[p as int]@));
        }
        assert(deps_below(nested(qd@), n as int)) by {
            assert forall|a: int, b: int| 0 <= a < nested(qd@).len() && 0 <= b < nested(qd@)[a].len() implies nested(qd@)[a][b] < n by {
                if a < p {
                    assert(nested(qd@)[a] == nested(prev)[a]);
                }
            }
        }
        p = p + 1;
    }
    assert(qdl.take(preds@.len() as int) == qdl);
    let mut init: Vec<bool> = Vec::new();
    let mut j: usize = 0;
    while j < n
        invariant
            0 <= j <= n,
            init@.len() == j,
            forall|a: int| 0 <= a < j ==> init@[a] == listed(used@).contains(a),
        decreases n - j,
    {
        let b = contains_index(used, j);
        init.push(b);
        j = j + 1;
    }
    assert(in_set(init@) =~= listed(used@)) by {
        assert forall|a: int| listed(used@).contains(a) implies in_set(init@).contains(a) by {
            let k = choose|k: int| 0 <= k < used@.len() && used@[k] as int == a;
            assert(used@[k] < n);
        }
    }
    let r = close_retained(&pd, &qd, init);
    let mut retention: Vec<Retention> = Vec::new();
    let mut j: usize = 0;
    while j < n
        invariant
            0 <= j <= n,
            n == params@.len(),
            r@.len() == n,
            retention@.len() == j,
            forall|a: int| 0 <= a < j ==> (retention@[a] != Retention::Dropped) == r@[a],
            forall|a: int| 0 <= a < j ==> ((retention@[a] == Retention::RetainedAsRecallable) <==> (r@[a]
                && params@[a].kind == ParamKind::Type && listed(rec@).contains(a))),
        decreases n - j,
    {
        let ret = if !r[j] {
            Retention::Dropped
        } else if params[j].kind == ParamKind::Type && contains_index(rec, j) {
            Retention::RetainedAsRecallable
        } else {
            Retention::Retained
        };
        retention.push(ret);
        j = j + 1;
    }
    assert(retained_set(retention@) =~= in_set(r@));
    let kept_preds = match where_clause {
        None => None,
        Some(_) => {
            let k = kept_preds(&qd, &r);
            if k.len() == 0 {
                None
            } else {
                Some(k)
            }
        },
    };
    GenericPlan { retention, kept_preds }
}

} // verus!
