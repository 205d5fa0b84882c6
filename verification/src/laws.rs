//! What the memento plans must be, stated from the derive input itself: which
//! parameter a name refers to, which parameters the memento keeps and which
//! count as recallable, the memento type of a field, how serde names are read,
//! and the bounds of the `From` impl.
use vstd::prelude::*;
use crate::bounds::{Bound, MementoTraitSpec, Predicate, Target, from_pairs, spec_from_bounds, spec_shared_bounds};
use crate::fields::FieldStrategy;
use crate::generics::spec_lookup;
use crate::memento::{MementoFieldTy, spec_field_ty};
use crate::model::{AttrModel, GenericParamModel, MetaModel, NestedMeta, ParamKind, TypeKind, TypeModel, ItemModel};
use crate::attrs::spec_path_is_ident;
use crate::diag::ErrorKind;
use crate::serde_attrs::{SerdeView, empty_serde, spec_serde_list, spec_serde_source};
use crate::generics::Retention;
use crate::bounds::spec_recallable_params;
use crate::impls::spec_from_where;
use crate::ir::{ItemIr, ir_matches, group_views, spec_analysis, spec_variants_ir, lemma_groups_align};
use crate::generics::{spec_mention_param, spec_deps, listed, retained_set};
use crate::fields::{FieldIr, spec_fields_ir, spec_classify_recallable};
use crate::model::{FieldModel, Mention, VariantModel, ItemData};
use crate::bounds::item_field_groups;

verus! {

/// `i` is the last parameter of kind `kind` named `name` (a later one of the
/// same kind and name would hide it).
pub open spec fn last_named(params: Seq<GenericParamModel>, kind: ParamKind, name: Seq<char>, i: int) -> bool {
    &&& 0 <= i < params.len()
    &&& params[i].kind == kind
    &&& params[i].name@ == name
    &&& forall|j: int| i < j < params.len() ==> !((#[trigger] params[j]).kind == kind && params[j].name@ == name)
}

/// No parameter of kind `kind` is named `name`.
pub open spec fn none_named(params: Seq<GenericParamModel>, kind: ParamKind, name: Seq<char>) -> bool {
    forall|j: int| 0 <= j < params.len() ==> !((#[trigger] params[j]).kind == kind && params[j].name@ == name)
}

/// `ty` is written as a bare one-segment path that names the type parameter `i`.
pub open spec fn names_type_param(ty: TypeModel, params: Seq<GenericParamModel>, i: int) -> bool {
    match ty.kind {
        TypeKind::Path { qself, path } => !qself && path.segments@.len() == 1 && !path.segments@[0].has_args
            && last_named(params, ParamKind::Type, path.segments@[0].ident@, i),
        TypeKind::Other => false,
    }
}

/// A lookup by kind and name finds exactly the last parameter of that kind and
/// name, or nothing when there is none.
pub proof fn lemma_lookup_direct(params: Seq<GenericParamModel>, kind: ParamKind, name: Seq<char>)
    requires
        params.len() <= usize::MAX,
    ensures
        spec_lookup(params, kind, name) matches Some(i) ==> last_named(params, kind, name, i as int),
        spec_lookup(params, kind, name) is None <==> none_named(params, kind, name),
        forall|i: int| last_named(params, kind, name, i) ==> spec_lookup(params, kind, name) == Some(i as usize),
    decreases params.len(),
{
    if params.len() > 0 {
        let p = params.drop_last();
        let n = params.len() - 1;
        lemma_lookup_direct(p, kind, name);
        assert forall|j: int| 0 <= j < p.len() implies p[j] == params[j] by {}
        assert(params[n] == params.last());
        if !(params.last().kind == kind && params.last().name@ == name) {
            match spec_lookup(p, kind, name) {
                Some(i) => {
                    assert(p[i as int] == params[i as int]);
                    assert forall|j: int| i < j < params.len() implies !((#[trigger] params[j]).kind == kind
                        && params[j].name@ == name) by {
                        if j < n {
                            assert(p[j] == params[j]);
                        }
                    }
                },
                None => {
                    assert forall|j: int| 0 <= j < params.len() implies !((#[trigger] params[j]).kind == kind
                        && params[j].name@ == name) by {
                        if j < n {
                            assert(p[j] == params[j]);
                        }
                    }
                },
            }
            assert forall|i: int| last_named(params, kind, name, i) implies spec_lookup(params, kind, name) == Some(
                i as usize,
            ) by {
                assert(i < n);
                assert(p[i] == params[i]);
                assert forall|j: int| i < j < p.len() implies !((#[trigger] p[j]).kind == kind && p[j].name@ == name) by {
                    assert(p[j] == params[j]);
                }
                assert(last_named(p, kind, name, i));
            }
        } else {
            assert forall|i: int| last_named(params, kind, name, i) implies spec_lookup(params, kind, name) == Some(
                i as usize,
            ) by {
                if i < n {
                    assert(!((params[n]).kind == kind && params[n].name@ == name));
                }
            }
            if none_named(params, kind, name) {
                assert(!((params[n]).kind == kind && params[n].name@ == name));
            }
        }
    }
}

/// The memento type of a field: its own type unless it is `#[recallable]`;
/// for a `#[recallable]` field whose type is a bare type parameter, that very
/// parameter's `Memento`; for any other `#[recallable]` field, its type's
/// `Memento` through `Recallable`.
pub proof fn lemma_memento_field_type(st: FieldStrategy, ty: TypeModel, params: Seq<GenericParamModel>)
    requires
        params.len() <= usize::MAX,
    ensures
        st != FieldStrategy::StoreAsMemento ==> spec_field_ty(st, ty, params) == MementoFieldTy::Same,
        forall|i: int| st == FieldStrategy::StoreAsMemento && names_type_param(ty, params, i) ==> spec_field_ty(
            st,
            ty,
            params,
        ) == MementoFieldTy::ParamMemento(i as usize),
        spec_field_ty(st, ty, params) matches MementoFieldTy::ParamMemento(i) ==> st == FieldStrategy::StoreAsMemento
            && names_type_param(ty, params, i as int),
        st == FieldStrategy::StoreAsMemento && (forall|i: int| !names_type_param(ty, params, i)) ==> spec_field_ty(
            st,
            ty,
            params,
        ) == MementoFieldTy::TypeMemento,
{
    match ty.kind {
        TypeKind::Path { qself, path } => {
            if path.segments@.len() >= 1 {
                let name = path.segments@[0].ident@;
                lemma_lookup_direct(params, ParamKind::Type, name);
                if let Some(i) = spec_lookup(params, ParamKind::Type, name) {
                    if !qself && path.segments@.len() == 1 && !path.segments@[0].has_args {
                        assert(names_type_param(ty, params, i as int));
                    }
                }
            }
        },
        TypeKind::Other => {},
    }
}

/// The `From` impl's bounds hold, for each recallable parameter and each
/// whole-type target `t`, both `t: Recallable` and `<t>::Memento: From<t>`.
pub proof fn lemma_from_bounds_cover(rp: Seq<usize>, wt: Seq<Target>, s: MementoTraitSpec)
    ensures
        forall|k: int| 0 <= k < rp.len() ==> spec_from_bounds(rp, wt, s).contains(
            Predicate::Direct(Target::Param(#[trigger] rp[k]), Bound::Recallable),
        ) && spec_from_bounds(rp, wt, s).contains(Predicate::MementoFrom(Target::Param(rp[k]))),
        forall|k: int| 0 <= k < wt.len() ==> spec_from_bounds(rp, wt, s).contains(
            Predicate::Direct(#[trigger] wt[k], Bound::Recallable),
        ) && spec_from_bounds(rp, wt, s).contains(Predicate::MementoFrom(wt[k])),
{
    let pts = rp.map_values(|p: usize| Target::Param(p));
    lemma_from_pairs_cover(pts);
    lemma_from_pairs_cover(wt);
    let a = from_pairs(pts);
    let b = spec_shared_bounds(rp, wt, s);
    let c = from_pairs(wt);
    let all = a + b + c;
    assert(all == spec_from_bounds(rp, wt, s));
    assert forall|k: int| 0 <= k < rp.len() implies all.contains(
        Predicate::Direct(Target::Param(#[trigger] rp[k]), Bound::Recallable),
    ) && all.contains(Predicate::MementoFrom(Target::Param(rp[k]))) by {
        assert(pts[k] == Target::Param(rp[k]));
        let x = choose|x: int| 0 <= x < a.len() && a[x] == Predicate::Direct(pts[k], Bound::Recallable);
        let y = choose|y: int| 0 <= y < a.len() && a[y] == Predicate::MementoFrom(pts[k]);
        assert(all[x] == a[x]);
        assert(all[y] == a[y]);
    }
    assert forall|k: int| 0 <= k < wt.len() implies all.contains(Predicate::Direct(#[trigger] wt[k], Bound::Recallable))
        && all.contains(Predicate::MementoFrom(wt[k])) by {
        let x = choose|x: int| 0 <= x < c.len() && c[x] == Predicate::Direct(wt[k], Bound::Recallable);
        let y = choose|y: int| 0 <= y < c.len() && c[y] == Predicate::MementoFrom(wt[k]);
        assert(all[a.len() + b.len() + x] == c[x]);
        assert(all[a.len() + b.len() + y] == c[y]);
    }
}

/// Each target's pair is among the pairs.
proof fn lemma_from_pairs_cover(ts: Seq<Target>)
    ensures
        forall|k: int| 0 <= k < ts.len() ==> (exists|x: int| 0 <= x < from_pairs(ts).len() && from_pairs(ts)[x]
            == Predicate::Direct(#[trigger] ts[k], Bound::Recallable)) && (exists|y: int| 0 <= y < from_pairs(ts).len()
            && from_pairs(ts)[y] == Predicate::MementoFrom(ts[k])),
    decreases ts.len(),
{
    if ts.len() > 0 {
        let p = ts.drop_last();
        lemma_from_pairs_cover(p);
        let prev = from_pairs(p);
        let cur = from_pairs(ts);
        assert(cur == prev + seq![Predicate::Direct(ts.last(), Bound::Recallable), Predicate::MementoFrom(ts.last())]);
        assert forall|k: int| 0 <= k < ts.len() implies (exists|x: int| 0 <= x < cur.len() && cur[x] == Predicate::Direct(
            #[trigger] ts[k],
            Bound::Recallable,
        )) && (exists|y: int| 0 <= y < cur.len() && cur[y] == Predicate::MementoFrom(ts[k])) by {
            if k < p.len() {
                assert(p[k] == ts[k]);
                let x = choose|x: int| 0 <= x < prev.len() && prev[x] == Predicate::Direct(p[k], Bound::Recallable);
                let y = choose|y: int| 0 <= y < prev.len() && prev[y] == Predicate::MementoFrom(p[k]);
                assert(cur[x] == prev[x]);
                assert(cur[y] == prev[y]);
            } else {
                assert(cur[prev.len() as int] == Predicate::Direct(ts.last(), Bound::Recallable));
                assert(cur[prev.len() as int + 1] == Predicate::MementoFrom(ts.last()));
            }
        }
    }
}

/// The entries of all `#[name(...)]` lists among `attrs`, one list after another.
pub open spec fn source_items(attrs: Seq<AttrModel>, name: Seq<char>) -> Seq<NestedMeta>
    decreases attrs.len(),
{
    if attrs.len() == 0 {
        Seq::empty()
    } else {
        let a = attrs.last();
        source_items(attrs.drop_last(), name) + (if spec_path_is_ident(a.path, name) && a.meta is List {
            a.meta->List_0@
        } else {
            Seq::empty()
        })
    }
}

/// Reading two lists one after the other is reading the first, then the second
/// from where the first left off.
pub proof fn lemma_serde_list_append(acc: SerdeView, a: Seq<NestedMeta>, b: Seq<NestedMeta>, dup: ErrorKind)
    ensures
        spec_serde_list(acc, a + b, dup) == (match spec_serde_list(acc, a, dup) {
            Err(e) => Err(e),
            Ok(r) => spec_serde_list(r, b, dup),
        }),
    decreases b.len(),
{
    if b.len() == 0 {
        assert(a + b =~= a);
    } else {
        lemma_serde_list_append(acc, a, b.drop_last(), dup);
        assert((a + b).drop_last() =~= a + b.drop_last());
        assert((a + b).last() == b.last());
    }
}

/// Reading the names of several `#[name(...)]` attributes is reading one list
/// made of all their entries in order: a rename or alias given in an earlier
/// attribute stays when later ones follow, and the first error is the same.
pub proof fn lemma_serde_source_concat(attrs: Seq<AttrModel>, name: Seq<char>, dup: ErrorKind)
    ensures
        match spec_serde_source(attrs, name, dup) {
            Ok(v) => spec_serde_list(empty_serde(), source_items(attrs, name), dup) == Ok::<SerdeView, ErrorKind>(v),
            Err((k, _)) => spec_serde_list(empty_serde(), source_items(attrs, name), dup) == Err::<SerdeView, ErrorKind>(k),
        },
    decreases attrs.len(),
{
    if attrs.len() > 0 {
        let p = attrs.drop_last();
        lemma_serde_source_concat(p, name, dup);
        let a = attrs.last();
        let extra = if spec_path_is_ident(a.path, name) && a.meta is List {
            a.meta->List_0@
        } else {
            Seq::empty()
        };
        lemma_serde_list_append(empty_serde(), source_items(p, name), extra, dup);
        if !(spec_path_is_ident(a.path, name) && a.meta is List) {
            match spec_serde_list(empty_serde(), source_items(p, name), dup) {
                Ok(r) => {
                    assert(spec_serde_list(r, Seq::<NestedMeta>::empty(), dup) == Ok::<SerdeView, ErrorKind>(r));
                },
                Err(_) => {},
            }
        }
    }
}

/// A parameter kept as recallable is among the recallable parameters.
proof fn lemma_recallable_params_contains(ret: Seq<Retention>, i: int)
    requires
        0 <= i < ret.len(),
        ret[i] == Retention::RetainedAsRecallable,
        ret.len() <= usize::MAX,
    ensures
        spec_recallable_params(ret).contains(i as usize),
    decreases ret.len(),
{
    let p = ret.drop_last();
    if i < ret.len() - 1 {
        assert(p[i] == ret[i]);
        lemma_recallable_params_contains(p, i);
        let r = spec_recallable_params(p);
        let k = choose|k: int| 0 <= k < r.len() && r[k] == i as usize;
        assert(spec_recallable_params(ret)[k] == r[k]);
    } else {
        assert(ret.last() == ret[i]);
        let r = spec_recallable_params(ret);
        assert(r[r.len() - 1] == i as usize);
    }
}

/// Every parameter kept as recallable gets, in the `From` impl's where-clause,
/// both `T: Recallable` and `T::Memento: From<T>`.
pub proof fn lemma_from_where_recallable(item: ItemModel, ir: ItemIr, serde_enabled: bool)
    requires
        ir.plan.retention@.len() <= usize::MAX,
    ensures
        forall|i: int| 0 <= i < ir.plan.retention@.len() && #[trigger] ir.plan.retention@[i] == Retention::RetainedAsRecallable
            ==> (spec_from_where(item, ir, serde_enabled) matches Some(w) && w.contains(
            Predicate::Direct(Target::Param(i as usize), Bound::Recallable),
        ) && w.contains(Predicate::MementoFrom(Target::Param(i as usize)))),
{
    let rp = spec_recallable_params(ir.plan.retention@);
    let wt = crate::bounds::spec_whole_type_targets(item, ir);
    let sp = crate::bounds::item_trait_spec(ir, serde_enabled);
    lemma_from_bounds_cover(rp, wt, sp);
    let fb = spec_from_bounds(rp, wt, sp);
    assert forall|i: int| 0 <= i < ir.plan.retention@.len() && #[trigger] ir.plan.retention@[i]
        == Retention::RetainedAsRecallable implies (spec_from_where(item, ir, serde_enabled) matches Some(w) && w.contains(
        Predicate::Direct(Target::Param(i as usize), Bound::Recallable),
    ) && w.contains(Predicate::MementoFrom(Target::Param(i as usize)))) by {
        lemma_recallable_params_contains(ir.plan.retention@, i);
        let k = choose|k: int| 0 <= k < rp.len() && rp[k] == i as usize;
        assert(fb.contains(Predicate::Direct(Target::Param(rp[k]), Bound::Recallable)));
        assert(fb.contains(Predicate::MementoFrom(Target::Param(rp[k]))));
        let x = choose|x: int| 0 <= x < fb.len() && fb[x] == Predicate::Direct(Target::Param(i as usize), Bound::Recallable);
        let y = choose|y: int| 0 <= y < fb.len() && fb[y] == Predicate::MementoFrom(Target::Param(i as usize));
        match crate::bounds::item_where_len(item) {
            None => {},
            Some(n) => {
                let w = crate::bounds::item_preds(n) + fb;
                assert(w[crate::bounds::item_preds(n).len() + x] == fb[x]);
                assert(w[crate::bounds::item_preds(n).len() + y] == fb[y]);
            },
        }
    }
}

/// Mention `m` names parameter `i`: a lifetime names the last lifetime
/// parameter of its name; a type path names the last type parameter named by
/// its first segment, or, when no type parameter has that name and the path is
/// a bare one-segment path inside angle-bracketed arguments, the last const
/// parameter of that name; an expression path names the last const parameter
/// of its name.
pub open spec fn mention_names(params: Seq<GenericParamModel>, m: Mention, i: int) -> bool {
    match m {
        Mention::Lifetime(l) => last_named(params, ParamKind::Lifetime, l@, i),
        Mention::TypePath { first, bare_single, in_angle_args } => last_named(params, ParamKind::Type, first@, i)
            || (none_named(params, ParamKind::Type, first@) && in_angle_args && bare_single && last_named(
            params,
            ParamKind::Const,
            first@,
            i,
        )),
        Mention::ExprPath(e) => last_named(params, ParamKind::Const, e@, i),
    }
}

/// The parameter a mention refers to is exactly the one it names, and it
/// refers to none when it names none.
pub proof fn lemma_mention_param_direct(params: Seq<GenericParamModel>, m: Mention)
    requires
        params.len() <= usize::MAX,
    ensures
        forall|i: int| #[trigger] mention_names(params, m, i) ==> spec_mention_param(params, m) == Some(i as usize),
        spec_mention_param(params, m) matches Some(i) ==> mention_names(params, m, i as int),
        spec_mention_param(params, m) is None ==> forall|i: int| !#[trigger] mention_names(params, m, i),
{
    match m {
        Mention::Lifetime(l) => lemma_lookup_direct(params, ParamKind::Lifetime, l@),
        Mention::TypePath { first, .. } => {
            lemma_lookup_direct(params, ParamKind::Type, first@);
            lemma_lookup_direct(params, ParamKind::Const, first@);
            assert forall|i: int| #[trigger] mention_names(params, m, i) implies spec_mention_param(params, m) == Some(
                i as usize,
            ) by {
                if last_named(params, ParamKind::Type, first@, i) {
                } else {
                    assert(spec_lookup(params, ParamKind::Type, first@) is None);
                }
            }
            if spec_lookup(params, ParamKind::Type, first@) is None {
                assert forall|i: int| !last_named(params, ParamKind::Type, first@, i) by {
                    if last_named(params, ParamKind::Type, first@, i) {
                        assert(params[i].kind == ParamKind::Type && params[i].name@ == first@);
                    }
                }
            }
        },
        Mention::ExprPath(e) => lemma_lookup_direct(params, ParamKind::Const, e@),
    }
}

/// A parameter that one of the mentions refers to is in their dependency list.
proof fn lemma_deps_contain(params: Seq<GenericParamModel>, ms: Seq<Mention>, k: int)
    requires
        0 <= k < ms.len(),
        spec_mention_param(params, ms[k]) is Some,
    ensures
        spec_deps(params, ms).contains(spec_mention_param(params, ms[k])->Some_0),
    decreases ms.len(),
{
    let p = ms.drop_last();
    let x = spec_mention_param(params, ms[k])->Some_0;
    if k < ms.len() - 1 {
        assert(p[k] == ms[k]);
        lemma_deps_contain(params, p, k);
        let d = spec_deps(params, p);
        let j = choose|j: int| 0 <= j < d.len() && d[j] == x;
        assert(spec_deps(params, ms)[j] == d[j]);
    } else {
        assert(ms.last() == ms[k]);
        let d = spec_deps(params, ms);
        assert(d[d.len() - 1] == x);
    }
}

/// What the analysis of one list of fields collects: every parameter that the
/// dependency list of a stored field's type holds is among the parameters used,
/// and a parameter is recallable exactly when a `#[recallable]` field's type is
/// that bare parameter.
proof fn lemma_fields_ir_collects(fields: Seq<FieldModel>, params: Seq<GenericParamModel>, variant: Option<usize>)
    requires
        spec_fields_ir(fields, params, variant) is Ok,
    ensures
        ({
            let (irs, used, rec) = spec_fields_ir(fields, params, variant)->Ok_0;
            &&& irs.len() == fields.len()
            &&& forall|f: int, x: usize| 0 <= f < fields.len() && (#[trigger] irs[f]).strategy != FieldStrategy::Skip
                && spec_deps(params, fields[f].ty.mentions@).contains(x) ==> #[trigger] used.contains(x)
            &&& forall|x: usize| #[trigger] rec.contains(x) <==> exists|f: int| 0 <= f < fields.len()
                && (#[trigger] irs[f]).strategy == FieldStrategy::StoreAsMemento && spec_classify_recallable(
                fields[f].ty,
                params,
            ) == Ok::<Option<usize>, ()>(Some(x))
        }),
    decreases fields.len(),
{
    if fields.len() > 0 {
        let p = fields.drop_last();
        let n = fields.len() - 1;
        lemma_fields_ir_collects(p, params, variant);
        let (irs0, used0, rec0) = spec_fields_ir(p, params, variant)->Ok_0;
        let (irs, used, rec) = spec_fields_ir(fields, params, variant)->Ok_0;
        let f = fields.last();
        assert(fields[n] == f);
        assert forall|j: int| 0 <= j < p.len() implies p[j] == fields[j] && irs[j] == irs0[j] by {}
        let o = crate::fields::spec_field_outcome(f, params, variant, n as usize)->Ok_0;
        assert(used == used0 + o.1);
        assert forall|g: int, x: usize| 0 <= g < fields.len() && (#[trigger] irs[g]).strategy != FieldStrategy::Skip
            && spec_deps(params, fields[g].ty.mentions@).contains(x) implies #[trigger] used.contains(x) by {
            if g < n {
                assert(p[g] == fields[g] && irs[g] == irs0[g]);
                assert(irs0[g].strategy != FieldStrategy::Skip);
                assert(spec_deps(params, p[g].ty.mentions@).contains(x));
                assert(used0.contains(x));
                let j = choose|j: int| 0 <= j < used0.len() && used0[j] == x;
                assert(used[j] == used0[j]);
            } else {
                assert(o.1 == spec_deps(params, f.ty.mentions@));
                let j = choose|j: int| 0 <= j < o.1.len() && o.1[j] == x;
                assert(used[used0.len() + j] == o.1[j]);
            }
        }
        assert forall|x: usize| #[trigger] rec.contains(x) <==> exists|g: int| 0 <= g < fields.len()
            && (#[trigger] irs[g]).strategy == FieldStrategy::StoreAsMemento && spec_classify_recallable(
            fields[g].ty,
            params,
        ) == Ok::<Option<usize>, ()>(Some(x)) by {
            if rec.contains(x) {
                let j = choose|j: int| 0 <= j < rec.len() && rec[j] == x;
                if j < rec0.len() {
                    assert(rec0[j] == rec[j]);
                    assert(rec0.contains(x));
                    let g = choose|g: int| 0 <= g < p.len() && (#[trigger] irs0[g]).strategy == FieldStrategy::StoreAsMemento
                        && spec_classify_recallable(p[g].ty, params) == Ok::<Option<usize>, ()>(Some(x));
                    assert(irs[g] == irs0[g] && p[g] == fields[g]);
                } else {
                    assert(irs[n].strategy == FieldStrategy::StoreAsMemento);
                }
            }
            if exists|g: int| 0 <= g < fields.len() && (#[trigger] irs[g]).strategy == FieldStrategy::StoreAsMemento
                && spec_classify_recallable(fields[g].ty, params) == Ok::<Option<usize>, ()>(Some(x)) {
                let g = choose|g: int| 0 <= g < fields.len() && (#[trigger] irs[g]).strategy
                    == FieldStrategy::StoreAsMemento && spec_classify_recallable(fields[g].ty, params) == Ok::<
                    Option<usize>,
                    (),
                >(Some(x));
                if g < n {
                    assert(irs[g] == irs0[g] && p[g] == fields[g]);
                    assert(rec0.contains(x));
                    let j = choose|j: int| 0 <= j < rec0.len() && rec0[j] == x;
                    assert(rec[j] == rec0[j]);
                } else {
                    assert(rec[rec.len() - 1] == x);
                }
            }
        }
    }
}

/// The same over the variants of an enum: one group of field IRs per variant.
proof fn lemma_variants_ir_collects(variants: Seq<VariantModel>, params: Seq<GenericParamModel>)
    requires
        spec_variants_ir(variants, params) is Ok,
    ensures
        ({
            let (gs, used, rec) = spec_variants_ir(variants, params)->Ok_0;
            &&& gs.len() == variants.len()
            &&& forall|g: int| 0 <= g < gs.len() ==> (#[trigger] gs[g]).len() == variants[g].fields@.len()
            &&& forall|g: int, f: int, x: usize| 0 <= g < gs.len() && 0 <= f < gs[g].len() && (#[trigger] gs[g][f]).strategy
                != FieldStrategy::Skip && spec_deps(params, variants[g].fields@[f].ty.mentions@).contains(x)
                ==> #[trigger] used.contains(x)
            &&& forall|x: usize| #[trigger] rec.contains(x) <==> exists|g: int, f: int| 0 <= g < gs.len() && 0 <= f
                < gs[g].len() && (#[trigger] gs[g][f]).strategy == FieldStrategy::StoreAsMemento
                && spec_classify_recallable(variants[g].fields@[f].ty, params) == Ok::<Option<usize>, ()>(Some(x))
        }),
    decreases variants.len(),
{
    if variants.len() > 0 {
        let p = variants.drop_last();
        let n = variants.len() - 1;
        lemma_variants_ir_collects(p, params);
        let (gs0, used0, rec0) = spec_variants_ir(p, params)->Ok_0;
        let (gs, used, rec) = spec_variants_ir(variants, params)->Ok_0;
        let v = variants.last();
        assert(variants[n] == v);
        lemma_fields_ir_collects(v.fields@, params, Some(n as usize));
        let (irs, u, r) = spec_fields_ir(v.fields@, params, Some(n as usize))->Ok_0;
        assert(gs == gs0.push(irs) && used == used0 + u && rec == rec0 + r);
        assert forall|g: int| 0 <= g < p.len() implies p[g] == variants[g] && gs[g] == gs0[g] by {}
        assert forall|g: int, f: int, x: usize| 0 <= g < gs.len() && 0 <= f < gs[g].len() && (#[trigger] gs[g][f]).strategy
            != FieldStrategy::Skip && spec_deps(params, variants[g].fields@[f].ty.mentions@).contains(x)
            implies #[trigger] used.contains(x) by {
            if g < n {
                assert(p[g] == variants[g] && gs[g] == gs0[g]);
                assert(gs0[g][f].strategy != FieldStrategy::Skip);
                assert(used0.contains(x));
                let j = choose|j: int| 0 <= j < used0.len() && used0[j] == x;
                assert(used[j] == used0[j]);
            } else {
                assert(gs[g] == irs);
                assert(irs[f].strategy != FieldStrategy::Skip);
                assert(u.contains(x));
                let j = choose|j: int| 0 <= j < u.len() && u[j] == x;
                assert(used[used0.len() + j] == u[j]);
            }
        }
        assert forall|x: usize| #[trigger] rec.contains(x) <==> exists|g: int, f: int| 0 <= g < gs.len() && 0 <= f
            < gs[g].len() && (#[trigger] gs[g][f]).strategy == FieldStrategy::StoreAsMemento
            && spec_classify_recallable(variants[g].fields@[f].ty, params) == Ok::<Option<usize>, ()>(Some(x)) by {
            if rec.contains(x) {
                let j = choose|j: int| 0 <= j < rec.len() && rec[j] == x;
                if j < rec0.len() {
                    assert(rec0[j] == rec[j]);
                    assert(rec0.contains(x));
                    let (g, f) = choose|g: int, f: int| 0 <= g < gs0.len() && 0 <= f < gs0[g].len() && (#[trigger] gs0[g][f]).strategy
                        == FieldStrategy::StoreAsMemento && spec_classify_recallable(p[g].fields@[f].ty, params) == Ok::<
                        Option<usize>,
                        (),
                    >(Some(x));
                    assert(gs[g] == gs0[g] && p[g] == variants[g]);
                    assert(gs[g][f].strategy == FieldStrategy::StoreAsMemento);
                } else {
                    assert(r[j - rec0.len()] == x);
                    assert(r.contains(x));
                    let f = choose|f: int| 0 <= f < v.fields@.len() && (#[trigger] irs[f]).strategy == FieldStrategy::StoreAsMemento
                        && spec_classify_recallable(v.fields@[f].ty, params) == Ok::<Option<usize>, ()>(Some(x));
                    assert(gs[n] == irs);
                    assert(gs[n][f].strategy == FieldStrategy::StoreAsMemento);
                }
            }
            if exists|g: int, f: int| 0 <= g < gs.len() && 0 <= f < gs[g].len() && (#[trigger] gs[g][f]).strategy
                == FieldStrategy::StoreAsMemento && spec_classify_recallable(variants[g].fields@[f].ty, params) == Ok::<
                Option<usize>,
                (),
            >(Some(x)) {
                let (g, f) = choose|g: int, f: int| 0 <= g < gs.len() && 0 <= f < gs[g].len() && (#[trigger] gs[g][f]).strategy
                    == FieldStrategy::StoreAsMemento && spec_classify_recallable(variants[g].fields@[f].ty, params) == Ok::<
                    Option<usize>,
                    (),
                >(Some(x));
                if g < n {
                    assert(gs[g] == gs0[g] && p[g] == variants[g]);
                    assert(gs0[g][f].strategy == FieldStrategy::StoreAsMemento);
                    assert(rec0.contains(x));
                    let j = choose|j: int| 0 <= j < rec0.len() && rec0[j] == x;
                    assert(rec[j] == rec0[j]);
                } else {
                    assert(gs[g] == irs);
                    assert(irs[f].strategy == FieldStrategy::StoreAsMemento);
                    assert(r.contains(x));
                    let j = choose|j: int| 0 <= j < r.len() && r[j] == x;
                    assert(rec[rec0.len() + j] == r[j]);
                }
            }
        }
    }
}

/// The same over the item's field groups (the struct's fields, or each
/// variant's).
proof fn lemma_item_collects(item: ItemModel)
    requires
        spec_analysis(item) is Ok,
    ensures
        ({
            let (kind, gs, used, rec, skip) = spec_analysis(item)->Ok_0;
            let fgs = item_field_groups(item);
            let params = item.generics.params@;
            &&& gs.len() == fgs.len()
            &&& forall|g: int| 0 <= g < gs.len() ==> (#[trigger] gs[g]).len() == fgs[g].len()
            &&& forall|g: int, f: int, x: usize| 0 <= g < gs.len() && 0 <= f < gs[g].len() && (#[trigger] gs[g][f]).strategy
                != FieldStrategy::Skip && spec_deps(params, fgs[g][f].ty.mentions@).contains(x)
                ==> #[trigger] used.contains(x)
            &&& forall|x: usize| #[trigger] rec.contains(x) <==> exists|g: int, f: int| 0 <= g < gs.len() && 0 <= f
                < gs[g].len() && (#[trigger] gs[g][f]).strategy == FieldStrategy::StoreAsMemento
                && spec_classify_recallable(fgs[g][f].ty, params) == Ok::<Option<usize>, ()>(Some(x))
        }),
{
    let params = item.generics.params@;
    let fgs = item_field_groups(item);
    match item.data {
        ItemData::Struct { fields, .. } => {
            lemma_fields_ir_collects(fields@, params, None);
            let (irs, used, rec) = spec_fields_ir(fields@, params, None)->Ok_0;
            assert(fgs[0] == fields@);
            assert(spec_analysis(item)->Ok_0.1 == seq![irs]);
            assert(seq![irs][0] == irs);
            let (kind, gs, used2, rec2, skip) = spec_analysis(item)->Ok_0;
            assert(used2 == used && rec2 == rec);
            assert forall|x: usize| #[trigger] rec.contains(x) <==> exists|g: int, f: int| 0 <= g < gs.len() && 0 <= f
                < gs[g].len() && (#[trigger] gs[g][f]).strategy == FieldStrategy::StoreAsMemento
                && spec_classify_recallable(fgs[g][f].ty, params) == Ok::<Option<usize>, ()>(Some(x)) by {
                if rec.contains(x) {
                    let f = choose|f: int| 0 <= f < fields@.len() && (#[trigger] irs[f]).strategy == FieldStrategy::StoreAsMemento
                        && spec_classify_recallable(fields@[f].ty, params) == Ok::<Option<usize>, ()>(Some(x));
                    assert(gs[0][f] == irs[f]);
                }
            }
        },
        ItemData::Enum { variants } => {
            lemma_variants_ir_collects(variants@, params);
            assert forall|g: int| 0 <= g < variants@.len() implies #[trigger] fgs[g] == variants@[g].fields@ by {}
        },
        ItemData::Union => {},
    }
}

/// `classify` finds parameter `i` exactly when the type is that bare parameter.
proof fn lemma_classify_names(ty: TypeModel, params: Seq<GenericParamModel>)
    requires
        params.len() <= usize::MAX,
    ensures
        forall|i: int| #[trigger] names_type_param(ty, params, i) <==> (0 <= i < params.len() && spec_classify_recallable(ty, params)
            == Ok::<Option<usize>, ()>(Some(i as usize))),
{
    match ty.kind {
        TypeKind::Path { qself, path } => {
            if path.segments@.len() >= 1 {
                lemma_lookup_direct(params, ParamKind::Type, path.segments@[0].ident@);
                assert forall|i: int| 0 <= i < params.len() && spec_classify_recallable(ty, params) == Ok::<Option<usize>, ()>(
                    Some(i as usize),
                ) implies #[trigger] names_type_param(ty, params, i) by {
                    assert((i as usize) as int == i);
                }
            }
        },
        TypeKind::Other => {},
    }
}

/// The memento keeps every parameter that a stored field's type names: for
/// each field that is not skipped and each name in its type that refers to a
/// parameter of the item, that parameter is kept.
pub proof fn lemma_memento_keeps_named_params(item: ItemModel, ir: ItemIr)
    requires
        ir_matches(item, ir),
        item.generics.params@.len() <= usize::MAX,
    ensures
        ({
            let fgs = item_field_groups(item);
            let igs = group_views(ir.groups@);
            let params = item.generics.params@;
            forall|g: int, f: int, k: int, i: int|
                0 <= g < fgs.len() && 0 <= f < fgs[g].len() && (#[trigger] igs[g][f]).strategy != FieldStrategy::Skip
                    && 0 <= k < fgs[g][f].ty.mentions@.len() && #[trigger] mention_names(
                    params,
                    fgs[g][f].ty.mentions@[k],
                    i,
                ) ==> ir.plan.retention@[i] != Retention::Dropped
        }),
{
    let fgs = item_field_groups(item);
    let igs = group_views(ir.groups@);
    let params = item.generics.params@;
    lemma_item_collects(item);
    let (kind, gs, used, rec, skip) = spec_analysis(item)->Ok_0;
    assert forall|g: int, f: int, k: int, i: int|
        0 <= g < fgs.len() && 0 <= f < fgs[g].len() && (#[trigger] igs[g][f]).strategy != FieldStrategy::Skip
            && 0 <= k < fgs[g][f].ty.mentions@.len() && #[trigger] mention_names(params, fgs[g][f].ty.mentions@[k], i)
        implies ir.plan.retention@[i] != Retention::Dropped by {
        let ms = fgs[g][f].ty.mentions@;
        lemma_mention_param_direct(params, ms[k]);
        lemma_deps_contain(params, ms, k);
        let x = i as usize;
        assert(gs[g][f].strategy != FieldStrategy::Skip);
        assert(spec_deps(params, ms).contains(x));
        assert(used.contains(x));
        let j = choose|j: int| 0 <= j < used.len() && used[j] == x;
        assert(listed(used).contains(i));
        assert(retained_set(ir.plan.retention@).contains(i));
    }
}

/// A kept type parameter counts as recallable (it gets `T: Recallable` bounds
/// and its memento stores `T::Memento`) exactly when some `#[recallable]`
/// field, in any variant, has that bare parameter as its type.
pub proof fn lemma_recallable_params_direct(item: ItemModel, ir: ItemIr)
    requires
        ir_matches(item, ir),
        item.generics.params@.len() <= usize::MAX,
    ensures
        ({
            let fgs = item_field_groups(item);
            let igs = group_views(ir.groups@);
            let params = item.generics.params@;
            let ret = ir.plan.retention@;
            forall|i: int| 0 <= i < params.len() ==> ((#[trigger] ret[i] == Retention::RetainedAsRecallable) <==> (
                ret[i] != Retention::Dropped && exists|g: int, f: int| 0 <= g < fgs.len() && 0 <= f < fgs[g].len()
                    && (#[trigger] igs[g][f]).strategy == FieldStrategy::StoreAsMemento && names_type_param(
                    fgs[g][f].ty,
                    params,
                    i,
                )))
        }),
{
    let fgs = item_field_groups(item);
    let igs = group_views(ir.groups@);
    let params = item.generics.params@;
    let ret = ir.plan.retention@;
    lemma_item_collects(item);
    let (kind, gs, used, rec, skip) = spec_analysis(item)->Ok_0;
    assert forall|i: int| 0 <= i < params.len() implies ((#[trigger] ret[i] == Retention::RetainedAsRecallable) <==> (
        ret[i] != Retention::Dropped && exists|g: int, f: int| 0 <= g < fgs.len() && 0 <= f < fgs[g].len()
            && (#[trigger] igs[g][f]).strategy == FieldStrategy::StoreAsMemento && names_type_param(
            fgs[g][f].ty,
            params,
            i,
        ))) by {
        let x = i as usize;
        if ret[i] == Retention::RetainedAsRecallable {
            assert(listed(rec).contains(i));
            let j = choose|j: int| 0 <= j < rec.len() && rec[j] as int == i;
            assert(rec.contains(x));
            let (g, f) = choose|g: int, f: int| 0 <= g < gs.len() && 0 <= f < gs[g].len() && (#[trigger] gs[g][f]).strategy
                == FieldStrategy::StoreAsMemento && spec_classify_recallable(fgs[g][f].ty, params) == Ok::<Option<usize>, ()>(
                Some(x),
            );
            lemma_classify_names(fgs[g][f].ty, params);
            assert(names_type_param(fgs[g][f].ty, params, i));
            assert(igs[g][f].strategy == FieldStrategy::StoreAsMemento);
        }
        if ret[i] != Retention::Dropped && exists|g: int, f: int| 0 <= g < fgs.len() && 0 <= f < fgs[g].len()
            && (#[trigger] igs[g][f]).strategy == FieldStrategy::StoreAsMemento && names_type_param(fgs[g][f].ty, params, i) {
            let (g, f) = choose|g: int, f: int| 0 <= g < fgs.len() && 0 <= f < fgs[g].len()
                && (#[trigger] igs[g][f]).strategy == FieldStrategy::StoreAsMemento && names_type_param(
                fgs[g][f].ty,
                params,
                i,
            );
            lemma_classify_names(fgs[g][f].ty, params);
            assert(gs[g][f].strategy == FieldStrategy::StoreAsMemento);
            assert(rec.contains(x));
            let j = choose|j: int| 0 <= j < rec.len() && rec[j] == x;
            assert(listed(rec).contains(i));
            assert(retained_set(ret).contains(i));
            assert(params[i].kind == ParamKind::Type);
        }
    }
}

} // verus!
