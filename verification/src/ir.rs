//! Analysis of a whole derive input.
use vstd::prelude::*;
use crate::prefix::lemma_err_prefix;
use crate::attrs::{has_skip_memento_default_derives, spec_skip_memento_default_derives};
use crate::diag::{Diagnostic, ErrorKind, Site, diag};
use crate::fields::{
    FieldIr, FieldStrategy, collect_field_irs, spec_fields_ir, spec_borrowed_fields,
    validate_no_borrowed_fields, spec_is_phantom_data, is_phantom_data,
};
use crate::generics::{GenericPlan, Retention, plan_memento_generics, spec_plan, spec_deps, lemma_deps_in_range, listed, closed, hits, retained_set, spec_param_dep_lists, spec_pred_dep_lists};
use crate::fields::{num_stored, lemma_nothing_stored_names_nothing};
use crate::model::{FieldModel, GenericParamModel, ItemData, ItemModel, Shape, VariantModel, WherePredModel};

verus! {

/// Whether the item is a struct (with its shape) or an enum.
#[derive(Clone, Copy, Debug, PartialEq, Eq, Structural)]
pub enum ItemKind {
    Struct(Shape),
    Enum,
}

/// The analysis of a derive input.
pub struct ItemIr {
    pub kind: ItemKind,
    /// The analyzed fields: one group for a struct, one per variant for an enum.
    pub groups: Vec<Vec<FieldIr>>,
    /// What the memento keeps of the generics.
    pub plan: GenericPlan,
    /// The kept parameters that no stored field names, in order; the memento
    /// carries a `PhantomData` marker over them.
    pub markers: Vec<usize>,
    /// `#[recallable(skip_memento_default_derives)]` was given.
    pub skip_default_derives: bool,
}

/// The borrowed-field diagnostics of an enum: those of its first variant that has any.
pub open spec fn spec_variants_borrowed(variants: Seq<VariantModel>, params: Seq<GenericParamModel>) -> Seq<
    Diagnostic,
>
    decreases variants.len(),
{
    if variants.len() == 0 {
        Seq::empty()
    } else {
        let prev = spec_variants_borrowed(variants.drop_last(), params);
        if prev.len() > 0 {
            prev
        } else {
            spec_borrowed_fields(variants.last().fields@, params, Some((variants.len() - 1) as usize))
        }
    }
}

/// The field analysis of every variant, with the parameters named by stored
/// fields and the recallable type parameters of all variants together.
pub open spec fn spec_variants_ir(variants: Seq<VariantModel>, params: Seq<GenericParamModel>) -> Result<
    (Seq<Seq<FieldIr>>, Seq<usize>, Seq<usize>),
    Diagnostic,
>
    decreases variants.len(),
{
    if variants.len() == 0 {
        Ok((Seq::empty(), Seq::empty(), Seq::empty()))
    } else {
        match spec_variants_ir(variants.drop_last(), params) {
            Err(d) => Err(d),
            Ok((gs, used, rec)) => match spec_fields_ir(
                variants.last().fields@,
                params,
                Some((variants.len() - 1) as usize),
            ) {
                Err(d) => Err(d),
                Ok((irs, u, r)) => Ok((gs.push(irs), used + u, rec + r)),
            },
        }
    }
}

/// The analysis of an item before generics planning: whether it is an enum, the
/// field groups, the parameters named by stored fields, the recallable type
/// parameters, and the `skip_memento_default_derives` flag; or its diagnostics.
pub open spec fn spec_analysis(item: ItemModel) -> Result<
    (ItemKind, Seq<Seq<FieldIr>>, Seq<usize>, Seq<usize>, bool),
    Seq<Diagnostic>,
> {
    let params = item.generics.params@;
    match item.data {
        ItemData::Union => Err(seq![Diagnostic { kind: ErrorKind::NotStructOrEnum, site: Site::Item }]),
        ItemData::Struct { shape, fields } => {
            let borrowed = spec_borrowed_fields(fields@, params, None);
            if borrowed.len() > 0 {
                Err(borrowed)
            } else {
                match spec_fields_ir(fields@, params, None) {
                    Err(d) => Err(seq![d]),
                    Ok((irs, used, rec)) => match spec_skip_memento_default_derives(item.attrs@) {
                        Err(d) => Err(seq![d]),
                        Ok(skip) => Ok((ItemKind::Struct(shape), seq![irs], used, rec, skip)),
                    },
                }
            }
        },
        ItemData::Enum { variants } => {
            let borrowed = spec_variants_borrowed(variants@, params);
            if borrowed.len() > 0 {
                Err(borrowed)
            } else {
                match spec_variants_ir(variants@, params) {
                    Err(d) => Err(seq![d]),
                    Ok((gs, used, rec)) => match spec_skip_memento_default_derives(item.attrs@) {
                        Err(d) => Err(seq![d]),
                        Ok(skip) => Ok((ItemKind::Enum, gs, used, rec, skip)),
                    },
                }
            }
        },
    }
}

/// The kept parameters (per `ret`) that are not in `used`, in order.
pub open spec fn spec_markers(ret: Seq<Retention>, used: Seq<usize>) -> Seq<usize>
    decreases ret.len(),
{
    if ret.len() == 0 {
        Seq::empty()
    } else {
        let prev = spec_markers(ret.drop_last(), used);
        let i = ret.len() - 1;
        if ret.last() != Retention::Dropped && !listed(used).contains(i) {
            prev.push(i as usize)
        } else {
            prev
        }
    }
}

/// The field groups as sequences.
pub open spec fn group_views(g: Seq<Vec<FieldIr>>) -> Seq<Seq<FieldIr>> {
    g.map_values(|v: Vec<FieldIr>| v@)
}

/// The where-predicates of the item, if a where-clause is written.
pub open spec fn where_view(w: Option<Vec<WherePredModel>>) -> Option<Seq<WherePredModel>> {
    match w {
        Some(v) => Some(v@),
        None => None,
    }
}

/// The kept predicates of a plan, as a sequence.
pub open spec fn kept_view(k: Option<Vec<usize>>) -> Option<Seq<usize>> {
    match k {
        Some(v) => Some(v@),
        None => None,
    }
}

/// `ir` is the analysis of `item`.
pub open spec fn ir_matches(item: ItemModel, ir: ItemIr) -> bool {
    match spec_analysis(item) {
        Err(_) => false,
        Ok((kind, gs, used, rec, skip)) => {
            &&& ir.kind == kind
            &&& group_views(ir.groups@) == gs
            &&& spec_plan(
                item.generics.params@,
                where_view(item.generics.where_clause),
                used,
                rec,
                ir.plan.retention@,
                kept_view(ir.plan.kept_preds),
            )
            &&& ir.markers@ == spec_markers(ir.plan.retention@, used)
            &&& ir.skip_default_derives == skip
        },
    }
}

proof fn lemma_fields_used_in_range(fields: Seq<FieldModel>, params: Seq<GenericParamModel>, variant: Option<usize>)
    requires
        params.len() <= usize::MAX,
        spec_fields_ir(fields, params, variant) is Ok,
    ensures
        forall|k: int| 0 <= k < spec_fields_ir(fields, params, variant)->Ok_0.1.len() ==> spec_fields_ir(
            fields,
            params,
            variant,
        )->Ok_0.1[k] < params.len(),
    decreases fields.len(),
{
    if fields.len() > 0 {
        lemma_fields_used_in_range(fields.drop_last(), params, variant);
        lemma_deps_in_range(params, fields.last().ty.mentions@);
        let prev = spec_fields_ir(fields.drop_last(), params, variant)->Ok_0.1;
        let cur = spec_fields_ir(fields, params, variant)->Ok_0.1;
        assert forall|k: int| 0 <= k < cur.len() implies cur[k] < params.len() by {
            if k < prev.len() {
                assert(cur[k] == prev[k]);
            }
        }
    }
}

proof fn lemma_variants_used_in_range(variants: Seq<VariantModel>, params: Seq<GenericParamModel>)
    requires
        params.len() <= usize::MAX,
        spec_variants_ir(variants, params) is Ok,
    ensures
        forall|k: int| 0 <= k < spec_variants_ir(variants, params)->Ok_0.1.len() ==> spec_variants_ir(
            variants,
            params,
        )->Ok_0.1[k] < params.len(),
    decreases variants.len(),
{
    if variants.len() > 0 {
        let v = Some((variants.len() - 1) as usize);
        lemma_variants_used_in_range(variants.drop_last(), params);
        lemma_fields_used_in_range(variants.last().fields@, params, v);
        let prev = spec_variants_ir(variants.drop_last(), params)->Ok_0.1;
        let u = spec_fields_ir(variants.last().fields@, params, v)->Ok_0.1;
        let cur = spec_variants_ir(variants, params)->Ok_0.1;
        assert forall|k: int| 0 <= k < cur.len() implies cur[k] < params.len() by {
            if k < prev.len() {
                assert(cur[k] == prev[k]);
            } else {
                assert(cur[k] == u[k - prev.len()]);
            }
        }
    }
}

fn markers_of(retention: &Vec<Retention>, used: &Vec<usize>) -> (m: Vec<usize>)
    ensures
        m@ == spec_markers(retention@, used@),
{
    let mut out: Vec<usize> = Vec::new();
    let mut i: usize = 0;
    while i < retention.len()
        invariant
            0 <= i <= retention@.len(),
            out@ == spec_markers(retention@.take(i as int), used@),
        decreases retention@.len() - i,
    {
        assert(retention@.take(i + 1).drop_last() == retention@.take(i as int));
        assert(retention@.take(i + 1).last() == retention@[i as int]);
        let mut named = false;
        let mut k: usize = 0;
        while k < used.len()
            invariant
                0 <= k <= used@.len(),
                named == (exists|j: int| 0 <= j < k && used@[j] as int == i as int),
            decreases used@.len() - k,
        {
            if used[k] == i {
                named = true;
            }
            k = k + 1;
        }
        assert(named == listed(used@).contains(i as int));
        if retention[i] != Retention::Dropped && !named {
            out.push(i);
        }
        i = i + 1;
    }
    assert(retention@.take(i as int) == retention@);
    out
}

fn variants_borrowed(variants: &Vec<VariantModel>, params: &Vec<GenericParamModel>) -> (r: Vec<Diagnostic>)
    ensures
        r@ == spec_variants_borrowed(variants@, params@),
{
    let mut i: usize = 0;
    while i < variants.len()
        invariant
            0 <= i <= variants@.len(),
            spec_variants_borrowed(variants@.take(i as int), params@).len() == 0,
        decreases variants@.len() - i,
    {
        assert(variants@.take(i + 1).drop_last() == variants@.take(i as int));
        assert(variants@.take(i + 1).last() == variants@[i as int]);
        let errs = validate_no_borrowed_fields(&variants[i].fields, params, Some(i));
        if errs.len() > 0 {
            proof { lemma_variants_borrowed_prefix(variants@, params@, i as int + 1); }
            return errs;
        }
        i = i + 1;
    }
    assert(variants@.take(i as int) == variants@);
    Vec::new()
}

proof fn lemma_variants_borrowed_prefix(variants: Seq<VariantModel>, params: Seq<GenericParamModel>, n: int)
    requires
        0 <= n <= variants.len(),
        spec_variants_borrowed(variants.take(n), params).len() > 0,
    ensures
        spec_variants_borrowed(variants, params) == spec_variants_borrowed(variants.take(n), params),
    decreases variants.len() - n,
{
    if n < variants.len() {
        assert(variants.take(n + 1).drop_last() == variants.take(n));
        lemma_variants_borrowed_prefix(variants, params, n + 1);
    } else {
        assert(variants.take(n) == variants);
    }
}

fn variants_ir(variants: &Vec<VariantModel>, params: &Vec<GenericParamModel>) -> (r: Result<
    (Vec<Vec<FieldIr>>, Vec<usize>, Vec<usize>),
    Diagnostic,
>)
    ensures
        match spec_variants_ir(variants@, params@) {
            Ok((gs, used, rec)) => r is Ok && group_views(r->Ok_0.0@) == gs && r->Ok_0.1@ == used
                && r->Ok_0.2@ == rec,
            Err(d) => r == Err::<(Vec<Vec<FieldIr>>, Vec<usize>, Vec<usize>), Diagnostic>(d),
        },
{
    let mut gs: Vec<Vec<FieldIr>> = Vec::new();
    let mut used: Vec<usize> = Vec::new();
    let mut rec: Vec<usize> = Vec::new();
    let mut i: usize = 0;
    assert(group_views(gs@) =~= Seq::<Seq<FieldIr>>::empty());
    while i < variants.len()
        invariant
            0 <= i <= variants@.len(),
            spec_variants_ir(variants@.take(i as int), params@) == Ok::<
                (Seq<Seq<FieldIr>>, Seq<usize>, Seq<usize>),
                Diagnostic,
            >((group_views(gs@), used@, rec@)),
        decreases variants@.len() - i,
    {
        assert(variants@.take(i + 1).drop_last() == variants@.take(i as int));
        assert(variants@.take(i + 1).last() == variants@[i as int]);
        match collect_field_irs(&variants[i].fields, params, Some(i)) {
            Err(d) => {
                proof { lemma_err_prefix(|t: Seq<VariantModel>| spec_variants_ir(t, params@), variants@, i as int + 1); }
                return Err(d);
            },
            Ok((irs, mut u, mut r)) => {
                let ghost prev = gs@;
                gs.push(irs);
                assert(group_views(gs@) =~= group_views(prev).push(gs@[prev.len() as int]@));
                used.append(&mut u);
                rec.append(&mut r);
            },
        }
        i = i + 1;
    }
    assert(variants@.take(i as int) == variants@);
    Ok((gs, used, rec))
}

/// Analyzes a derive input: validates its attributes and fields, decides how
/// each field and generic parameter is carried into the memento, and finds the
/// parameters that need a marker.
pub fn analyze_item(item: &ItemModel) -> (r: Result<ItemIr, Vec<Diagnostic>>)
    ensures
        match spec_analysis(*item) {
            Err(es) => r is Err && r->Err_0@ == es,
            Ok(_) => r is Ok && ir_matches(*item, r->Ok_0),
        },
{
    let params = &item.generics.params;
    let n = params.len();
    let (kind, groups, used, rec) = match &item.data {
        ItemData::Union => {
            let mut es: Vec<Diagnostic> = Vec::new();
            es.push(diag(ErrorKind::NotStructOrEnum, Site::Item));
            return Err(es);
        },
        ItemData::Struct { shape, fields } => {
            let borrowed = validate_no_borrowed_fields(fields, params, None);
            if borrowed.len() > 0 {
                return Err(borrowed);
            }
            match collect_field_irs(fields, params, None) {
                Err(d) => {
                    let mut es: Vec<Diagnostic> = Vec::new();
                    es.push(d);
                    return Err(es);
                },
                Ok((irs, used, rec)) => {
                    proof { lemma_fields_used_in_range(fields@, params@, None); }
                    let mut groups: Vec<Vec<FieldIr>> = Vec::new();
                    groups.push(irs);
                    assert(group_views(groups@) =~= seq![irs@]);
                    (ItemKind::Struct(*shape), groups, used, rec)
                },
            }
        },
        ItemData::Enum { variants } => {
            let borrowed = variants_borrowed(variants, params);
            if borrowed.len() > 0 {
                return Err(borrowed);
            }
            match variants_ir(variants, params) {
                Err(d) => {
                    let mut es: Vec<Diagnostic> = Vec::new();
                    es.push(d);
                    return Err(es);
                },
                Ok((gs, used, rec)) => {
                    proof { lemma_variants_used_in_range(variants@, params@); }
                    (ItemKind::Enum, gs, used, rec)
                },
            }
        },
    };
    let plan = plan_memento_generics(params, &item.generics.where_clause, &used, &rec);
    let markers = markers_of(&plan.retention, &used);
    match has_skip_memento_default_derives(&item.attrs) {
        Err(d) => {
            let mut es: Vec<Diagnostic> = Vec::new();
            es.push(d);
            Err(es)
        },
        Ok(skip) => {
            let ir = ItemIr { kind, groups, plan, markers, skip_default_derives: skip };
            assert(where_view(item.generics.where_clause) == match &item.generics.where_clause {
                Some(w) => Some(w@),
                None => None::<Seq<WherePredModel>>,
            });
            Ok(ir)
        },
    }
}


proof fn lemma_markers_none_kept(ret: Seq<Retention>, used: Seq<usize>)
    requires
        forall|i: int| 0 <= i < ret.len() ==> ret[i] == Retention::Dropped,
    ensures
        spec_markers(ret, used).len() == 0,
    decreases ret.len(),
{
    if ret.len() > 0 {
        lemma_markers_none_kept(ret.drop_last(), used);
    }
}

/// A struct that stores no field (a unit struct, or one whose fields are all
/// skipped) keeps none of its generic parameters and needs no marker.
pub proof fn lemma_struct_storing_nothing_keeps_no_generics(item: ItemModel, ir: ItemIr)
    requires
        ir_matches(item, ir),
        item.data is Struct,
        num_stored(group_views(ir.groups@)[0]) == 0,
    ensures
        forall|i: int| 0 <= i < ir.plan.retention@.len() ==> ir.plan.retention@[i] == Retention::Dropped,
        ir.markers@.len() == 0,
{
    let params = item.generics.params@;
    let fields = item.data->Struct_fields@;
    lemma_nothing_stored_names_nothing(fields, params, None);
    let used = spec_analysis(item)->Ok_0.2;
    assert(used.len() == 0);
    let empty = Set::<int>::empty();
    assert(listed(used) =~= empty);
    let pd = spec_param_dep_lists(params);
    let qd = spec_pred_dep_lists(params, where_view(item.generics.where_clause).unwrap_or(Seq::empty()));
    assert(closed(pd, qd, empty)) by {
        assert forall|p: int| 0 <= p < qd.len() && hits(#[trigger] qd[p], empty) implies false by {}
    }
    let r = retained_set(ir.plan.retention@);
    assert(r.subset_of(empty));
    assert forall|i: int| 0 <= i < ir.plan.retention@.len() implies ir.plan.retention@[i] == Retention::Dropped by {
        if ir.plan.retention@[i] != Retention::Dropped {
            assert(r.contains(i));
        }
    }
    lemma_markers_none_kept(ir.plan.retention@, used);
}


/// Every field group of a successful analysis has one IR per field, and there
/// is one group per field list of the item.
pub proof fn lemma_groups_align(item: ItemModel)
    requires
        spec_analysis(item) is Ok,
    ensures
        ({
            let gs = spec_analysis(item)->Ok_0.1;
            let fs = crate::bounds::item_field_groups(item);
            &&& gs.len() == fs.len()
            &&& forall|g: int| 0 <= g < gs.len() ==> (#[trigger] gs[g]).len() == fs[g].len()
        }),
{
    let params = item.generics.params@;
    match item.data {
        ItemData::Struct { fields, .. } => {
            lemma_fields_len(fields@, params, None);
        },
        ItemData::Enum { variants } => {
            lemma_variants_len(variants@, params);
            let fs = crate::bounds::item_field_groups(item);
            let gs = spec_analysis(item)->Ok_0.1;
            assert forall|g: int| 0 <= g < gs.len() implies (#[trigger] gs[g]).len() == fs[g].len() by {
                assert(fs[g] == variants@[g].fields@);
            }
        },
        ItemData::Union => {},
    }
}

proof fn lemma_fields_len(fields: Seq<FieldModel>, params: Seq<GenericParamModel>, variant: Option<usize>)
    requires
        spec_fields_ir(fields, params, variant) is Ok,
    ensures
        spec_fields_ir(fields, params, variant)->Ok_0.0.len() == fields.len(),
    decreases fields.len(),
{
    if fields.len() > 0 {
        lemma_fields_len(fields.drop_last(), params, variant);
    }
}

proof fn lemma_variants_len(variants: Seq<VariantModel>, params: Seq<GenericParamModel>)
    requires
        spec_variants_ir(variants, params) is Ok,
    ensures
        spec_variants_ir(variants, params)->Ok_0.0.len() == variants.len(),
        forall|g: int| 0 <= g < variants.len() ==> (#[trigger] spec_variants_ir(variants, params)->Ok_0.0[g]).len() == variants[g].fields@.len(),
    decreases variants.len(),
{
    if variants.len() > 0 {
        let p = variants.drop_last();
        lemma_variants_len(p, params);
        let n = variants.len() - 1;
        lemma_fields_len(variants[n].fields@, params, Some(n as usize));
        let gs = spec_variants_ir(variants, params)->Ok_0.0;
        let pg = spec_variants_ir(p, params)->Ok_0.0;
        assert forall|g: int| 0 <= g < variants.len() implies (#[trigger] gs[g]).len() == variants[g].fields@.len() by {
            if g < n {
                assert(gs[g] == pg[g]);
                assert(p[g] == variants[g]);
            }
        }
    }
}

/// The fields of group `g` of the item.
pub fn group_fields(item: &ItemModel, g: usize) -> (r: &Vec<FieldModel>)
    requires
        0 <= g < crate::bounds::item_field_groups(*item).len(),
    ensures
        r@ == crate::bounds::item_field_groups(*item)[g as int],
{
    match &item.data {
        ItemData::Struct { fields, .. } => fields,
        ItemData::Enum { variants } => &variants[g].fields,
        ItemData::Union => vstd::pervasive::unreached(),
    }
}


/// Marker parameters are parameters of the item.
pub proof fn lemma_markers_in_range(ret: Seq<Retention>, used: Seq<usize>)
    ensures
        forall|k: int| 0 <= k < spec_markers(ret, used).len() ==> spec_markers(ret, used)[k] < ret.len(),
    decreases ret.len(),
{
    if ret.len() > 0 {
        lemma_markers_in_range(ret.drop_last(), used);
        let prev = spec_markers(ret.drop_last(), used);
        let cur = spec_markers(ret, used);
        assert forall|k: int| 0 <= k < cur.len() implies cur[k] < ret.len() by {
            if k < prev.len() {
                assert(cur[k] == prev[k]);
            }
        }
    }
}

} // verus!
