//! The three macros, as plans: `#[derive(Recallable)]`, `#[derive(Recall)]` and
//! `#[recallable_model]`.
use vstd::prelude::*;
use crate::bounds::item_field_groups;
use crate::diag::{Diagnostic, ErrorKind, Site, diag};
use crate::impls::{
    EnumRecallPlan, FromEnumPlan, FromStructPlan, RecallablePlan, StructRecallPlan, ensure_model_derive_allowed,
    ensure_recall_derive_allowed, first_manual, gen_enum_from_impl, gen_enum_recall_impl, gen_recallable_impl,
    gen_struct_from_impl, gen_struct_recall_impl, spec_manual_only_field,
};
use crate::ir::{ItemIr, ItemKind, analyze_item, group_views, ir_matches, spec_analysis, lemma_groups_align, group_fields};
use crate::memento::{MementoEnumPlan, MementoStructPlan, gen_memento_enum, gen_memento_struct};
use crate::model::{FieldModel, ItemData, ItemModel};
use crate::model_macro::{
    SerdeSkip, SourceItemKind, check_no_serialize_derive, parse_model_item, serde_skip_attrs_to_add,
    spec_check_no_serialize_derive, spec_serde_skip_attrs, validate_model_attr,
};
use crate::text::copy_text;
use crate::prefix::lemma_err_prefix;

verus! {

/// The name of the memento type: the item's name followed by `Memento`.
pub fn memento_name(name: &String) -> (r: String)
    ensures
        r@ == name@ + "Memento"@,
{
    let mut r = copy_text(name);
    r.append("Memento");
    r
}

/// What looking up the `recallable` dependency in the calling crate's
/// manifest gave.
pub enum CrateLookup {
    /// The macros expand inside the `recallable` crate itself.
    Itself,
    /// The dependency is known under this name.
    Renamed(String),
    /// The lookup failed.
    Failed,
}

/// The name by which generated code reaches the `recallable` crate, as
/// `::name`: a renamed dependency's name, and `recallable` otherwise, inside
/// the crate itself too (doctests compile as outside crates, where `crate`
/// would name the doctest).
pub fn crate_path_name(found: &CrateLookup) -> (r: String)
    ensures
        r@ == (match found {
            CrateLookup::Renamed(n) => n@,
            _ => "recallable"@,
        }),
{
    match found {
        CrateLookup::Renamed(n) => copy_text(n),
        _ => "recallable".to_owned(),
    }
}

/// The first field that is not assignment-only, by the item's own analysis.
pub open spec fn spec_item_manual_only(item: ItemModel) -> Option<(usize, usize)> {
    first_manual(item_field_groups(item), spec_analysis(item)->Ok_0.1)
}

proof fn lemma_manual_only_same(item: ItemModel, ir: ItemIr)
    requires
        ir_matches(item, ir),
    ensures
        spec_manual_only_field(item, ir) == spec_item_manual_only(item),
{
}

/// The input of `#[derive(Recall)]`, analyzed: an enum must have only
/// assignment-only fields.
pub fn analyze_recall_input(item: &ItemModel) -> (r: Result<ItemIr, Vec<Diagnostic>>)
    ensures
        match spec_analysis(*item) {
            Err(es) => r is Err && r->Err_0@ == es,
            Ok((kind, _, _, _, _)) => if kind == ItemKind::Enum && spec_item_manual_only(*item) is Some {
                let (g, f) = spec_item_manual_only(*item)->Some_0;
                r is Err && r->Err_0@ == seq![
                    Diagnostic {
                        kind: ErrorKind::EnumRecallManualOnly,
                        site: Site::Field { variant: Some(g), field: f },
                    },
                ]
            } else {
                r is Ok && ir_matches(*item, r->Ok_0)
            },
        },
{
    let ir = analyze_item(item)?;
    proof { lemma_manual_only_same(*item, ir); }
    if ir.kind == ItemKind::Enum {
        match ensure_recall_derive_allowed(item, &ir) {
            Ok(()) => {},
            Err(d) => {
                let mut es: Vec<Diagnostic> = Vec::new();
                es.push(d);
                assert(es@ =~= seq![d]);
                return Err(es);
            },
        }
    }
    Ok(ir)
}

/// The input of `#[recallable_model]`, analyzed: an enum must have only
/// assignment-only fields.
pub fn analyze_model_input(item: &ItemModel) -> (r: Result<ItemIr, Vec<Diagnostic>>)
    ensures
        match spec_analysis(*item) {
            Err(es) => r is Err && r->Err_0@ == es,
            Ok((kind, _, _, _, _)) => if kind == ItemKind::Enum && spec_item_manual_only(*item) is Some {
                r is Err && r->Err_0@ == seq![
                    Diagnostic { kind: ErrorKind::EnumModelManualOnly, site: Site::ItemName },
                ]
            } else {
                r is Ok && ir_matches(*item, r->Ok_0)
            },
        },
{
    let ir = analyze_item(item)?;
    proof { lemma_manual_only_same(*item, ir); }
    if ir.kind == ItemKind::Enum {
        match ensure_model_derive_allowed(item, &ir) {
            Ok(()) => {},
            Err(d) => {
                let mut es: Vec<Diagnostic> = Vec::new();
                es.push(d);
                assert(es@ =~= seq![d]);
                return Err(es);
            },
        }
    }
    Ok(ir)
}

/// The memento declaration.
pub enum MementoPlan {
    Struct(MementoStructPlan),
    Enum(MementoEnumPlan),
}

/// The `From<Item>` impl for the memento.
pub enum FromPlan {
    Struct(FromStructPlan),
    Enum(FromEnumPlan),
}

/// Everything `#[derive(Recallable)]` generates.
pub struct RecallableDerive {
    pub ir: ItemIr,
    pub memento: MementoPlan,
    pub recallable: RecallablePlan,
    /// Present when `From` impls are enabled.
    pub from: Option<FromPlan>,
}

/// Plans `#[derive(Recallable)]`: the memento declaration (serde attributes
/// of the source are not forwarded to it), the
/// `Recallable` impl and, with `impl_from`, the `From` impl.
pub fn derive_recallable(item: &ItemModel, serde_enabled: bool, impl_from: bool) -> (r: Result<
    RecallableDerive,
    Vec<Diagnostic>,
>)
    ensures
        match spec_analysis(*item) {
            Err(es) => r is Err && r->Err_0@ == es,
            Ok(_) => r is Ok && ir_matches(*item, r->Ok_0.ir) && (r->Ok_0.from is Some <==> impl_from),
        },
        r matches Ok(d) ==> match d.memento {
            MementoPlan::Struct(p) => item.data is Struct && crate::memento::spec_struct_memento(
                *item,
                d.ir,
                serde_enabled,
                p,
            ),
            MementoPlan::Enum(p) => item.data is Enum && crate::memento::spec_enum_memento(*item, d.ir, serde_enabled, p),
        },
        r matches Ok(d) ==> opt_preds_eq(d.recallable.where_clause, crate::impls::spec_impl_where(*item, d.ir, crate::bounds::Bound::Recallable, serde_enabled)),
        r matches Ok(d) ==> d.recallable.memento_args@ == crate::memento::spec_retained_params(d.ir.plan.retention@),
        r matches Ok(d) ==> (d.recallable.restore is Some <==> (d.ir.kind == ItemKind::Enum
            && spec_manual_only_field(*item, d.ir) is None)),
        r matches Ok(d) ==> (d.recallable.restore matches Some(rp) ==> crate::impls::spec_restore(*item, d.ir, rp)),
        r matches Ok(d) ==> match d.from {
            Some(FromPlan::Struct(p)) => item.data is Struct && opt_preds_eq(
                p.where_clause,
                crate::impls::spec_from_where(*item, d.ir, serde_enabled),
            ) && p.shape == item.data->Struct_shape && p.inits@ == crate::impls::spec_from_inits(
                crate::memento::spec_stored_fields(
                    item.data->Struct_fields@,
                    crate::impls::struct_irs(d.ir),
                    item.generics.params@,
                ),
            ) && p.marker == (d.ir.markers@.len() > 0),
            Some(FromPlan::Enum(p)) => item.data is Enum && opt_preds_eq(
                p.where_clause,
                crate::impls::spec_from_where(*item, d.ir, serde_enabled),
            ) && crate::impls::spec_from_arms(*item, d.ir, p.arms@),
            None => true,
        },
{
    let ir = analyze_item(item)?;
    let memento = match &item.data {
        ItemData::Struct { .. } => {
            MementoPlan::Struct(gen_memento_struct(item, &ir, serde_enabled))
        },
        ItemData::Enum { .. } => MementoPlan::Enum(gen_memento_enum(item, &ir, serde_enabled)),
        ItemData::Union => vstd::pervasive::unreached(),
    };
    let recallable = gen_recallable_impl(item, &ir, serde_enabled);
    let from = if impl_from {
        match &item.data {
            ItemData::Struct { .. } => Some(FromPlan::Struct(gen_struct_from_impl(item, &ir, serde_enabled))),
            ItemData::Enum { .. } => Some(FromPlan::Enum(gen_enum_from_impl(item, &ir, serde_enabled))),
            ItemData::Union => vstd::pervasive::unreached(),
        }
    } else {
        None
    };
    Ok(RecallableDerive { ir, memento, recallable, from })
}

/// An optional vector of predicates holds the given sequence.
pub open spec fn opt_preds_eq(o: Option<Vec<crate::bounds::Predicate>>, s: Option<Seq<crate::bounds::Predicate>>) -> bool {
    crate::memento::opt_preds(o) == s
}

/// The `Recall` impl.
pub enum RecallPlan {
    Struct(StructRecallPlan),
    Enum(EnumRecallPlan),
}

/// Plans `#[derive(Recall)]`.
pub fn derive_recall(item: &ItemModel, serde_enabled: bool) -> (r: Result<(ItemIr, RecallPlan), Vec<Diagnostic>>)
    ensures
        match spec_analysis(*item) {
            Err(es) => r is Err && r->Err_0@ == es,
            Ok((kind, _, _, _, _)) => if kind == ItemKind::Enum && spec_item_manual_only(*item) is Some {
                let (g, f) = spec_item_manual_only(*item)->Some_0;
                r is Err && r->Err_0@ == seq![
                    Diagnostic {
                        kind: ErrorKind::EnumRecallManualOnly,
                        site: Site::Field { variant: Some(g), field: f },
                    },
                ]
            } else {
                r is Ok && ir_matches(*item, r->Ok_0.0)
            },
        },
        r matches Ok((ir, plan)) ==> match plan {
            RecallPlan::Struct(p) => item.data is Struct && opt_preds_eq(
                p.where_clause,
                crate::impls::spec_impl_where(*item, ir, crate::bounds::Bound::Recall, serde_enabled),
            ) && p.statements@ == crate::impls::spec_recall_statements(
                item.data->Struct_fields@,
                crate::impls::struct_irs(ir),
                item.data->Struct_shape,
            ) && p.uses_memento == (p.statements@.len() > 0),
            RecallPlan::Enum(p) => item.data is Enum && opt_preds_eq(
                p.where_clause,
                crate::impls::spec_impl_where(*item, ir, crate::bounds::Bound::Recall, serde_enabled),
            ),
        },
{
    let ir = analyze_recall_input(item)?;
    let plan = match &item.data {
        ItemData::Struct { .. } => RecallPlan::Struct(gen_struct_recall_impl(item, &ir, serde_enabled)),
        ItemData::Enum { .. } => RecallPlan::Enum(gen_enum_recall_impl(item, &ir, serde_enabled)),
        ItemData::Union => vstd::pervasive::unreached(),
    };
    Ok((ir, plan))
}

/// The `#[serde(skip)]` attributes to add, per group and field, or the first
/// diagnostic. Groups are the struct's fields, or each variant's.
pub open spec fn spec_group_skips(fields: Seq<FieldModel>, variant: Option<usize>) -> Result<Seq<Seq<SerdeSkip>>, Diagnostic>
    decreases fields.len(),
{
    if fields.len() == 0 {
        Ok(Seq::empty())
    } else {
        match spec_group_skips(fields.drop_last(), variant) {
            Err(d) => Err(d),
            Ok(s) => match spec_serde_skip_attrs(fields.last().attrs@, variant, (fields.len() - 1) as usize) {
                Err(d) => Err(d),
                Ok(a) => Ok(s.push(a)),
            },
        }
    }
}

/// The skips of every group, in order.
pub open spec fn spec_all_skips(groups: Seq<Seq<FieldModel>>, is_enum: bool) -> Result<Seq<Seq<Seq<SerdeSkip>>>, Diagnostic>
    decreases groups.len(),
{
    if groups.len() == 0 {
        Ok(Seq::empty())
    } else {
        let g = groups.len() - 1;
        match spec_all_skips(groups.drop_last(), is_enum) {
            Err(d) => Err(d),
            Ok(s) => match spec_group_skips(groups[g], if is_enum { Some(g as usize) } else { None }) {
                Err(d) => Err(d),
                Ok(a) => Ok(s.push(a)),
            },
        }
    }
}

/// What `#[recallable_model]` adds to the item.
pub struct ModelPlan {
    /// `serde::Serialize` is added to the `Recallable, Recall` derive.
    pub derive_serialize: bool,
    /// The `#[serde(skip)]` attributes to add, per group and field (none
    /// without serde).
    pub skips: Vec<Vec<Vec<SerdeSkip>>>,
}

/// The nested skip vectors as sequences.
pub open spec fn skips_view(v: Seq<Vec<Vec<SerdeSkip>>>) -> Seq<Seq<Seq<SerdeSkip>>> {
    v.map_values(|g: Vec<Vec<SerdeSkip>>| g@.map_values(|f: Vec<SerdeSkip>| f@))
}

fn one_diag(d: Diagnostic) -> (es: Vec<Diagnostic>)
    ensures
        es@ == seq![d],
{
    let mut es: Vec<Diagnostic> = Vec::new();
    es.push(d);
    assert(es@ =~= seq![d]);
    es
}

fn group_skips(fields: &Vec<FieldModel>, variant: Option<usize>) -> (r: Result<Vec<Vec<SerdeSkip>>, Diagnostic>)
    ensures
        match spec_group_skips(fields@, variant) {
            Ok(s) => r is Ok && r->Ok_0@.map_values(|f: Vec<SerdeSkip>| f@) == s,
            Err(d) => r == Err::<Vec<Vec<SerdeSkip>>, Diagnostic>(d),
        },
{
    let mut out: Vec<Vec<SerdeSkip>> = Vec::new();
    let mut i: usize = 0;
    assert(out@.map_values(|f: Vec<SerdeSkip>| f@) =~= Seq::<Seq<SerdeSkip>>::empty());
    assert(fields@.take(0) =~= Seq::<FieldModel>::empty());
    while i < fields.len()
        invariant
            0 <= i <= fields@.len(),
            spec_group_skips(fields@.take(i as int), variant) == Ok::<Seq<Seq<SerdeSkip>>, Diagnostic>(
                out@.map_values(|f: Vec<SerdeSkip>| f@),
            ),
        decreases fields@.len() - i,
    {
        assert(fields@.take(i + 1).drop_last() == fields@.take(i as int));
        assert(fields@.take(i + 1).last() == fields@[i as int]);
        match serde_skip_attrs_to_add(&fields[i].attrs, variant, i) {
            Err(d) => {
                proof { lemma_err_prefix(|t: Seq<FieldModel>| spec_group_skips(t, variant), fields@, i as int + 1); }
                return Err(d);
            },
            Ok(a) => {
                let ghost prev = out@;
                out.push(a);
                assert(out@.map_values(|f: Vec<SerdeSkip>| f@) =~= prev.map_values(|f: Vec<SerdeSkip>| f@).push(
                    out@[prev.len() as int]@,
                ));
            },
        }
        i = i + 1;
    }
    assert(fields@.take(i as int) == fields@);
    Ok(out)
}

/// Plans `#[recallable_model]`: checks its arguments and item, analyzes the
/// item as the model attribute requires, refuses a manual `Serialize` derive
/// when serde is enabled, and lists the `#[serde(skip)]` attributes to add.
pub fn recallable_model(args_empty: bool, kind: SourceItemKind, item: &ItemModel, serde_enabled: bool) -> (r: Result<
    ModelPlan,
    Vec<Diagnostic>,
>)
    requires
        kind == SourceItemKind::Struct ==> item.data is Struct,
        kind == SourceItemKind::Enum ==> item.data is Enum,
    ensures
        !args_empty ==> r is Err && r->Err_0@ == seq![
            Diagnostic { kind: ErrorKind::ModelTakesNoArguments, site: Site::ModelArguments },
        ],
        args_empty && kind == SourceItemKind::Other ==> r is Err && r->Err_0@ == seq![
            Diagnostic { kind: ErrorKind::ModelNotStructOrEnum, site: Site::Item },
        ],
        args_empty && kind != SourceItemKind::Other ==> match spec_analysis(*item) {
            Err(es) => r is Err && r->Err_0@ == es,
            Ok((k, _, _, _, _)) => if k == ItemKind::Enum && spec_item_manual_only(*item) is Some {
                r is Err && r->Err_0@ == seq![
                    Diagnostic { kind: ErrorKind::EnumModelManualOnly, site: Site::ItemName },
                ]
            } else if serde_enabled && spec_check_no_serialize_derive(item.attrs@) is Err {
                r is Err && r->Err_0@ == seq![spec_check_no_serialize_derive(item.attrs@)->Err_0]
            } else if serde_enabled {
                match spec_all_skips(item_field_groups(*item), k == ItemKind::Enum) {
                    Err(d) => r is Err && r->Err_0@ == seq![d],
                    Ok(s) => r is Ok && r->Ok_0.derive_serialize && skips_view(r->Ok_0.skips@) == s,
                }
            } else {
                r is Ok && !r->Ok_0.derive_serialize && r->Ok_0.skips@.len() == 0
            },
        },
{
    match validate_model_attr(args_empty) {
        Err(d) => return Err(one_diag(d)),
        Ok(()) => {},
    }
    match parse_model_item(kind) {
        Err(d) => return Err(one_diag(d)),
        Ok(()) => {},
    }
    let ir = analyze_model_input(item)?;
    if !serde_enabled {
        return Ok(ModelPlan { derive_serialize: false, skips: Vec::new() });
    }
    match check_no_serialize_derive(&item.attrs) {
        Err(d) => return Err(one_diag(d)),
        Ok(()) => {},
    }
    proof { lemma_groups_align(*item); }
    let is_enum = ir.kind == ItemKind::Enum;
    let ghost fgs = item_field_groups(*item);
    let n = ir.groups.len();
    let mut out: Vec<Vec<Vec<SerdeSkip>>> = Vec::new();
    let mut g: usize = 0;
    assert(skips_view(out@) =~= Seq::<Seq<Seq<SerdeSkip>>>::empty());
    assert(fgs.take(0) =~= Seq::<Seq<FieldModel>>::empty());
    while g < n
        invariant
            0 <= g <= n,
            n == fgs.len(),
            fgs == item_field_groups(*item),
            is_enum == (item.data is Enum),
            item.data is Struct || item.data is Enum,
            args_empty,
            kind != SourceItemKind::Other,
            serde_enabled,
            spec_check_no_serialize_derive(item.attrs@) is Ok,
            spec_analysis(*item) is Ok,
            spec_analysis(*item)->Ok_0.0 == ir.kind,
            !(ir.kind == ItemKind::Enum && spec_item_manual_only(*item) is Some),
            spec_all_skips(fgs.take(g as int), is_enum) == Ok::<Seq<Seq<Seq<SerdeSkip>>>, Diagnostic>(skips_view(out@)),
        decreases n - g,
    {
        assert(fgs.take(g + 1).drop_last() == fgs.take(g as int));
        assert(fgs.take(g + 1)[g as int] == fgs[g as int]);
        let fields = group_fields(item, g);
        let variant = if is_enum {
            Some(g)
        } else {
            None
        };
        match group_skips(fields, variant) {
            Err(d) => {
                proof { lemma_err_prefix(|t: Seq<Seq<FieldModel>>| spec_all_skips(t, is_enum), fgs, g as int + 1); }
                return Err(one_diag(d));
            },
            Ok(a) => {
                let ghost prev = out@;
                out.push(a);
                assert(skips_view(out@) =~= skips_view(prev).push(out@[prev.len() as int]@.map_values(|f: Vec<SerdeSkip>| f@)));
            },
        }
        g = g + 1;
    }
    assert(fgs.take(g as int) == fgs);
    Ok(ModelPlan { derive_serialize: true, skips: out })
}

} // verus!
