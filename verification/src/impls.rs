//! Plans of the generated `Recallable`, `Recall` and `From` impls.
use vstd::prelude::*;
use crate::bounds::{
    Bound, Predicate, collect_from_bounds_with_spec, collect_recall_like_bounds, extend_where_clause,
    item_trait_spec, item_where_len, recallable_params, spec_extend_where, spec_from_bounds,
    spec_recall_like_bounds, spec_recallable_params, spec_whole_type_targets, whole_type_bound_targets,
    MementoTraitSpec, item_field_groups,
};
use crate::diag::{Diagnostic, ErrorKind, Site, diag};
use crate::fields::{FieldIr, FieldStrategy, is_phantom_data, spec_is_phantom_data, num_stored, spec_fields_ir, lemma_memento_indices};
use crate::model::GenericParamModel;
use crate::memento::{MementoFieldTy, spec_field_ty};
use crate::ir::{ItemIr, ItemKind, group_views, ir_matches, lemma_groups_align, group_fields, spec_analysis};
use crate::memento::{
    StoredField, opt_preds, retained_params, spec_retained_params, spec_stored_fields, stored_fields,
    lemma_stored_in_range,
};
use crate::model::{FieldModel, ItemData, ItemModel, Shape};

verus! {

/// A field is not assignment-only: it is recalled recursively, or it is
/// skipped without being a `PhantomData` marker.
pub open spec fn is_manual_field(f: FieldModel, ir: FieldIr) -> bool {
    ir.strategy == FieldStrategy::StoreAsMemento || (ir.strategy == FieldStrategy::Skip
        && !spec_is_phantom_data(f.ty))
}

/// The first field of a group that is not assignment-only.
pub open spec fn first_manual_in(fields: Seq<FieldModel>, irs: Seq<FieldIr>) -> Option<usize>
    decreases fields.len(),
{
    if fields.len() == 0 {
        None
    } else {
        let n = fields.len() - 1;
        match first_manual_in(fields.drop_last(), irs) {
            Some(i) => Some(i),
            None => if is_manual_field(fields[n], irs[n]) {
                Some(n as usize)
            } else {
                None
            },
        }
    }
}

/// The first field (group, position) of the item that is not assignment-only.
pub open spec fn first_manual(groups: Seq<Seq<FieldModel>>, irs: Seq<Seq<FieldIr>>) -> Option<(usize, usize)>
    decreases groups.len(),
{
    if groups.len() == 0 {
        None
    } else {
        let n = groups.len() - 1;
        match first_manual(groups.drop_last(), irs) {
            Some(p) => Some(p),
            None => match first_manual_in(groups[n], irs[n]) {
                Some(f) => Some((n as usize, f)),
                None => None,
            },
        }
    }
}

/// The first field of the analyzed item that is not assignment-only.
pub open spec fn spec_manual_only_field(item: ItemModel, ir: ItemIr) -> Option<(usize, usize)> {
    first_manual(item_field_groups(item), group_views(ir.groups@))
}

/// A group has no field that is not assignment-only exactly when
/// `first_manual_in` finds none, and what it finds is such a field.
pub proof fn lemma_first_manual_in_direct(fields: Seq<FieldModel>, irs: Seq<FieldIr>)
    requires
        fields.len() <= usize::MAX,
    ensures
        first_manual_in(fields, irs) is None <==> forall|i: int| 0 <= i < fields.len() ==> !is_manual_field(
            #[trigger] fields[i],
            irs[i],
        ),
        first_manual_in(fields, irs) matches Some(i) ==> i < fields.len() && is_manual_field(
            fields[i as int],
            irs[i as int],
        ) && forall|j: int| 0 <= j < i ==> !is_manual_field(#[trigger] fields[j], irs[j]),
    decreases fields.len(),
{
    if fields.len() > 0 {
        let p = fields.drop_last();
        lemma_first_manual_in_direct(p, irs);
        let n = fields.len() - 1;
        assert(fields[n] == fields.last());
        match first_manual_in(p, irs) {
            Some(i) => {
                assert(p[i as int] == fields[i as int]);
                assert forall|j: int| 0 <= j < i implies !is_manual_field(#[trigger] fields[j], irs[j]) by {
                    assert(p[j] == fields[j]);
                }
            },
            None => {
                assert forall|j: int| 0 <= j < n implies !is_manual_field(#[trigger] fields[j], irs[j]) by {
                    assert(p[j] == fields[j]);
                    assert(!is_manual_field(p[j], irs[j]));
                }
            },
        }
    }
}

/// The item has no field that is not assignment-only exactly when
/// `first_manual` finds none, and what it finds is such a field.
pub proof fn lemma_first_manual_direct(groups: Seq<Seq<FieldModel>>, irs: Seq<Seq<FieldIr>>)
    requires
        groups.len() <= usize::MAX,
        forall|g: int| 0 <= g < groups.len() ==> (#[trigger] groups[g]).len() <= usize::MAX,
    ensures
        first_manual(groups, irs) is None <==> forall|g: int, i: int|
            0 <= g < groups.len() && 0 <= i < groups[g].len() ==> !is_manual_field(#[trigger] groups[g][i], irs[g][i]),
        first_manual(groups, irs) matches Some((g, i)) ==> g < groups.len() && i < groups[g as int].len()
            && is_manual_field(groups[g as int][i as int], irs[g as int][i as int]),
    decreases groups.len(),
{
    if groups.len() > 0 {
        let n = groups.len() - 1;
        let p = groups.drop_last();
        assert forall|g: int| 0 <= g < p.len() implies (#[trigger] p[g]).len() <= usize::MAX by {
            assert(p[g] == groups[g]);
        }
        lemma_first_manual_direct(p, irs);
        lemma_first_manual_in_direct(groups[n], irs[n]);
        assert(groups[n] == groups.last());
        match first_manual(p, irs) {
            Some((g, i)) => {
                assert(p[g as int] == groups[g as int]);
            },
            None => {
                match first_manual_in(groups[n], irs[n]) {
                    Some(i) => {},
                    None => {
                        assert forall|g: int, i: int| 0 <= g < groups.len() && 0 <= i < groups[g].len() implies !is_manual_field(
                            #[trigger] groups[g][i],
                            irs[g][i],
                        ) by {
                            if g < n {
                                assert(p[g] == groups[g]);
                                assert(!is_manual_field(p[g][i], irs[g][i]));
                            }
                        }
                    },
                }
            },
        }
    }
}

fn first_manual_in_exec(fields: &Vec<FieldModel>, irs: &Vec<FieldIr>) -> (r: Option<usize>)
    requires
        irs@.len() == fields@.len(),
    ensures
        r == first_manual_in(fields@, irs@),
{
    let mut i: usize = 0;
    while i < fields.len()
        invariant
            0 <= i <= fields@.len(),
            irs@.len() == fields@.len(),
            first_manual_in(fields@.take(i as int), irs@) is None,
        decreases fields@.len() - i,
    {
        assert(fields@.take(i + 1).drop_last() == fields@.take(i as int));
        assert(fields@.take(i + 1)[i as int] == fields@[i as int]);
        let st = irs[i].strategy;
        let manual = match st {
            FieldStrategy::StoreAsMemento => true,
            FieldStrategy::Skip => !is_phantom_data(&fields[i].ty),
            FieldStrategy::StoreAsSelf => false,
        };
        if manual {
            proof { lemma_first_manual_in_prefix(fields@, irs@, i as int + 1); }
            return Some(i);
        }
        i = i + 1;
    }
    assert(fields@.take(i as int) == fields@);
    None
}

proof fn lemma_first_manual_in_prefix(fields: Seq<FieldModel>, irs: Seq<FieldIr>, n: int)
    requires
        0 <= n <= fields.len(),
        first_manual_in(fields.take(n), irs) is Some,
    ensures
        first_manual_in(fields, irs) == first_manual_in(fields.take(n), irs),
    decreases fields.len() - n,
{
    if n < fields.len() {
        assert(fields.take(n + 1).drop_last() == fields.take(n));
        lemma_first_manual_in_prefix(fields, irs, n + 1);
    } else {
        assert(fields.take(n) == fields);
    }
}

proof fn lemma_first_manual_prefix(groups: Seq<Seq<FieldModel>>, irs: Seq<Seq<FieldIr>>, n: int)
    requires
        0 <= n <= groups.len(),
        first_manual(groups.take(n), irs) is Some,
    ensures
        first_manual(groups, irs) == first_manual(groups.take(n), irs),
    decreases groups.len() - n,
{
    if n < groups.len() {
        assert(groups.take(n + 1).drop_last() == groups.take(n));
        lemma_first_manual_prefix(groups, irs, n + 1);
    } else {
        assert(groups.take(n) == groups);
    }
}

/// Finds the first field (variant, position) that is not assignment-only.
pub fn manual_only_field(item: &ItemModel, ir: &ItemIr) -> (r: Option<(usize, usize)>)
    requires
        ir_matches(*item, *ir),
    ensures
        r == spec_manual_only_field(*item, *ir),
{
    proof { lemma_groups_align(*item); }
    let ghost fgs = item_field_groups(*item);
    let ghost igs = group_views(ir.groups@);
    let mut g: usize = 0;
    while g < ir.groups.len()
        invariant
            0 <= g <= ir.groups@.len(),
            fgs == item_field_groups(*item),
            igs == group_views(ir.groups@),
            igs.len() == fgs.len(),
            ir.groups@.len() == igs.len(),
            forall|h: int| 0 <= h < igs.len() ==> (#[trigger] igs[h]).len() == fgs[h].len(),
            first_manual(fgs.take(g as int), igs) is None,
        decreases ir.groups@.len() - g,
    {
        assert(fgs.take(g + 1).drop_last() == fgs.take(g as int));
        assert(fgs.take(g + 1)[g as int] == fgs[g as int]);
        let fields = group_fields(item, g);
        let irs = &ir.groups[g];
        assert(irs@ == igs[g as int]);
        match first_manual_in_exec(fields, irs) {
            Some(f) => {
                proof { lemma_first_manual_prefix(fgs, igs, g as int + 1); }
                return Some((g, f));
            },
            None => {},
        }
        g = g + 1;
    }
    assert(fgs.take(g as int) == fgs);
    None
}

/// Whether `Recall` can be derived: every field is assignment-only.
pub fn supports_derived_recall(item: &ItemModel, ir: &ItemIr) -> (r: bool)
    requires
        ir_matches(*item, *ir),
    ensures
        r == (spec_manual_only_field(*item, *ir) is None),
{
    manual_only_field(item, ir).is_none()
}

/// The `Recall` derive refuses an enum with a field that is not assignment-only,
/// pointing at the first such field.
pub fn ensure_recall_derive_allowed(item: &ItemModel, ir: &ItemIr) -> (r: Result<(), Diagnostic>)
    requires
        ir_matches(*item, *ir),
    ensures
        match spec_manual_only_field(*item, *ir) {
            None => r is Ok,
            Some((g, f)) => r == Err::<(), Diagnostic>(
                Diagnostic {
                    kind: ErrorKind::EnumRecallManualOnly,
                    site: Site::Field { variant: Some(g), field: f },
                },
            ),
        },
{
    match manual_only_field(item, ir) {
        None => Ok(()),
        Some((g, f)) => Err(
            diag(ErrorKind::EnumRecallManualOnly, Site::Field { variant: Some(g), field: f }),
        ),
    }
}

/// `#[recallable_model]` refuses an enum with a field that is not
/// assignment-only, pointing at the enum's name.
pub fn ensure_model_derive_allowed(item: &ItemModel, ir: &ItemIr) -> (r: Result<(), Diagnostic>)
    requires
        ir_matches(*item, *ir),
    ensures
        match spec_manual_only_field(*item, *ir) {
            None => r is Ok,
            Some(_) => r == Err::<(), Diagnostic>(
                Diagnostic { kind: ErrorKind::EnumModelManualOnly, site: Site::ItemName },
            ),
        },
{
    match manual_only_field(item, ir) {
        None => Ok(()),
        Some(_) => Err(diag(ErrorKind::EnumModelManualOnly, Site::ItemName)),
    }
}


/// Which member of the memento a statement reads or an initializer writes.
#[derive(Clone, Copy, Debug, PartialEq, Eq, Structural)]
pub enum MementoMember {
    /// The memento field named like source field `f` (named structs).
    Named(usize),
    /// The memento's tuple field at this position (tuple structs).
    Index(usize),
}

/// One statement of a struct's `recall`.
#[derive(Clone, Copy, Debug, PartialEq, Eq, Structural)]
pub struct RecallStatement {
    /// The source field written.
    pub field: usize,
    /// The memento member read.
    pub from: MementoMember,
    /// `Recall::recall(&mut self.f, ..)` rather than `self.f = ..`.
    pub nested: bool,
}

/// The recall statements of a struct: one per stored field, in order, reading
/// the memento member of that field (by name, or by its memento index).
pub open spec fn spec_recall_statements(fields: Seq<FieldModel>, irs: Seq<FieldIr>, shape: Shape) -> Seq<RecallStatement>
    decreases fields.len(),
{
    if fields.len() == 0 {
        Seq::empty()
    } else {
        let n = fields.len() - 1;
        let prev = spec_recall_statements(fields.drop_last(), irs, shape);
        if irs[n].strategy != FieldStrategy::Skip {
            prev.push(
                RecallStatement {
                    field: n as usize,
                    from: if shape == Shape::Named {
                        MementoMember::Named(n as usize)
                    } else {
                        MementoMember::Index(irs[n].memento_index->Some_0)
                    },
                    nested: irs[n].strategy == FieldStrategy::StoreAsMemento,
                },
            )
        } else {
            prev
        }
    }
}

/// The `Recall` impl of a struct.
pub struct StructRecallPlan {
    pub where_clause: Option<Vec<Predicate>>,
    /// Whether the memento parameter is used (`memento`) or not (`_memento`).
    pub uses_memento: bool,
    pub statements: Vec<RecallStatement>,
}

/// The `Recall` impl of an enum: `*self` is rebuilt from the memento.
pub struct EnumRecallPlan {
    pub where_clause: Option<Vec<Predicate>>,
}

/// The item's where-clause extended with its `Recall`-like bounds for `direct`.
pub open spec fn spec_impl_where(item: ItemModel, ir: ItemIr, direct: Bound, serde_enabled: bool) -> Option<Seq<Predicate>> {
    spec_extend_where(
        item_where_len(item),
        spec_recall_like_bounds(
            spec_recallable_params(ir.plan.retention@),
            spec_whole_type_targets(item, ir),
            item_trait_spec(ir, serde_enabled),
            direct,
        ),
    )
}

fn impl_where(item: &ItemModel, ir: &ItemIr, direct: Bound, serde_enabled: bool) -> (r: Option<Vec<Predicate>>)
    requires
        ir_matches(*item, *ir),
    ensures
        opt_preds(r) == spec_impl_where(*item, *ir, direct, serde_enabled),
{
    let extra = collect_recall_like_bounds(item, ir, direct, serde_enabled);
    extend_where_clause(item, extra)
}

/// The struct's fields, analyzed.
pub open spec fn struct_irs(ir: ItemIr) -> Seq<FieldIr> {
    group_views(ir.groups@)[0]
}

/// Plans the `Recall` impl of a struct.
pub fn gen_struct_recall_impl(item: &ItemModel, ir: &ItemIr, serde_enabled: bool) -> (plan: StructRecallPlan)
    requires
        ir_matches(*item, *ir),
        item.data is Struct,
    ensures
        opt_preds(plan.where_clause) == spec_impl_where(*item, *ir, Bound::Recall, serde_enabled),
        plan.statements@ == spec_recall_statements(item.data->Struct_fields@, struct_irs(*ir), item.data->Struct_shape),
        plan.uses_memento == (plan.statements@.len() > 0),
{
    proof { lemma_groups_align(*item); }
    let where_clause = impl_where(item, ir, Bound::Recall, serde_enabled);
    let (fields, shape) = match &item.data {
        ItemData::Struct { fields, shape } => (fields, *shape),
        _ => vstd::pervasive::unreached(),
    };
    let irs = &ir.groups[0];
    assert(irs@ == struct_irs(*ir));
    assert(item_field_groups(*item)[0] == fields@);
    let mut out: Vec<RecallStatement> = Vec::new();
    let mut i: usize = 0;
    while i < fields.len()
        invariant
            0 <= i <= fields@.len(),
            irs@.len() == fields@.len(),
            ir_matches(*item, *ir),
            item.data is Struct,
            fields@ == item.data->Struct_fields@,
            irs@ == struct_irs(*ir),
            out@ == spec_recall_statements(fields@.take(i as int), irs@, shape),
        decreases fields@.len() - i,
    {
        assert(fields@.take(i + 1).drop_last() == fields@.take(i as int));
        assert(fields@.take(i + 1)[i as int] == fields@[i as int]);
        let fir = irs[i];
        if !fir.strategy.is_skip() {
            let from = match shape {
                Shape::Named => MementoMember::Named(i),
                _ => MementoMember::Index(
                    match fir.memento_index {
                        Some(k) => k,
                        None => 0,
                    },
                ),
            };
            proof {
                if shape != Shape::Named {
                    lemma_stored_has_index(*item, *ir, i as int);
                }
            }
            out.push(
                RecallStatement {
                    field: i,
                    from,
                    nested: fir.strategy == FieldStrategy::StoreAsMemento,
                },
            );
        }
        i = i + 1;
    }
    assert(fields@.take(i as int) == fields@);
    let uses_memento = out.len() > 0;
    StructRecallPlan { where_clause, uses_memento, statements: out }
}

/// A stored field of an analyzed struct has a memento index.
proof fn lemma_stored_has_index(item: ItemModel, ir: ItemIr, i: int)
    requires
        ir_matches(item, ir),
        item.data is Struct,
        0 <= i < struct_irs(ir).len(),
        struct_irs(ir)[i].strategy != FieldStrategy::Skip,
        item.data->Struct_fields@.len() <= usize::MAX,
    ensures
        struct_irs(ir)[i].memento_index is Some,
{
    let fields = item.data->Struct_fields@;
    let params = item.generics.params@;
    crate::fields::lemma_memento_indices(fields, params, None);
}

/// Plans the `Recall` impl of an enum.
pub fn gen_enum_recall_impl(item: &ItemModel, ir: &ItemIr, serde_enabled: bool) -> (plan: EnumRecallPlan)
    requires
        ir_matches(*item, *ir),
    ensures
        opt_preds(plan.where_clause) == spec_impl_where(*item, *ir, Bound::Recall, serde_enabled),
{
    EnumRecallPlan { where_clause: impl_where(item, ir, Bound::Recall, serde_enabled) }
}

/// A value rebuilt for a source field from a memento variant.
#[derive(Clone, Copy, Debug, PartialEq, Eq, Structural)]
pub enum RestoreValue {
    /// The binding of the stored field at this position.
    Binding(usize),
    /// `PhantomData`, for a skipped marker field.
    Phantom,
}

/// One arm of the helper that rebuilds an enum from its memento.
pub struct RestoreArm {
    pub variant: usize,
    /// The stored fields bound by the pattern, by position.
    pub bindings: Vec<usize>,
    /// A value per source field, in order.
    pub values: Vec<RestoreValue>,
}

/// The helper that rebuilds an assignment-only enum from its memento.
pub struct RestorePlan {
    pub arms: Vec<RestoreArm>,
    /// Whether an (unreachable) arm for the marker variant follows.
    pub marker_arm: bool,
}

/// The `Recallable` impl.
pub struct RecallablePlan {
    pub where_clause: Option<Vec<Predicate>>,
    /// The memento type's arguments: the kept parameters, in order.
    pub memento_args: Vec<usize>,
    /// For an assignment-only enum, the helper that rebuilds it from its memento.
    pub restore: Option<RestorePlan>,
}

/// The positions of a group's stored fields.
pub open spec fn stored_positions(s: Seq<StoredField>) -> Seq<usize> {
    s.map_values(|f: StoredField| f.field)
}

/// The value rebuilt for each field of an assignment-only variant.
pub open spec fn spec_restore_values(irs: Seq<FieldIr>) -> Seq<RestoreValue> {
    Seq::new(
        irs.len(),
        |f: int| if irs[f].strategy == FieldStrategy::Skip {
            RestoreValue::Phantom
        } else {
            RestoreValue::Binding(f as usize)
        },
    )
}

/// The restore helper's arms match the enum's variants.
pub open spec fn spec_restore(item: ItemModel, ir: ItemIr, r: RestorePlan) -> bool {
    let variants = item.data->Enum_variants@;
    let igs = group_views(ir.groups@);
    &&& r.arms@.len() == variants.len()
    &&& forall|g: int| 0 <= g < variants.len() ==> {
        &&& (#[trigger] r.arms@[g]).variant == g
        &&& r.arms@[g].bindings@ == stored_positions(
            spec_stored_fields(variants[g].fields@, igs[g], item.generics.params@),
        )
        &&& r.arms@[g].values@ == spec_restore_values(igs[g])
    }
    &&& r.marker_arm == (ir.markers@.len() > 0)
}

/// Plans the `Recallable` impl (and, for an enum whose fields are all
/// assignment-only, the helper that rebuilds it from its memento).
pub fn gen_recallable_impl(item: &ItemModel, ir: &ItemIr, serde_enabled: bool) -> (plan: RecallablePlan)
    requires
        ir_matches(*item, *ir),
    ensures
        opt_preds(plan.where_clause) == spec_impl_where(*item, *ir, Bound::Recallable, serde_enabled),
        plan.memento_args@ == spec_retained_params(ir.plan.retention@),
        plan.restore is Some <==> (ir.kind == ItemKind::Enum && spec_manual_only_field(*item, *ir) is None),
        plan.restore matches Some(r) ==> spec_restore(*item, *ir, r),
{
    proof { lemma_groups_align(*item); }
    let where_clause = impl_where(item, ir, Bound::Recallable, serde_enabled);
    let memento_args = retained_params(&ir.plan.retention);
    let restore = match &item.data {
        ItemData::Enum { variants } => {
            assert(ir.kind == ItemKind::Enum);
            if supports_derived_recall(item, ir) {
                Some(gen_restore(item, ir))
            } else {
                None
            }
        },
        _ => {
            assert(ir.kind != ItemKind::Enum);
            None
        },
    };
    RecallablePlan { where_clause, memento_args, restore }
}

fn gen_restore(item: &ItemModel, ir: &ItemIr) -> (r: RestorePlan)
    requires
        ir_matches(*item, *ir),
        item.data is Enum,
    ensures
        spec_restore(*item, *ir, r),
{
    proof { lemma_groups_align(*item); }
    let params = &item.generics.params;
    let variants = match &item.data {
        ItemData::Enum { variants } => variants,
        _ => vstd::pervasive::unreached(),
    };
    let ghost igs = group_views(ir.groups@);
    let mut arms: Vec<RestoreArm> = Vec::new();
    let mut g: usize = 0;
    while g < variants.len()
        invariant
            0 <= g <= variants@.len(),
            item.data == (ItemData::Enum { variants: *variants }),
            igs == group_views(ir.groups@),
            igs.len() == variants@.len(),
            ir.groups@.len() == igs.len(),
            forall|h: int| 0 <= h < igs.len() ==> (#[trigger] igs[h]).len() == variants@[h].fields@.len(),
            arms@.len() == g,
            forall|h: int| 0 <= h < g ==> {
                &&& (#[trigger] arms@[h]).variant == h
                &&& arms@[h].bindings@ == stored_positions(
                    spec_stored_fields(variants@[h].fields@, igs[h], params@),
                )
                &&& arms@[h].values@ == spec_restore_values(igs[h])
            },
        decreases variants@.len() - g,
    {
        assert(item_field_groups(*item)[g as int] == variants@[g as int].fields@);
        let irs = &ir.groups[g];
        assert(irs@ == igs[g as int]);
        let fields = &variants[g].fields;
        let stored = stored_fields(fields, irs, params);
        let mut bindings: Vec<usize> = Vec::new();
        let mut k: usize = 0;
        while k < stored.len()
            invariant
                0 <= k <= stored@.len(),
                bindings@ == stored_positions(stored@.take(k as int)),
            decreases stored@.len() - k,
        {
            bindings.push(stored[k].field);
            assert(stored_positions(stored@.take(k + 1)) =~= stored_positions(stored@.take(k as int)).push(
                stored@[k as int].field,
            ));
            k = k + 1;
        }
        assert(stored@.take(k as int) == stored@);
        let mut values: Vec<RestoreValue> = Vec::new();
        let mut f: usize = 0;
        while f < irs.len()
            invariant
                0 <= f <= irs@.len(),
                values@ == spec_restore_values(irs@).take(f as int),
            decreases irs@.len() - f,
        {
            let v = if irs[f].strategy.is_skip() {
                RestoreValue::Phantom
            } else {
                RestoreValue::Binding(f)
            };
            values.push(v);
            assert(values@ =~= spec_restore_values(irs@).take(f + 1));
            f = f + 1;
        }
        assert(spec_restore_values(irs@).take(f as int) == spec_restore_values(irs@));
        arms.push(RestoreArm { variant: g, bindings, values });
        g = g + 1;
    }
    RestorePlan { arms, marker_arm: ir.markers.len() > 0 }
}


/// One initializer of a memento built from a source value.
#[derive(Clone, Copy, Debug, PartialEq, Eq, Structural)]
pub struct FromInit {
    /// The source field read.
    pub field: usize,
    /// `From::from(value.f)` rather than `value.f`.
    pub nested: bool,
}

/// The initializers of a memento built from a group: one per stored field, in order.
pub open spec fn spec_from_inits(stored: Seq<StoredField>) -> Seq<FromInit> {
    stored.map_values(
        |sf: StoredField| FromInit { field: sf.field, nested: sf.ty != crate::memento::MementoFieldTy::Same },
    )
}

/// The `From<Struct>` impl for the memento.
pub struct FromStructPlan {
    pub where_clause: Option<Vec<Predicate>>,
    pub shape: Shape,
    /// The memento's fields in order, each from its source field.
    pub inits: Vec<FromInit>,
    /// Whether the marker field is initialized with `PhantomData`.
    pub marker: bool,
}

/// How a source field appears in a `From` match pattern.
#[derive(Clone, Copy, Debug, PartialEq, Eq, Structural)]
pub enum FieldPattern {
    /// Bound, to be stored.
    Bind(usize),
    /// Ignored (`_`), being skipped.
    Ignore(usize),
}

/// One arm of the `From<Enum>` match.
pub struct FromArm {
    pub variant: usize,
    /// A pattern per source field, in order.
    pub patterns: Vec<FieldPattern>,
    /// The memento variant's fields in order.
    pub inits: Vec<FromInit>,
}

/// The `From<Enum>` impl for the memento.
pub struct FromEnumPlan {
    pub where_clause: Option<Vec<Predicate>>,
    pub arms: Vec<FromArm>,
}

/// The where-clause of the `From` impl.
pub open spec fn spec_from_where(item: ItemModel, ir: ItemIr, serde_enabled: bool) -> Option<Seq<Predicate>> {
    spec_extend_where(
        item_where_len(item),
        spec_from_bounds(
            spec_recallable_params(ir.plan.retention@),
            spec_whole_type_targets(item, ir),
            item_trait_spec(ir, serde_enabled),
        ),
    )
}

fn from_where(item: &ItemModel, ir: &ItemIr, serde_enabled: bool) -> (r: Option<Vec<Predicate>>)
    requires
        ir_matches(*item, *ir),
    ensures
        opt_preds(r) == spec_from_where(*item, *ir, serde_enabled),
{
    let rp = recallable_params(&ir.plan.retention);
    let wt = whole_type_bound_targets(item, ir);
    let extra = collect_from_bounds_with_spec(&rp, &wt, MementoTraitSpec::new(serde_enabled, ir.skip_default_derives));
    extend_where_clause(item, extra)
}

fn inits_of(stored: &Vec<StoredField>) -> (r: Vec<FromInit>)
    ensures
        r@ == spec_from_inits(stored@),
{
    let mut out: Vec<FromInit> = Vec::new();
    let mut k: usize = 0;
    while k < stored.len()
        invariant
            0 <= k <= stored@.len(),
            out@ == spec_from_inits(stored@.take(k as int)),
        decreases stored@.len() - k,
    {
        let sf = stored[k];
        out.push(FromInit { field: sf.field, nested: sf.ty != crate::memento::MementoFieldTy::Same });
        assert(out@ =~= spec_from_inits(stored@.take(k + 1)));
        k = k + 1;
    }
    assert(stored@.take(k as int) == stored@);
    out
}

/// Plans `From<Struct>` for the struct's memento.
pub fn gen_struct_from_impl(item: &ItemModel, ir: &ItemIr, serde_enabled: bool) -> (plan: FromStructPlan)
    requires
        ir_matches(*item, *ir),
        item.data is Struct,
    ensures
        opt_preds(plan.where_clause) == spec_from_where(*item, *ir, serde_enabled),
        plan.shape == item.data->Struct_shape,
        plan.inits@ == spec_from_inits(
            spec_stored_fields(item.data->Struct_fields@, struct_irs(*ir), item.generics.params@),
        ),
        plan.marker == (ir.markers@.len() > 0),
{
    proof { lemma_groups_align(*item); }
    let where_clause = from_where(item, ir, serde_enabled);
    let (fields, shape) = match &item.data {
        ItemData::Struct { fields, shape } => (fields, *shape),
        _ => vstd::pervasive::unreached(),
    };
    let irs = &ir.groups[0];
    assert(irs@ == struct_irs(*ir));
    assert(item_field_groups(*item)[0] == fields@);
    let stored = stored_fields(fields, irs, &item.generics.params);
    let inits = inits_of(&stored);
    FromStructPlan { where_clause, shape, inits, marker: ir.markers.len() > 0 }
}

/// The pattern of each field of a variant.
pub open spec fn spec_patterns(irs: Seq<FieldIr>) -> Seq<FieldPattern> {
    Seq::new(
        irs.len(),
        |f: int| if irs[f].strategy == FieldStrategy::Skip {
            FieldPattern::Ignore(f as usize)
        } else {
            FieldPattern::Bind(f as usize)
        },
    )
}

/// The arms of `From<Enum>` match the enum's variants.
pub open spec fn spec_from_arms(item: ItemModel, ir: ItemIr, arms: Seq<FromArm>) -> bool {
    let variants = item.data->Enum_variants@;
    let igs = group_views(ir.groups@);
    &&& arms.len() == variants.len()
    &&& forall|g: int| 0 <= g < variants.len() ==> {
        &&& (#[trigger] arms[g]).variant == g
        &&& arms[g].patterns@ == spec_patterns(igs[g])
        &&& arms[g].inits@ == spec_from_inits(spec_stored_fields(variants[g].fields@, igs[g], item.generics.params@))
    }
}

/// Plans `From<Enum>` for the enum's memento.
pub fn gen_enum_from_impl(item: &ItemModel, ir: &ItemIr, serde_enabled: bool) -> (plan: FromEnumPlan)
    requires
        ir_matches(*item, *ir),
        item.data is Enum,
    ensures
        opt_preds(plan.where_clause) == spec_from_where(*item, *ir, serde_enabled),
        spec_from_arms(*item, *ir, plan.arms@),
{
    proof { lemma_groups_align(*item); }
    let where_clause = from_where(item, ir, serde_enabled);
    let params = &item.generics.params;
    let variants = match &item.data {
        ItemData::Enum { variants } => variants,
        _ => vstd::pervasive::unreached(),
    };
    let ghost igs = group_views(ir.groups@);
    let mut arms: Vec<FromArm> = Vec::new();
    let mut g: usize = 0;
    while g < variants.len()
        invariant
            0 <= g <= variants@.len(),
            item.data == (ItemData::Enum { variants: *variants }),
            igs == group_views(ir.groups@),
            igs.len() == variants@.len(),
            ir.groups@.len() == igs.len(),
            forall|h: int| 0 <= h < igs.len() ==> (#[trigger] igs[h]).len() == variants@[h].fields@.len(),
            arms@.len() == g,
            forall|h: int| 0 <= h < g ==> {
                &&& (#[trigger] arms@[h]).variant == h
                &&& arms@[h].patterns@ == spec_patterns(igs[h])
                &&& arms@[h].inits@ == spec_from_inits(spec_stored_fields(variants@[h].fields@, igs[h], params@))
            },
        decreases variants@.len() - g,
    {
        assert(item_field_groups(*item)[g as int] == variants@[g as int].fields@);
        let irs = &ir.groups[g];
        assert(irs@ == igs[g as int]);
        let stored = stored_fields(&variants[g].fields, irs, params);
        let inits = inits_of(&stored);
        let mut patterns: Vec<FieldPattern> = Vec::new();
        let mut f: usize = 0;
        while f < irs.len()
            invariant
                0 <= f <= irs@.len(),
                patterns@ == spec_patterns(irs@).take(f as int),
            decreases irs@.len() - f,
        {
            let pat = if irs[f].strategy.is_skip() {
                FieldPattern::Ignore(f)
            } else {
                FieldPattern::Bind(f)
            };
            patterns.push(pat);
            assert(patterns@ =~= spec_patterns(irs@).take(f + 1));
            f = f + 1;
        }
        assert(spec_patterns(irs@).take(f as int) == spec_patterns(irs@));
        arms.push(FromArm { variant: g, patterns, inits });
        g = g + 1;
    }
    FromEnumPlan { where_clause, arms }
}


/// The memento member that `From` fills for the `k`-th stored field `f`:
/// by the field's name in a named struct, by position otherwise.
pub open spec fn written_member(shape: Shape, k: int, f: usize) -> MementoMember {
    if shape == Shape::Named {
        MementoMember::Named(f)
    } else {
        MementoMember::Index(k as usize)
    }
}

proof fn lemma_stored_count(fields: Seq<FieldModel>, irs: Seq<FieldIr>, params: Seq<GenericParamModel>)
    requires
        irs.len() >= fields.len(),
    ensures
        spec_stored_fields(fields, irs, params).len() == num_stored(irs.take(fields.len() as int)),
    decreases fields.len(),
{
    if fields.len() > 0 {
        let n = fields.len() as int;
        lemma_stored_count(fields.drop_last(), irs, params);
        assert(irs.take(n).drop_last() == irs.take(n - 1));
        assert(irs.take(n).last() == irs[n - 1]);
    } else {
        assert(irs.take(0) =~= Seq::<FieldIr>::empty());
    }
}

proof fn lemma_stored_index_count(fields: Seq<FieldModel>, irs: Seq<FieldIr>, params: Seq<GenericParamModel>)
    requires
        irs.len() >= fields.len(),
        fields.len() <= usize::MAX,
    ensures
        forall|k: int| 0 <= k < spec_stored_fields(fields, irs, params).len() ==> num_stored(
            irs.take((#[trigger] spec_stored_fields(fields, irs, params)[k]).field as int),
        ) == k,
    decreases fields.len(),
{
    if fields.len() > 0 {
        let p = fields.drop_last();
        lemma_stored_index_count(p, irs, params);
        lemma_stored_count(p, irs, params);
        let prev = spec_stored_fields(p, irs, params);
        let st = spec_stored_fields(fields, irs, params);
        assert forall|k: int| 0 <= k < st.len() implies num_stored(irs.take((#[trigger] st[k]).field as int)) == k by {
            if k < prev.len() {
                assert(st[k] == prev[k]);
            }
        }
    }
}

proof fn lemma_stored_props(fields: Seq<FieldModel>, irs: Seq<FieldIr>, params: Seq<GenericParamModel>)
    requires
        irs.len() >= fields.len(),
        fields.len() <= usize::MAX,
    ensures
        forall|k: int| 0 <= k < spec_stored_fields(fields, irs, params).len() ==> {
            let sf = #[trigger] spec_stored_fields(fields, irs, params)[k];
            &&& sf.field < fields.len()
            &&& irs[sf.field as int].strategy != FieldStrategy::Skip
            &&& (sf.ty != MementoFieldTy::Same <==> irs[sf.field as int].strategy == FieldStrategy::StoreAsMemento)
        },
    decreases fields.len(),
{
    if fields.len() > 0 {
        let p = fields.drop_last();
        lemma_stored_props(p, irs, params);
        let prev = spec_stored_fields(p, irs, params);
        let st = spec_stored_fields(fields, irs, params);
        assert forall|k: int| 0 <= k < prev.len() implies st[k] == prev[k] by {}
    }
}

proof fn lemma_stored_increasing(fields: Seq<FieldModel>, irs: Seq<FieldIr>, params: Seq<GenericParamModel>)
    requires
        irs.len() >= fields.len(),
        fields.len() <= usize::MAX,
    ensures
        forall|k: int, j: int| 0 <= k < j < spec_stored_fields(fields, irs, params).len() ==> (#[trigger] spec_stored_fields(
            fields,
            irs,
            params,
        )[k]).field < (#[trigger] spec_stored_fields(fields, irs, params)[j]).field,
    decreases fields.len(),
{
    if fields.len() > 0 {
        let p = fields.drop_last();
        lemma_stored_increasing(p, irs, params);
        lemma_stored_props(p, irs, params);
        let prev = spec_stored_fields(p, irs, params);
        let st = spec_stored_fields(fields, irs, params);
        assert forall|k: int| 0 <= k < prev.len() implies st[k] == prev[k] by {}
    }
}

proof fn lemma_stored_complete(fields: Seq<FieldModel>, irs: Seq<FieldIr>, params: Seq<GenericParamModel>)
    requires
        irs.len() >= fields.len(),
        fields.len() <= usize::MAX,
    ensures
        forall|f: int| 0 <= f < fields.len() && irs[f].strategy != FieldStrategy::Skip ==> exists|k: int|
            0 <= k < spec_stored_fields(fields, irs, params).len() && (#[trigger] spec_stored_fields(fields, irs, params)[k]).field == f,
    decreases fields.len(),
{
    if fields.len() > 0 {
        let p = fields.drop_last();
        let n = p.len() as int;
        lemma_stored_complete(p, irs, params);
        let prev = spec_stored_fields(p, irs, params);
        let st = spec_stored_fields(fields, irs, params);
        assert forall|f: int| 0 <= f < fields.len() && irs[f].strategy != FieldStrategy::Skip implies exists|k: int|
            0 <= k < st.len() && (#[trigger] st[k]).field == f by {
            if f < n {
                let k = choose|k: int| 0 <= k < prev.len() && (#[trigger] prev[k]).field == f;
                assert(st[k] == prev[k]);
            } else {
                assert(st[prev.len() as int].field == f);
            }
        }
    }
}

/// What `recall` does with a memento that `From` built, for a struct: every
/// stored field is written by exactly one statement, which reads the memento
/// member that `From` filled from that same field (assigning it back, or
/// recalling it recursively exactly when `From` converted it into a nested
/// memento); no statement writes a skipped field, so skipped fields keep
/// their values.
pub proof fn lemma_recall_reads_what_from_writes(fields: Seq<FieldModel>, params: Seq<GenericParamModel>, shape: Shape)
    requires
        spec_fields_ir(fields, params, None) is Ok,
        fields.len() <= usize::MAX,
    ensures
        ({
            let irs = spec_fields_ir(fields, params, None)->Ok_0.0;
            let stmts = spec_recall_statements(fields, irs, shape);
            let inits = spec_from_inits(spec_stored_fields(fields, irs, params));
            &&& stmts.len() == inits.len()
            &&& forall|k: int| 0 <= k < stmts.len() ==> (#[trigger] stmts[k]).field == inits[k].field
                && stmts[k].nested == inits[k].nested && stmts[k].from == written_member(shape, k, inits[k].field)
            &&& forall|k: int, j: int| 0 <= k < j < inits.len() ==> (#[trigger] inits[k]).field < (#[trigger] inits[j]).field
            &&& forall|f: int| 0 <= f < fields.len() ==> (irs[f].strategy != FieldStrategy::Skip <==> exists|k: int|
                0 <= k < stmts.len() && (#[trigger] stmts[k]).field == f)
        }),
{
    let irs = spec_fields_ir(fields, params, None)->Ok_0.0;
    lemma_memento_indices(fields, params, None);
    lemma_stored_index_count(fields, irs, params);
    lemma_stored_props(fields, irs, params);
    lemma_stored_increasing(fields, irs, params);
    lemma_stored_complete(fields, irs, params);
    lemma_statements_follow_stored(fields, irs, params, shape);
    let st = spec_stored_fields(fields, irs, params);
    let stmts = spec_recall_statements(fields, irs, shape);
    let inits = spec_from_inits(st);
    assert forall|k: int| 0 <= k < stmts.len() implies (#[trigger] stmts[k]).field == inits[k].field
        && stmts[k].nested == inits[k].nested && stmts[k].from == written_member(shape, k, inits[k].field) by {
        let f = st[k].field as int;
        assert(irs[f] == irs[f]);
        assert(irs[f].memento_index == Some(num_stored(irs.take(f)) as usize));
    }
    assert forall|k: int, j: int| 0 <= k < j < inits.len() implies (#[trigger] inits[k]).field < (#[trigger] inits[j]).field by {
        assert(inits[k].field == st[k].field);
        assert(inits[j].field == st[j].field);
    }
    assert forall|f: int| 0 <= f < fields.len() implies (irs[f].strategy != FieldStrategy::Skip <==> exists|k: int|
        0 <= k < stmts.len() && (#[trigger] stmts[k]).field == f) by {
        if irs[f].strategy != FieldStrategy::Skip {
            let k = choose|k: int| 0 <= k < st.len() && (#[trigger] st[k]).field == f;
            assert(stmts[k].field == f);
        }
        if exists|k: int| 0 <= k < stmts.len() && (#[trigger] stmts[k]).field == f {
            let k = choose|k: int| 0 <= k < stmts.len() && (#[trigger] stmts[k]).field == f;
            assert(st[k].field == f);
        }
    }
}

/// The recall statements follow the stored fields one for one.
proof fn lemma_statements_follow_stored(fields: Seq<FieldModel>, irs: Seq<FieldIr>, params: Seq<GenericParamModel>, shape: Shape)
    requires
        irs.len() >= fields.len(),
        fields.len() <= usize::MAX,
    ensures
        ({
            let st = spec_stored_fields(fields, irs, params);
            let stmts = spec_recall_statements(fields, irs, shape);
            &&& stmts.len() == st.len()
            &&& forall|k: int| 0 <= k < st.len() ==> (#[trigger] stmts[k]) == (RecallStatement {
                field: st[k].field,
                from: if shape == Shape::Named {
                    MementoMember::Named(st[k].field)
                } else {
                    MementoMember::Index(irs[st[k].field as int].memento_index->Some_0)
                },
                nested: irs[st[k].field as int].strategy == FieldStrategy::StoreAsMemento,
            })
        }),
    decreases fields.len(),
{
    if fields.len() > 0 {
        lemma_statements_follow_stored(fields.drop_last(), irs, params, shape);
        let p = fields.drop_last();
        let prev = spec_stored_fields(p, irs, params);
        let st = spec_stored_fields(fields, irs, params);
        let ps = spec_recall_statements(p, irs, shape);
        let stmts = spec_recall_statements(fields, irs, shape);
        assert forall|k: int| 0 <= k < prev.len() implies st[k] == prev[k] && stmts[k] == ps[k] by {}
    }
}


proof fn lemma_no_manual_in(fields: Seq<FieldModel>, irs: Seq<FieldIr>)
    requires
        first_manual_in(fields, irs) is None,
        fields.len() <= usize::MAX,
    ensures
        forall|f: int| 0 <= f < fields.len() ==> !is_manual_field(#[trigger] fields[f], irs[f]),
    decreases fields.len(),
{
    if fields.len() > 0 {
        let p = fields.drop_last();
        lemma_no_manual_in(p, irs);
        assert forall|f: int| 0 <= f < fields.len() implies !is_manual_field(#[trigger] fields[f], irs[f]) by {
            if f < p.len() {
                assert(p[f] == fields[f]);
            }
        }
    }
}

proof fn lemma_no_manual(groups: Seq<Seq<FieldModel>>, irs: Seq<Seq<FieldIr>>)
    requires
        first_manual(groups, irs) is None,
        groups.len() <= usize::MAX,
        forall|g: int| 0 <= g < groups.len() ==> (#[trigger] groups[g]).len() <= usize::MAX,
    ensures
        forall|g: int, f: int| 0 <= g < groups.len() && 0 <= f < groups[g].len() ==> !is_manual_field(
            #[trigger] groups[g][f],
            irs[g][f],
        ),
    decreases groups.len(),
{
    if groups.len() > 0 {
        let p = groups.drop_last();
        let n = p.len() as int;
        lemma_no_manual(p, irs);
        lemma_no_manual_in(groups[n], irs[n]);
        assert forall|g: int, f: int| 0 <= g < groups.len() && 0 <= f < groups[g].len() implies !is_manual_field(
            #[trigger] groups[g][f],
            irs[g][f],
        ) by {
            if g < n {
                assert(p[g] == groups[g]);
            }
        }
    }
}

/// What the restore helper does with a memento that `From` built, for an
/// enum whose fields are all assignment-only: in each variant, `From` binds
/// exactly the stored fields and fills the memento variant with them in order
/// without conversion; the helper binds the memento variant's fields in the
/// same order and rebuilds every stored field from its own binding, and every
/// other field (necessarily a `PhantomData` marker) as `PhantomData`.
pub proof fn lemma_enum_restore_roundtrip(item: ItemModel, ir: ItemIr)
    requires
        ir_matches(item, ir),
        item.data is Enum,
        spec_manual_only_field(item, ir) is None,
    ensures
        ({
            let variants = item.data->Enum_variants@;
            let igs = group_views(ir.groups@);
            forall|g: int| #![trigger igs[g]] 0 <= g < variants.len() ==> {
                let st = spec_stored_fields(variants[g].fields@, igs[g], item.generics.params@);
                let inits = spec_from_inits(st);
                &&& stored_positions(st) == inits.map_values(|i: FromInit| i.field)
                &&& forall|k: int| 0 <= k < inits.len() ==> !(#[trigger] inits[k]).nested
                &&& forall|f: int| 0 <= f < igs[g].len() ==> (#[trigger] spec_restore_values(igs[g])[f]) == (if spec_patterns(
                    igs[g],
                )[f] is Bind {
                    RestoreValue::Binding(f as usize)
                } else {
                    RestoreValue::Phantom
                })
                &&& forall|f: int| 0 <= f < igs[g].len() && #[trigger] spec_restore_values(igs[g])[f]
                    == RestoreValue::Phantom ==> spec_is_phantom_data(variants[g].fields@[f].ty)
            }
        }),
{
    lemma_groups_align(item);
    let variants = item.data->Enum_variants@;
    let igs = group_views(ir.groups@);
    let fgs = item_field_groups(item);
    assert(item.data->Enum_variants.len() == variants.len());
    assert forall|g: int| 0 <= g < fgs.len() implies (#[trigger] fgs[g]).len() <= usize::MAX by {
        assert(fgs[g] == variants[g].fields@);
        assert(variants[g].fields.len() == variants[g].fields@.len());
    }
    lemma_no_manual(fgs, igs);
    assert forall|g: int| #![trigger igs[g]] 0 <= g < variants.len() implies {
        let st = spec_stored_fields(variants[g].fields@, igs[g], item.generics.params@);
        let inits = spec_from_inits(st);
        &&& stored_positions(st) == inits.map_values(|i: FromInit| i.field)
        &&& forall|k: int| 0 <= k < inits.len() ==> !(#[trigger] inits[k]).nested
        &&& forall|f: int| 0 <= f < igs[g].len() ==> (#[trigger] spec_restore_values(igs[g])[f]) == (if spec_patterns(
            igs[g],
        )[f] is Bind {
            RestoreValue::Binding(f as usize)
        } else {
            RestoreValue::Phantom
        })
        &&& forall|f: int| 0 <= f < igs[g].len() && #[trigger] spec_restore_values(igs[g])[f]
            == RestoreValue::Phantom ==> spec_is_phantom_data(variants[g].fields@[f].ty)
    } by {
        let fields = variants[g].fields@;
        assert(fgs[g] == fields);
        let st = spec_stored_fields(fields, igs[g], item.generics.params@);
        let inits = spec_from_inits(st);
        lemma_stored_props(fields, igs[g], item.generics.params@);
        assert(stored_positions(st) =~= inits.map_values(|i: FromInit| i.field));
        assert forall|k: int| 0 <= k < inits.len() implies !(#[trigger] inits[k]).nested by {
            let f = st[k].field as int;
            assert(!is_manual_field(fgs[g][f], igs[g][f]));
        }
        assert forall|f: int| 0 <= f < igs[g].len() && #[trigger] spec_restore_values(igs[g])[f]
            == RestoreValue::Phantom implies spec_is_phantom_data(fields[f].ty) by {
            assert(!is_manual_field(fgs[g][f], igs[g][f]));
        }
    }
}

} // verus!
