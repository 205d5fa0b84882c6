//! Plans of the memento type declarations.
use vstd::prelude::*;
use crate::bounds::{
    Bound, DeriveSet, MementoTraitSpec, Predicate, build_memento_where_clause, spec_memento_where,
    spec_recall_like_bounds, spec_recallable_params, spec_whole_type_targets, item_trait_spec,
    is_generic_type_param, spec_is_generic_type_param, item_field_groups,
};
use crate::fields::{FieldIr, FieldStrategy};
use crate::generics::{Retention, lookup, spec_lookup};
use crate::ir::{ItemIr, ItemKind, group_views, ir_matches, kept_view, lemma_groups_align, group_fields, spec_analysis, lemma_markers_in_range};
use crate::model::{FieldModel, GenericParamModel, ItemData, ItemModel, ParamKind, Shape, TypeKind, TypeModel, Visibility};
use crate::text::copy_text;

verus! {

/// The type of a stored memento field.
#[derive(Clone, Copy, Debug, PartialEq, Eq, Structural)]
pub enum MementoFieldTy {
    /// The field's own type.
    Same,
    /// `T::Memento` for a field whose type is the type parameter `T` (by position).
    ParamMemento(usize),
    /// `<Ty as Recallable>::Memento` for a field of another type `Ty`.
    TypeMemento,
}

/// A stored field: its position in the source and its memento type.
#[derive(Clone, Copy, Debug, PartialEq, Eq, Structural)]
pub struct StoredField {
    pub field: usize,
    pub ty: MementoFieldTy,
}

/// The memento type of a stored field.
pub open spec fn spec_field_ty(st: FieldStrategy, ty: TypeModel, params: Seq<GenericParamModel>) -> MementoFieldTy {
    if st == FieldStrategy::StoreAsMemento {
        if spec_is_generic_type_param(ty, params) {
            MementoFieldTy::ParamMemento(
                spec_lookup(params, ParamKind::Type, ty.kind->Path_path.segments@[0].ident@)->Some_0,
            )
        } else {
            MementoFieldTy::TypeMemento
        }
    } else {
        MementoFieldTy::Same
    }
}

/// The stored fields of a group, in order.
pub open spec fn spec_stored_fields(fields: Seq<FieldModel>, irs: Seq<FieldIr>, params: Seq<GenericParamModel>) -> Seq<
    StoredField,
>
    decreases fields.len(),
{
    if fields.len() == 0 {
        Seq::empty()
    } else {
        let n = fields.len() - 1;
        let prev = spec_stored_fields(fields.drop_last(), irs, params);
        if irs[n].strategy != FieldStrategy::Skip {
            prev.push(StoredField { field: n as usize, ty: spec_field_ty(irs[n].strategy, fields[n].ty, params) })
        } else {
            prev
        }
    }
}

fn field_ty(st: FieldStrategy, ty: &TypeModel, params: &Vec<GenericParamModel>) -> (r: MementoFieldTy)
    ensures
        r == spec_field_ty(st, *ty, params@),
{
    match st {
        FieldStrategy::StoreAsMemento => {
            if is_generic_type_param(ty, params) {
                match &ty.kind {
                    TypeKind::Path { path, .. } => {
                        match lookup(params, ParamKind::Type, &path.segments[0].ident) {
                            Some(i) => MementoFieldTy::ParamMemento(i),
                            None => MementoFieldTy::TypeMemento,
                        }
                    },
                    TypeKind::Other => MementoFieldTy::TypeMemento,
                }
            } else {
                MementoFieldTy::TypeMemento
            }
        },
        _ => MementoFieldTy::Same,
    }
}

/// The stored fields of a group.
pub fn stored_fields(fields: &Vec<FieldModel>, irs: &Vec<FieldIr>, params: &Vec<GenericParamModel>) -> (r: Vec<
    StoredField,
>)
    requires
        irs@.len() == fields@.len(),
    ensures
        r@ == spec_stored_fields(fields@, irs@, params@),
{
    let mut out: Vec<StoredField> = Vec::new();
    let mut i: usize = 0;
    while i < fields.len()
        invariant
            0 <= i <= fields@.len(),
            irs@.len() == fields@.len(),
            out@ == spec_stored_fields(fields@.take(i as int), irs@, params@),
        decreases fields@.len() - i,
    {
        assert(fields@.take(i + 1).drop_last() == fields@.take(i as int));
        assert(fields@.take(i + 1)[i as int] == fields@[i as int]);
        let st = irs[i].strategy;
        if !st.is_skip() {
            out.push(StoredField { field: i, ty: field_ty(st, &fields[i].ty, params) });
        }
        i = i + 1;
    }
    assert(fields@.take(i as int) == fields@);
    out
}

/// The kept parameters, in order.
pub open spec fn spec_retained_params(ret: Seq<Retention>) -> Seq<usize>
    decreases ret.len(),
{
    if ret.len() == 0 {
        Seq::empty()
    } else {
        let prev = spec_retained_params(ret.drop_last());
        if ret.last() != Retention::Dropped {
            prev.push((ret.len() - 1) as usize)
        } else {
            prev
        }
    }
}

/// The kept parameters, in order: the memento's generic parameters and arguments.
pub fn retained_params(ret: &Vec<Retention>) -> (r: Vec<usize>)
    ensures
        r@ == spec_retained_params(ret@),
{
    let mut out: Vec<usize> = Vec::new();
    let mut i: usize = 0;
    while i < ret.len()
        invariant
            0 <= i <= ret@.len(),
            out@ == spec_retained_params(ret@.take(i as int)),
        decreases ret@.len() - i,
    {
        assert(ret@.take(i + 1).drop_last() == ret@.take(i as int));
        assert(ret@.take(i + 1).last() == ret@[i as int]);
        if ret[i] != Retention::Dropped {
            out.push(i);
        }
        i = i + 1;
    }
    assert(ret@.take(i as int) == ret@);
    out
}

/// The marker parameters that are const parameters (each needs a helper type).
pub open spec fn spec_const_markers(markers: Seq<usize>, params: Seq<GenericParamModel>) -> Seq<usize>
    decreases markers.len(),
{
    if markers.len() == 0 {
        Seq::empty()
    } else {
        let prev = spec_const_markers(markers.drop_last(), params);
        if params[markers.last() as int].kind == ParamKind::Const {
            prev.push(markers.last())
        } else {
            prev
        }
    }
}

fn const_markers(markers: &Vec<usize>, params: &Vec<GenericParamModel>) -> (r: Vec<usize>)
    requires
        forall|k: int| 0 <= k < markers@.len() ==> markers@[k] < params@.len(),
    ensures
        r@ == spec_const_markers(markers@, params@),
{
    let mut out: Vec<usize> = Vec::new();
    let mut i: usize = 0;
    while i < markers.len()
        invariant
            0 <= i <= markers@.len(),
            forall|k: int| 0 <= k < markers@.len() ==> markers@[k] < params@.len(),
            out@ == spec_const_markers(markers@.take(i as int), params@),
        decreases markers@.len() - i,
    {
        assert(markers@.take(i + 1).drop_last() == markers@.take(i as int));
        assert(markers@.take(i + 1).last() == markers@[i as int]);
        if params[markers[i]].kind == ParamKind::Const {
            out.push(markers[i]);
        }
        i = i + 1;
    }
    assert(markers@.take(i as int) == markers@);
    out
}

/// Two visibilities are written the same.
pub open spec fn same_vis(a: Visibility, b: Visibility) -> bool {
    match (a, b) {
        (Visibility::Inherited, Visibility::Inherited) => true,
        (Visibility::Public, Visibility::Public) => true,
        (Visibility::Restricted(x), Visibility::Restricted(y)) => x@ == y@,
        _ => false,
    }
}

/// A copy of a visibility.
pub fn copy_vis(v: &Visibility) -> (r: Visibility)
    ensures
        same_vis(r, *v),
{
    match v {
        Visibility::Inherited => Visibility::Inherited,
        Visibility::Public => Visibility::Public,
        Visibility::Restricted(t) => Visibility::Restricted(copy_text(t)),
    }
}

/// The declaration of a struct memento. Its fields are written without a
/// visibility (they stay private) and carry no serde attributes: serde
/// attributes of the source fields are not forwarded.
pub struct MementoStructPlan {
    /// The memento's visibility: the struct's own.
    pub vis: Visibility,
    /// The derives on the memento.
    pub derives: DeriveSet,
    /// Const marker parameters, each declared a helper type.
    pub const_helpers: Vec<usize>,
    /// The memento's generic parameters (kept parameters, in order).
    pub generics: Vec<usize>,
    /// The memento's where-clause.
    pub where_clause: Option<Vec<Predicate>>,
    /// The memento's shape (the struct's own).
    pub shape: Shape,
    /// The stored fields, in order.
    pub fields: Vec<StoredField>,
    /// Whether a `PhantomData` marker field over the marker parameters follows.
    pub marker: bool,
    /// Whether the marker field is `#[serde(skip, default)]`.
    pub marker_serde_skip: bool,
}

/// The pieces every memento plan shares, as they must be for `item` and `ir`.
pub open spec fn spec_common_decl(
    item: ItemModel,
    ir: ItemIr,
    serde_enabled: bool,
    derives: DeriveSet,
    generics: Seq<usize>,
    where_clause: Option<Seq<Predicate>>,
    marker: bool,
    marker_serde_skip: bool,
) -> bool {
    &&& derives == (DeriveSet { common: !ir.skip_default_derives, deserialize: serde_enabled })
    &&& generics == spec_retained_params(ir.plan.retention@)
    &&& where_clause == spec_memento_where(
        kept_view(ir.plan.kept_preds),
        spec_recall_like_bounds(
            spec_recallable_params(ir.plan.retention@),
            spec_whole_type_targets(item, ir),
            item_trait_spec(ir, serde_enabled),
            Bound::Recallable,
        ),
    )
    &&& marker == (ir.markers@.len() > 0)
    &&& marker_serde_skip == serde_enabled
}

/// An optional vector as an optional sequence.
pub open spec fn opt_preds(o: Option<Vec<Predicate>>) -> Option<Seq<Predicate>> {
    match o {
        Some(v) => Some(v@),
        None => None,
    }
}

/// The plan declares the memento of a struct: the shared pieces, the struct's
/// visibility and shape, and its stored fields in order.
pub open spec fn spec_struct_memento(
    item: ItemModel,
    ir: ItemIr,
    serde_enabled: bool,
    plan: MementoStructPlan,
) -> bool {
    let fields = item.data->Struct_fields@;
    let stored = spec_stored_fields(fields, group_views(ir.groups@)[0], item.generics.params@);
    &&& spec_common_decl(
        item,
        ir,
        serde_enabled,
        plan.derives,
        plan.generics@,
        opt_preds(plan.where_clause),
        plan.marker,
        plan.marker_serde_skip,
    )
    &&& plan.const_helpers@ == spec_const_markers(ir.markers@, item.generics.params@)
    &&& same_vis(plan.vis, item.vis)
    &&& plan.shape == item.data->Struct_shape
    &&& plan.fields@ == stored
}


/// Stored fields name positions of the group.
pub proof fn lemma_stored_in_range(fields: Seq<FieldModel>, irs: Seq<FieldIr>, params: Seq<GenericParamModel>)
    ensures
        forall|k: int| 0 <= k < spec_stored_fields(fields, irs, params).len() ==> (#[trigger] spec_stored_fields(fields, irs, params)[k]).field < fields.len(),
    decreases fields.len(),
{
    if fields.len() > 0 {
        let p = fields.drop_last();
        lemma_stored_in_range(p, irs, params);
        let prev = spec_stored_fields(p, irs, params);
        let cur = spec_stored_fields(fields, irs, params);
        assert forall|k: int| 0 <= k < cur.len() implies (#[trigger] cur[k]).field < fields.len() by {
            if k < prev.len() {
                assert(cur[k] == prev[k]);
            }
        }
    }
}

/// Plans the memento declaration of a struct.
pub fn gen_memento_struct(item: &ItemModel, ir: &ItemIr, serde_enabled: bool) -> (plan: MementoStructPlan)
    requires
        ir_matches(*item, *ir),
        item.data is Struct,
    ensures
        spec_struct_memento(*item, *ir, serde_enabled, plan),
{
    proof {
        lemma_groups_align(*item);
        lemma_markers_in_range(ir.plan.retention@, spec_analysis(*item)->Ok_0.2);
    }
    let params = &item.generics.params;
    let fields = group_fields(item, 0);
    assert(fields@ == item.data->Struct_fields@);
    let irs = &ir.groups[0];
    assert(irs@ == group_views(ir.groups@)[0]);
    let derives = MementoTraitSpec::new(serde_enabled, ir.skip_default_derives).derive_attr();
    let generics = retained_params(&ir.plan.retention);
    let where_clause = build_memento_where_clause(item, ir, serde_enabled);
    let const_helpers = const_markers(&ir.markers, params);
    let stored = stored_fields(fields, irs, params);
    let shape = match &item.data {
        ItemData::Struct { shape, .. } => *shape,
        _ => vstd::pervasive::unreached(),
    };
    MementoStructPlan {
        vis: copy_vis(&item.vis),
        derives,
        const_helpers,
        generics,
        where_clause,
        shape,
        fields: stored,
        marker: ir.markers.len() > 0,
        marker_serde_skip: serde_enabled,
    }
}

/// A variant of an enum memento.
pub struct MementoVariant {
    /// The source variant, by position.
    pub variant: usize,
    /// Its shape: the source variant's, or unit when it stores nothing.
    pub shape: Shape,
    /// Its stored fields, in order.
    pub fields: Vec<StoredField>,
}

/// The declaration of an enum memento; its variant fields carry no serde
/// attributes.
pub struct MementoEnumPlan {
    /// The memento's visibility: the enum's own.
    pub vis: Visibility,
    pub derives: DeriveSet,
    pub generics: Vec<usize>,
    pub where_clause: Option<Vec<Predicate>>,
    /// One variant per source variant, in order.
    pub variants: Vec<MementoVariant>,
    /// Whether a hidden marker variant over the marker parameters follows.
    pub marker: bool,
    /// Whether the marker variant is `#[serde(skip)]`.
    pub marker_serde_skip: bool,
}

/// The plan declares the memento of an enum: the shared pieces, and per source
/// variant a variant with its stored fields (unit when it stores none).
pub open spec fn spec_enum_memento(item: ItemModel, ir: ItemIr, serde_enabled: bool, plan: MementoEnumPlan) -> bool {
    let variants = item.data->Enum_variants@;
    &&& spec_common_decl(
        item,
        ir,
        serde_enabled,
        plan.derives,
        plan.generics@,
        opt_preds(plan.where_clause),
        plan.marker,
        plan.marker_serde_skip,
    )
    &&& same_vis(plan.vis, item.vis)
    &&& plan.variants@.len() == variants.len()
    &&& forall|g: int| 0 <= g < variants.len() ==> {
        let stored = spec_stored_fields(variants[g].fields@, group_views(ir.groups@)[g], item.generics.params@);
        &&& (#[trigger] plan.variants@[g]).variant == g
        &&& plan.variants@[g].fields@ == stored
        &&& plan.variants@[g].shape == (if stored.len() == 0 {
            Shape::Unit
        } else {
            variants[g].shape
        })
    }
}

/// Plans the memento declaration of an enum.
pub fn gen_memento_enum(item: &ItemModel, ir: &ItemIr, serde_enabled: bool) -> (plan: MementoEnumPlan)
    requires
        ir_matches(*item, *ir),
        item.data is Enum,
    ensures
        spec_enum_memento(*item, *ir, serde_enabled, plan),
{
    proof { lemma_groups_align(*item); }
    let params = &item.generics.params;
    let variants = match &item.data {
        ItemData::Enum { variants } => variants,
        _ => vstd::pervasive::unreached(),
    };
    let derives = MementoTraitSpec::new(serde_enabled, ir.skip_default_derives).derive_attr();
    let generics = retained_params(&ir.plan.retention);
    let where_clause = build_memento_where_clause(item, ir, serde_enabled);
    let ghost igs = group_views(ir.groups@);
    let mut out: Vec<MementoVariant> = Vec::new();
    let mut g: usize = 0;
    while g < variants.len()
        invariant
            0 <= g <= variants@.len(),
            item.data == (ItemData::Enum { variants: *variants }),
            igs == group_views(ir.groups@),
            igs.len() == variants@.len(),
            ir.groups@.len() == igs.len(),
            forall|h: int| 0 <= h < igs.len() ==> (#[trigger] igs[h]).len() == variants@[h].fields@.len(),
            out@.len() == g,
            forall|h: int| 0 <= h < g ==> {
                let stored = spec_stored_fields(variants@[h].fields@, igs[h], params@);
                &&& (#[trigger] out@[h]).variant == h
                &&& out@[h].fields@ == stored
                &&& out@[h].shape == (if stored.len() == 0 {
                    Shape::Unit
                } else {
                    variants@[h].shape
                })
            },
        decreases variants@.len() - g,
    {
        assert(item_field_groups(*item)[g as int] == variants@[g as int].fields@);
        let irs = &ir.groups[g];
        assert(irs@ == igs[g as int]);
        let v = &variants[g];
        let stored = stored_fields(&v.fields, irs, params);
        let shape = if stored.len() == 0 {
            Shape::Unit
        } else {
            v.shape
        };
        out.push(MementoVariant { variant: g, shape, fields: stored });
        g = g + 1;
    }
    MementoEnumPlan {
        vis: copy_vis(&item.vis),
        derives,
        generics,
        where_clause,
        variants: out,
        marker: ir.markers.len() > 0,
        marker_serde_skip: serde_enabled,
    }
}

} // verus!
