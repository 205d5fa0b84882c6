//! How each field is carried into the memento.
use vstd::prelude::*;
use crate::prefix::lemma_err_prefix;
use crate::attrs::{FieldBehavior, determine_field_behavior, has_recallable_skip_attr, spec_field_behavior, spec_is_skip_field, lemma_skip_field_any_site};
use crate::diag::{Diagnostic, ErrorKind, Site, diag};
use crate::generics::{collect_deps, lookup, spec_deps, spec_lookup, lemma_lookup_found};
use crate::model::{FieldModel, GenericParamModel, Mention, ParamKind, TypeKind, TypeModel};
use crate::text::text_is;

verus! {

/// How a field is represented in the memento.
#[derive(Clone, Copy, Debug, PartialEq, Eq, Structural)]
pub enum FieldStrategy {
    /// Left out of the memento.
    Skip,
    /// Stored with its own type and assigned back on recall.
    StoreAsSelf,
    /// Stored as its type's memento and recalled recursively.
    StoreAsMemento,
}

impl FieldStrategy {
    /// Whether the field is left out.
    pub fn is_skip(&self) -> (r: bool)
        ensures
            r == (*self == FieldStrategy::Skip),
    {
        match self {
            FieldStrategy::Skip => true,
            _ => false,
        }
    }
}

/// A field after analysis: its strategy and, when it is stored, its position
/// among the stored fields of its struct or variant.
#[derive(Clone, Copy, Debug, PartialEq, Eq, Structural)]
pub struct FieldIr {
    pub strategy: FieldStrategy,
    pub memento_index: Option<usize>,
}

/// `ty` is a path type whose last segment is `PhantomData` (under any prefix).
pub open spec fn spec_is_phantom_data(ty: TypeModel) -> bool {
    match ty.kind {
        TypeKind::Path { path, .. } => path.segments@.len() > 0 && path.segments@.last().ident@
            == "PhantomData"@,
        TypeKind::Other => false,
    }
}

/// Whether a type is `PhantomData<..>` under any path prefix.
pub fn is_phantom_data(ty: &TypeModel) -> (r: bool)
    ensures
        r == spec_is_phantom_data(*ty),
{
    match &ty.kind {
        TypeKind::Path { path, .. } => {
            let n = path.segments.len();
            n > 0 && text_is(&path.segments[n - 1].ident, "PhantomData")
        },
        TypeKind::Other => false,
    }
}

/// `ty` names a lifetime that is a lifetime parameter of the item.
pub open spec fn spec_uses_item_lifetime(ty: TypeModel, params: Seq<GenericParamModel>) -> bool {
    exists|k: int|
        0 <= k < ty.mentions@.len() && (#[trigger] ty.mentions@[k]) is Lifetime && spec_lookup(
            params,
            ParamKind::Lifetime,
            ty.mentions@[k]->Lifetime_0@,
        ) is Some
}

/// Whether a type borrows one of the item's lifetime parameters.
pub fn field_uses_item_lifetime(ty: &TypeModel, params: &Vec<GenericParamModel>) -> (r: bool)
    ensures
        r == spec_uses_item_lifetime(*ty, params@),
{
    let mut i: usize = 0;
    while i < ty.mentions.len()
        invariant
            0 <= i <= ty.mentions@.len(),
            forall|k: int|
                0 <= k < i ==> !((#[trigger] ty.mentions@[k]) is Lifetime && spec_lookup(
                    params@,
                    ParamKind::Lifetime,
                    ty.mentions@[k]->Lifetime_0@,
                ) is Some),
        decreases ty.mentions@.len() - i,
    {
        match &ty.mentions[i] {
            Mention::Lifetime(l) => {
                if lookup(params, ParamKind::Lifetime, l).is_some() {
                    return true;
                }
            },
            _ => {},
        }
        i = i + 1;
    }
    false
}

/// The type parameter that a `#[recallable]` field's type is, when it is a bare
/// one-segment path naming one; `Err` when the type is not a path type.
pub open spec fn spec_classify_recallable(ty: TypeModel, params: Seq<GenericParamModel>) -> Result<
    Option<usize>,
    (),
> {
    match ty.kind {
        TypeKind::Path { qself, path } => if !qself && path.segments@.len() == 1
            && !path.segments@[0].has_args {
            Ok(spec_lookup(params, ParamKind::Type, path.segments@[0].ident@))
        } else {
            Ok(None)
        },
        TypeKind::Other => Err(()),
    }
}

/// Classifies the type of a `#[recallable]` field.
pub fn classify_recallable_field_type(ty: &TypeModel, params: &Vec<GenericParamModel>) -> (r: Result<
    Option<usize>,
    (),
>)
    ensures
        r == spec_classify_recallable(*ty, params@),
{
    match &ty.kind {
        TypeKind::Path { qself, path } => {
            if !*qself && path.segments.len() == 1 && !path.segments[0].has_args {
                Ok(lookup(params, ParamKind::Type, &path.segments[0].ident))
            } else {
                Ok(None)
            }
        },
        TypeKind::Other => Err(()),
    }
}

/// The outcome for one field: its strategy, the parameters its stored type names,
/// and the type parameter it is when it is a recallable bare type parameter.
pub open spec fn spec_field_outcome(
    field: FieldModel,
    params: Seq<GenericParamModel>,
    variant: Option<usize>,
    index: usize,
) -> Result<(FieldStrategy, Seq<usize>, Option<usize>), Diagnostic> {
    if spec_is_phantom_data(field.ty) && spec_uses_item_lifetime(field.ty, params) {
        Ok((FieldStrategy::Skip, Seq::empty(), None))
    } else {
        match spec_field_behavior(field.attrs@, variant, index) {
            Err(d) => Err(d),
            Ok(FieldBehavior::Skip) => Ok((FieldStrategy::Skip, Seq::empty(), None)),
            Ok(FieldBehavior::Keep) => Ok(
                (FieldStrategy::StoreAsSelf, spec_deps(params, field.ty.mentions@), None),
            ),
            Ok(FieldBehavior::Recall) => match spec_classify_recallable(field.ty, params) {
                Err(()) => Err(
                    Diagnostic {
                        kind: ErrorKind::OnlyPathTypes,
                        site: Site::FieldType { variant, field: index },
                    },
                ),
                Ok(o) => Ok((FieldStrategy::StoreAsMemento, spec_deps(params, field.ty.mentions@), o)),
            },
        }
    }
}

/// The number of stored fields.
pub open spec fn num_stored(irs: Seq<FieldIr>) -> nat
    decreases irs.len(),
{
    if irs.len() == 0 {
        0
    } else {
        num_stored(irs.drop_last()) + (if irs.last().strategy == FieldStrategy::Skip {
            0nat
        } else {
            1nat
        })
    }
}

/// The analysis of a list of fields: each field's IR (stored fields numbered
/// from zero in order), the parameters the stored fields name, and the type
/// parameters that are recallable fields themselves.
pub open spec fn spec_fields_ir(fields: Seq<FieldModel>, params: Seq<GenericParamModel>, variant: Option<usize>) -> Result<
    (Seq<FieldIr>, Seq<usize>, Seq<usize>),
    Diagnostic,
>
    decreases fields.len(),
{
    if fields.len() == 0 {
        Ok((Seq::empty(), Seq::empty(), Seq::empty()))
    } else {
        match spec_fields_ir(fields.drop_last(), params, variant) {
            Err(d) => Err(d),
            Ok((irs, used, rec)) => match spec_field_outcome(
                fields.last(),
                params,
                variant,
                (fields.len() - 1) as usize,
            ) {
                Err(d) => Err(d),
                Ok((st, deps, o)) => {
                    let ir = FieldIr {
                        strategy: st,
                        memento_index: if st == FieldStrategy::Skip {
                            None
                        } else {
                            Some(num_stored(irs) as usize)
                        },
                    };
                    Ok(
                        (
                            irs.push(ir),
                            used + deps,
                            match o {
                                Some(t) => rec.push(t),
                                None => rec,
                            },
                        ),
                    )
                },
            },
        }
    }
}

proof fn lemma_num_stored_le(irs: Seq<FieldIr>)
    ensures
        num_stored(irs) <= irs.len(),
    decreases irs.len(),
{
    if irs.len() > 0 {
        lemma_num_stored_le(irs.drop_last());
    }
}

fn field_outcome(
    field: &FieldModel,
    params: &Vec<GenericParamModel>,
    variant: Option<usize>,
    index: usize,
) -> (r: Result<(FieldStrategy, Vec<usize>, Option<usize>), Diagnostic>)
    ensures
        match spec_field_outcome(*field, params@, variant, index) {
            Ok((st, deps, o)) => r is Ok && r->Ok_0.0 == st && r->Ok_0.1@ == deps && r->Ok_0.2 == o,
            Err(d) => r == Err::<(FieldStrategy, Vec<usize>, Option<usize>), Diagnostic>(d),
        },
{
    if is_phantom_data(&field.ty) && field_uses_item_lifetime(&field.ty, params) {
        return Ok((FieldStrategy::Skip, Vec::new(), None));
    }
    match determine_field_behavior(&field.attrs, variant, index) {
        Err(d) => Err(d),
        Ok(FieldBehavior::Skip) => Ok((FieldStrategy::Skip, Vec::new(), None)),
        Ok(FieldBehavior::Keep) => Ok(
            (FieldStrategy::StoreAsSelf, collect_deps(params, &field.ty.mentions), None),
        ),
        Ok(FieldBehavior::Recall) => {
            let deps = collect_deps(params, &field.ty.mentions);
            match classify_recallable_field_type(&field.ty, params) {
                Err(()) => Err(
                    diag(ErrorKind::OnlyPathTypes, Site::FieldType { variant, field: index }),
                ),
                Ok(o) => Ok((FieldStrategy::StoreAsMemento, deps, o)),
            }
        },
    }
}

/// Analyzes a list of fields (of a struct, or of one variant).
pub fn collect_field_irs(
    fields: &Vec<FieldModel>,
    params: &Vec<GenericParamModel>,
    variant: Option<usize>,
) -> (r: Result<(Vec<FieldIr>, Vec<usize>, Vec<usize>), Diagnostic>)
    ensures
        match spec_fields_ir(fields@, params@, variant) {
            Ok((irs, used, rec)) => r is Ok && r->Ok_0.0@ == irs && r->Ok_0.1@ == used && r->Ok_0.2@
                == rec,
            Err(d) => r == Err::<(Vec<FieldIr>, Vec<usize>, Vec<usize>), Diagnostic>(d),
        },
{
    let mut irs: Vec<FieldIr> = Vec::new();
    let mut used: Vec<usize> = Vec::new();
    let mut rec: Vec<usize> = Vec::new();
    let mut counter: usize = 0;
    let mut i: usize = 0;
    while i < fields.len()
        invariant
            0 <= i <= fields@.len(),
            spec_fields_ir(fields@.take(i as int), params@, variant) == Ok::<
                (Seq<FieldIr>, Seq<usize>, Seq<usize>),
                Diagnostic,
            >((irs@, used@, rec@)),
            counter == num_stored(irs@),
            irs@.len() == i,
        decreases fields@.len() - i,
    {
        assert(fields@.take(i + 1).drop_last() == fields@.take(i as int));
        assert(fields@.take(i + 1).last() == fields@[i as int]);
        match field_outcome(&fields[i], params, variant, i) {
            Err(d) => {
                proof { lemma_err_prefix(|t: Seq<FieldModel>| spec_fields_ir(t, params@, variant), fields@, i as int + 1); }
                return Err(d);
            },
            Ok((st, deps, o)) => {
                let ghost prev = irs@;
                proof { lemma_num_stored_le(prev); }
                let skip = st.is_skip();
                let ir = FieldIr {
                    strategy: st,
                    memento_index: if skip {
                        None
                    } else {
                        Some(counter)
                    },
                };
                irs.push(ir);
                assert(irs@.drop_last() == prev);
                if !skip {
                    counter = counter + 1;
                }
                let mut deps = deps;
                used.append(&mut deps);
                match o {
                    Some(t) => rec.push(t),
                    None => {},
                }
            },
        }
        i = i + 1;
    }
    assert(fields@.take(i as int) == fields@);
    Ok((irs, used, rec))
}

/// The diagnostics for fields that borrow the item's lifetimes: every field that
/// is neither `#[recallable(skip)]` nor `PhantomData` and names a lifetime
/// parameter of the item, in order.
pub open spec fn spec_borrowed_fields(fields: Seq<FieldModel>, params: Seq<GenericParamModel>, variant: Option<usize>) -> Seq<
    Diagnostic,
>
    decreases fields.len(),
{
    if fields.len() == 0 {
        Seq::empty()
    } else {
        let prev = spec_borrowed_fields(fields.drop_last(), params, variant);
        let f = fields.last();
        if !spec_is_skip_field(f.attrs@) && !spec_is_phantom_data(f.ty) && spec_uses_item_lifetime(
            f.ty,
            params,
        ) {
            prev.push(
                Diagnostic {
                    kind: ErrorKind::BorrowedField,
                    site: Site::FieldType { variant, field: (fields.len() - 1) as usize },
                },
            )
        } else {
            prev
        }
    }
}

/// A field that the borrowed-field check reports: not `#[recallable(skip)]`,
/// not `PhantomData`, and naming a lifetime parameter of the item.
pub open spec fn is_borrowed_field(f: FieldModel, params: Seq<GenericParamModel>) -> bool {
    !spec_is_skip_field(f.attrs@) && !spec_is_phantom_data(f.ty) && spec_uses_item_lifetime(f.ty, params)
}

/// The borrowed-field diagnostics point, in order, at exactly the borrowed
/// fields: there are none exactly when no field is borrowed, and each one is a
/// `BorrowedField` at the type of a borrowed field of this group.
pub proof fn lemma_borrowed_fields_direct(fields: Seq<FieldModel>, params: Seq<GenericParamModel>, variant: Option<usize>)
    requires
        fields.len() <= usize::MAX,
    ensures
        spec_borrowed_fields(fields, params, variant).len() == 0 <==> forall|i: int|
            0 <= i < fields.len() ==> !is_borrowed_field(#[trigger] fields[i], params),
        forall|k: int| 0 <= k < spec_borrowed_fields(fields, params, variant).len() ==> {
            let d = #[trigger] spec_borrowed_fields(fields, params, variant)[k];
            &&& d.kind == ErrorKind::BorrowedField
            &&& d.site matches Site::FieldType { variant: v, field: f } && v == variant && f < fields.len()
                && is_borrowed_field(fields[f as int], params)
        },
    decreases fields.len(),
{
    if fields.len() > 0 {
        let p = fields.drop_last();
        lemma_borrowed_fields_direct(p, params, variant);
        assert forall|i: int| 0 <= i < p.len() implies p[i] == fields[i] by {}
        let prev = spec_borrowed_fields(p, params, variant);
        let cur = spec_borrowed_fields(fields, params, variant);
        assert forall|k: int| 0 <= k < cur.len() implies {
            let d = #[trigger] cur[k];
            &&& d.kind == ErrorKind::BorrowedField
            &&& d.site matches Site::FieldType { variant: v, field: f } && v == variant && f < fields.len()
                && is_borrowed_field(fields[f as int], params)
        } by {
            if k < prev.len() {
                assert(cur[k] == prev[k]);
                let f = prev[k].site->FieldType_field;
                assert(p[f as int] == fields[f as int]);
            } else {
                assert(fields[fields.len() - 1] == fields.last());
            }
        }
        if prev.len() == 0 && !is_borrowed_field(fields.last(), params) {
            assert forall|i: int| 0 <= i < fields.len() implies !is_borrowed_field(#[trigger] fields[i], params) by {
                if i < p.len() {
                    assert(p[i] == fields[i]);
                }
            }
        }
        if cur.len() == 0 {
            assert forall|i: int| 0 <= i < fields.len() implies !is_borrowed_field(#[trigger] fields[i], params) by {
                if i < p.len() {
                    assert(p[i] == fields[i]);
                }
            }
        }
    }
}

/// Reports every field that borrows one of the item's lifetimes.
pub fn validate_no_borrowed_fields(
    fields: &Vec<FieldModel>,
    params: &Vec<GenericParamModel>,
    variant: Option<usize>,
) -> (r: Vec<Diagnostic>)
    ensures
        r@ == spec_borrowed_fields(fields@, params@, variant),
{
    let mut errs: Vec<Diagnostic> = Vec::new();
    let mut i: usize = 0;
    while i < fields.len()
        invariant
            0 <= i <= fields@.len(),
            errs@ == spec_borrowed_fields(fields@.take(i as int), params@, variant),
        decreases fields@.len() - i,
    {
        assert(fields@.take(i + 1).drop_last() == fields@.take(i as int));
        assert(fields@.take(i + 1).last() == fields@[i as int]);
        let f = &fields[i];
        let skipped = has_recallable_skip_attr(&f.attrs);
        proof { lemma_skip_field_any_site(f.attrs@); }
        if !skipped && !is_phantom_data(&f.ty) && field_uses_item_lifetime(&f.ty, params) {
            errs.push(diag(ErrorKind::BorrowedField, Site::FieldType { variant, field: i }));
        }
        i = i + 1;
    }
    assert(fields@.take(i as int) == fields@);
    errs
}


/// The stored fields are numbered 0, 1, 2, ... in field order: a stored field's
/// memento index is the number of stored fields before it, and a skipped field
/// has none. So stored fields have distinct indices below the number of stored
/// fields, increasing with their position.
pub proof fn lemma_memento_indices(fields: Seq<FieldModel>, params: Seq<GenericParamModel>, variant: Option<usize>)
    requires
        spec_fields_ir(fields, params, variant) is Ok,
        fields.len() <= usize::MAX,
    ensures
        ({
            let irs = spec_fields_ir(fields, params, variant)->Ok_0.0;
            &&& irs.len() == fields.len()
            &&& forall|i: int| 0 <= i < irs.len() ==> (#[trigger] irs[i]).memento_index == (if irs[i].strategy
                == FieldStrategy::Skip {
                None
            } else {
                Some(num_stored(irs.take(i)) as usize)
            })
            &&& forall|i: int, j: int| 0 <= i < j < irs.len() && irs[i].strategy != FieldStrategy::Skip
                && irs[j].strategy != FieldStrategy::Skip ==> (#[trigger] irs[i]).memento_index->Some_0 < (#[trigger] irs[j]).memento_index->Some_0
            &&& forall|i: int| 0 <= i < irs.len() && irs[i].strategy != FieldStrategy::Skip ==> (#[trigger] irs[i]).memento_index->Some_0 < num_stored(irs)
        }),
    decreases fields.len(),
{
    if fields.len() > 0 {
        let p = fields.drop_last();
        lemma_memento_indices(p, params, variant);
        let prev = spec_fields_ir(p, params, variant)->Ok_0.0;
        let irs = spec_fields_ir(fields, params, variant)->Ok_0.0;
        assert(irs.drop_last() == prev);
        assert forall|i: int| 0 <= i < irs.len() implies (#[trigger] irs[i]).memento_index == (if irs[i].strategy
            == FieldStrategy::Skip {
            None
        } else {
            Some(num_stored(irs.take(i)) as usize)
        }) by {
            if i < prev.len() {
                assert(irs[i] == prev[i]);
                assert(irs.take(i) == prev.take(i));
            } else {
                assert(irs.take(i) == prev);
            }
        }
        assert forall|i: int| 0 <= i <= irs.len() implies num_stored(irs.take(i)) <= num_stored(irs) by {
            lemma_num_stored_prefix(irs, i);
        }
        assert forall|i: int, j: int| 0 <= i < j < irs.len() && irs[i].strategy != FieldStrategy::Skip
            && irs[j].strategy != FieldStrategy::Skip implies (#[trigger] irs[i]).memento_index->Some_0 < (#[trigger] irs[j]).memento_index->Some_0 by {
            lemma_num_stored_prefix(irs.take(j), i + 1);
            assert(irs.take(j).take(i + 1) == irs.take(i + 1));
            assert(irs.take(i + 1).drop_last() == irs.take(i));
            lemma_num_stored_le(irs.take(j));
            lemma_num_stored_le(irs);
        }
        assert forall|i: int| 0 <= i < irs.len() && irs[i].strategy != FieldStrategy::Skip implies (#[trigger] irs[i]).memento_index->Some_0 < num_stored(irs) by {
            lemma_num_stored_prefix(irs, i + 1);
            assert(irs.take(i + 1).drop_last() == irs.take(i));
            lemma_num_stored_le(irs);
        }
    }
}

/// Counting stored fields over a prefix never exceeds the whole.
proof fn lemma_num_stored_prefix(irs: Seq<FieldIr>, n: int)
    requires
        0 <= n <= irs.len(),
    ensures
        num_stored(irs.take(n)) <= num_stored(irs),
    decreases irs.len() - n,
{
    if n < irs.len() {
        assert(irs.take(n + 1).drop_last() == irs.take(n));
        lemma_num_stored_prefix(irs, n + 1);
    } else {
        assert(irs.take(n) == irs);
    }
}

/// When no field is stored, the stored fields name no generic parameter.
pub proof fn lemma_nothing_stored_names_nothing(fields: Seq<FieldModel>, params: Seq<GenericParamModel>, variant: Option<usize>)
    requires
        spec_fields_ir(fields, params, variant) is Ok,
        num_stored(spec_fields_ir(fields, params, variant)->Ok_0.0) == 0,
    ensures
        spec_fields_ir(fields, params, variant)->Ok_0.1.len() == 0,
    decreases fields.len(),
{
    if fields.len() > 0 {
        let p = fields.drop_last();
        let irs = spec_fields_ir(fields, params, variant)->Ok_0.0;
        assert(irs.drop_last() == spec_fields_ir(p, params, variant)->Ok_0.0);
        lemma_nothing_stored_names_nothing(p, params, variant);
    }
}

} // verus!
