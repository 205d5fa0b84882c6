//! Where-predicates that the generated impls and memento carry.
use vstd::prelude::*;
use crate::fields::{FieldIr, FieldStrategy};
use crate::generics::Retention;
use crate::ir::{ItemIr, group_views, ir_matches, spec_analysis, lemma_groups_align, group_fields};
use crate::model::{FieldModel, GenericParamModel, ItemData, ItemModel, ParamKind, TypeKind, TypeModel};
use crate::generics::{lookup, spec_lookup};
use crate::text::{text_eq, copy_text};

verus! {

/// The right-hand side of a generated bound.
#[derive(Clone, Copy, Debug, PartialEq, Eq, Structural)]
pub enum Bound {
    /// The `Recallable` trait.
    Recallable,
    /// The `Recall` trait.
    Recall,
    /// `Clone + Debug + PartialEq`.
    CommonTraits,
    /// No trait at all (the memento's default derives are switched off).
    NoTraits,
    /// `serde::de::DeserializeOwned`.
    DeserializeOwned,
}

/// What a generated bound constrains.
#[derive(Clone, Copy, Debug, PartialEq, Eq, Structural)]
pub enum Target {
    /// A generic type parameter, by position.
    Param(usize),
    /// The type of a field, by group (variant) and field position.
    FieldType { group: usize, field: usize },
}

/// A generated where-predicate.
#[derive(Clone, Copy, Debug, PartialEq, Eq, Structural)]
pub enum Predicate {
    /// `T: B`
    Direct(Target, Bound),
    /// `T::Memento: B` for a parameter, `<Ty as Recallable>::Memento: B` for a type.
    Memento(Target, Bound),
    /// `T::Memento: From<T>`, or the same with `<Ty as Recallable>::Memento`.
    MementoFrom(Target),
    /// A where-predicate of the item itself, by position.
    Item(usize),
}

/// Which derives the memento gets and which bounds nested mementos need.
#[derive(Clone, Copy, Debug, PartialEq, Eq, Structural)]
pub struct MementoTraitSpec {
    pub serde_enabled: bool,
    pub derive_off: bool,
}

/// The derives of a memento.
#[derive(Clone, Copy, Debug, PartialEq, Eq, Structural)]
pub struct DeriveSet {
    /// `Clone`, `Debug`, `PartialEq`.
    pub common: bool,
    /// `serde::Deserialize`.
    pub deserialize: bool,
}

impl MementoTraitSpec {
    /// Builds the spec.
    pub fn new(serde_enabled: bool, derive_off: bool) -> (r: Self)
        ensures
            r == (MementoTraitSpec { serde_enabled, derive_off }),
    {
        MementoTraitSpec { serde_enabled, derive_off }
    }

    /// Whether the memento derives `Clone`, `Debug` and `PartialEq`.
    pub fn has_common_traits(&self) -> (r: bool)
        ensures
            r == !self.derive_off,
    {
        !self.derive_off
    }

    /// The derives: the common ones unless switched off, and `Deserialize` with serde.
    pub fn derive_attr(&self) -> (r: DeriveSet)
        ensures
            r == (DeriveSet { common: !self.derive_off, deserialize: self.serde_enabled }),
    {
        DeriveSet { common: self.has_common_traits(), deserialize: self.serde_enabled }
    }

    /// The bound that nested mementos need for the memento's derives.
    pub fn common_bound(&self) -> (r: Bound)
        ensures
            r == spec_common_bound(*self),
    {
        if self.has_common_traits() {
            Bound::CommonTraits
        } else {
            Bound::NoTraits
        }
    }

    /// The extra bound that nested whole-type mementos need with serde.
    pub fn serde_nested_bound(&self) -> (r: Option<Bound>)
        ensures
            r == (if self.serde_enabled {
                Some(Bound::DeserializeOwned)
            } else {
                None
            }),
    {
        if self.serde_enabled {
            Some(Bound::DeserializeOwned)
        } else {
            None
        }
    }
}

/// `Clone + Debug + PartialEq`, or nothing when the default derives are off.
pub open spec fn spec_common_bound(s: MementoTraitSpec) -> Bound {
    if !s.derive_off {
        Bound::CommonTraits
    } else {
        Bound::NoTraits
    }
}

/// `ty` is a bare type parameter of the item: a one-segment path without
/// qualified self or arguments that names a type parameter.
pub open spec fn spec_is_generic_type_param(ty: TypeModel, params: Seq<GenericParamModel>) -> bool {
    match ty.kind {
        TypeKind::Path { qself, path } => !qself && path.segments@.len() == 1
            && !path.segments@[0].has_args && spec_lookup(
            params,
            ParamKind::Type,
            path.segments@[0].ident@,
        ) is Some,
        TypeKind::Other => false,
    }
}

/// Whether a type is a bare type parameter of the item.
pub fn is_generic_type_param(ty: &TypeModel, params: &Vec<GenericParamModel>) -> (r: bool)
    ensures
        r == spec_is_generic_type_param(*ty, params@),
{
    match &ty.kind {
        TypeKind::Path { qself, path } => {
            !*qself && path.segments.len() == 1 && !path.segments[0].has_args && lookup(
                params,
                ParamKind::Type,
                &path.segments[0].ident,
            ).is_some()
        },
        TypeKind::Other => false,
    }
}

/// The field lists of an item: the struct's fields, or each variant's.
pub open spec fn item_field_groups(item: ItemModel) -> Seq<Seq<FieldModel>> {
    match item.data {
        ItemData::Struct { fields, .. } => seq![fields@],
        ItemData::Enum { variants } => variants@.map_values(|v: crate::model::VariantModel| v.fields@),
        ItemData::Union => Seq::empty(),
    }
}

/// The parameters kept as recallable, in order.
pub open spec fn spec_recallable_params(ret: Seq<Retention>) -> Seq<usize>
    decreases ret.len(),
{
    if ret.len() == 0 {
        Seq::empty()
    } else {
        let prev = spec_recallable_params(ret.drop_last());
        if ret.last() == Retention::RetainedAsRecallable {
            prev.push((ret.len() - 1) as usize)
        } else {
            prev
        }
    }
}

/// The parameters kept as recallable, in order.
pub fn recallable_params(ret: &Vec<Retention>) -> (r: Vec<usize>)
    ensures
        r@ == spec_recallable_params(ret@),
{
    let mut out: Vec<usize> = Vec::new();
    let mut i: usize = 0;
    while i < ret.len()
        invariant
            0 <= i <= ret@.len(),
            out@ == spec_recallable_params(ret@.take(i as int)),
        decreases ret@.len() - i,
    {
        assert(ret@.take(i + 1).drop_last() == ret@.take(i as int));
        assert(ret@.take(i + 1).last() == ret@[i as int]);
        if ret[i] == Retention::RetainedAsRecallable {
            out.push(i);
        }
        i = i + 1;
    }
    assert(ret@.take(i as int) == ret@);
    out
}

/// Candidate whole-type targets of one group, with their type texts, in order:
/// recallable fields whose type is not a bare type parameter.
pub open spec fn spec_group_candidates(
    fields: Seq<FieldModel>,
    irs: Seq<FieldIr>,
    g: usize,
    params: Seq<GenericParamModel>,
) -> Seq<(Target, Seq<char>)>
    decreases fields.len(),
{
    if fields.len() == 0 {
        Seq::empty()
    } else {
        let n = fields.len() - 1;
        let prev = spec_group_candidates(fields.drop_last(), irs, g, params);
        if irs[n].strategy == FieldStrategy::StoreAsMemento && !spec_is_generic_type_param(
            fields[n].ty,
            params,
        ) {
            prev.push((Target::FieldType { group: g, field: n as usize }, fields[n].ty.text@))
        } else {
            prev
        }
    }
}

/// Candidate whole-type targets of all groups, in order.
pub open spec fn spec_candidates(
    groups: Seq<Seq<FieldModel>>,
    irs: Seq<Seq<FieldIr>>,
    params: Seq<GenericParamModel>,
) -> Seq<(Target, Seq<char>)>
    decreases groups.len(),
{
    if groups.len() == 0 {
        Seq::empty()
    } else {
        let n = groups.len() - 1;
        spec_candidates(groups.drop_last(), irs, params) + spec_group_candidates(
            groups[n],
            irs[n],
            n as usize,
            params,
        )
    }
}

/// Whether some entry of `s` has type text `t`.
pub open spec fn has_text(s: Seq<(Target, Seq<char>)>, t: Seq<char>) -> bool {
    exists|k: int| 0 <= k < s.len() && s[k].1 == t
}

/// The candidates with each type text kept at its first occurrence.
pub open spec fn dedup_by_text(s: Seq<(Target, Seq<char>)>) -> Seq<(Target, Seq<char>)>
    decreases s.len(),
{
    if s.len() == 0 {
        Seq::empty()
    } else {
        let d = dedup_by_text(s.drop_last());
        if has_text(d, s.last().1) {
            d
        } else {
            d.push(s.last())
        }
    }
}

/// The whole-type targets of an analyzed item: each distinct recallable field
/// type that is not a bare type parameter, at its first field.
pub open spec fn spec_whole_type_targets(item: ItemModel, ir: ItemIr) -> Seq<Target> {
    dedup_by_text(spec_candidates(item_field_groups(item), group_views(ir.groups@), item.generics.params@)).map_values(
        |c: (Target, Seq<char>)| c.0,
    )
}


/// The pairs of two parallel vectors.
pub open spec fn zip_targets(t: Seq<Target>, s: Seq<String>) -> Seq<(Target, Seq<char>)> {
    Seq::new(t.len(), |k: int| (t[k], s[k]@))
}

fn has_text_exec(seen: &Vec<String>, t: &String, ghost_targets: Ghost<Seq<Target>>) -> (r: bool)
    requires
        ghost_targets@.len() == seen@.len(),
    ensures
        r == has_text(zip_targets(ghost_targets@, seen@), t@),
{
    let mut i: usize = 0;
    while i < seen.len()
        invariant
            0 <= i <= seen@.len(),
            ghost_targets@.len() == seen@.len(),
            forall|k: int| 0 <= k < i ==> seen@[k]@ != t@,
        decreases seen@.len() - i,
    {
        if text_eq(&seen[i], t) {
            assert(zip_targets(ghost_targets@, seen@)[i as int].1 == t@);
            return true;
        }
        i = i + 1;
    }
    false
}

/// The whole-type targets of an analyzed item: each distinct recallable field
/// type that is not a bare type parameter, at its first field (types are the
/// same when their texts are).
pub fn whole_type_bound_targets(item: &ItemModel, ir: &ItemIr) -> (r: Vec<Target>)
    requires
        ir_matches(*item, *ir),
    ensures
        r@ == spec_whole_type_targets(*item, *ir),
{
    proof { lemma_groups_align(*item); }
    let ghost fgs = item_field_groups(*item);
    let ghost igs = group_views(ir.groups@);
    let params = &item.generics.params;
    let mut targets: Vec<Target> = Vec::new();
    let mut seen: Vec<String> = Vec::new();
    let mut g: usize = 0;
    while g < ir.groups.len()
        invariant
            0 <= g <= ir.groups@.len(),
            igs == group_views(ir.groups@),
            fgs == item_field_groups(*item),
            igs.len() == fgs.len(),
            ir.groups@.len() == igs.len(),
            forall|h: int| 0 <= h < igs.len() ==> (#[trigger] igs[h]).len() == fgs[h].len(),
            targets@.len() == seen@.len(),
            zip_targets(targets@, seen@) == dedup_by_text(spec_candidates(fgs.take(g as int), igs, params@)),
        decreases ir.groups@.len() - g,
    {
        let fields = group_fields(item, g);
        let irs = &ir.groups[g];
        assert(irs@ == igs[g as int]);
        let ghost base = spec_candidates(fgs.take(g as int), igs, params@);
        let mut f: usize = 0;
        assert(spec_group_candidates(fields@.take(0), igs[g as int], g, params@) =~= Seq::empty());
        assert(base + Seq::empty() == base);
        while f < fields.len()
            invariant
                0 <= f <= fields@.len(),
                0 <= g < igs.len(),
                fields@ == fgs[g as int],
                irs@ == igs[g as int],
                irs@.len() == fields@.len(),
                targets@.len() == seen@.len(),
                zip_targets(targets@, seen@) == dedup_by_text(
                    base + spec_group_candidates(fields@.take(f as int), igs[g as int], g, params@),
                ),
            decreases fields@.len() - f,
        {
            assert(fields@.take(f + 1).drop_last() == fields@.take(f as int));
            assert(fields@.take(f + 1)[f as int] == fields@[f as int]);
            let ghost before = base + spec_group_candidates(fields@.take(f as int), igs[g as int], g, params@);
            if irs[f].strategy == FieldStrategy::StoreAsMemento && !is_generic_type_param(
                &fields[f].ty,
                params,
            ) {
                let ghost c = (Target::FieldType { group: g, field: f }, fields@[f as int].ty.text@);
                assert(base + spec_group_candidates(fields@.take(f + 1), igs[g as int], g, params@)
                    == before.push(c));
                assert((before.push(c)).drop_last() == before);
                if !has_text_exec(&seen, &fields[f].ty.text, Ghost(targets@)) {
                    let ghost pz = zip_targets(targets@, seen@);
                    targets.push(Target::FieldType { group: g, field: f });
                    seen.push(copy_text(&fields[f].ty.text));
                    assert(zip_targets(targets@, seen@) =~= pz.push(c));
                }
            } else {
                assert(base + spec_group_candidates(fields@.take(f + 1), igs[g as int], g, params@)
                    == before);
            }
            f = f + 1;
        }
        assert(fields@.take(f as int) == fields@);
        assert(fgs.take(g + 1).drop_last() == fgs.take(g as int));
        assert(fgs.take(g + 1)[g as int] == fgs[g as int]);
        g = g + 1;
    }
    assert(fgs.take(g as int) == fgs);
    assert(targets@ =~= zip_targets(targets@, seen@).map_values(|c: (Target, Seq<char>)| c.0));
    targets
}

/// The distinct types of the whole-type targets: no two targets have the same type text.
pub proof fn lemma_dedup_by_text_distinct(s: Seq<(Target, Seq<char>)>)
    ensures
        forall|i: int, j: int| 0 <= i < j < dedup_by_text(s).len() ==> dedup_by_text(s)[i].1 != dedup_by_text(s)[j].1,
    decreases s.len(),
{
    if s.len() > 0 {
        lemma_dedup_by_text_distinct(s.drop_last());
        let d = dedup_by_text(s.drop_last());
        if !has_text(d, s.last().1) {
            let e = d.push(s.last());
            assert forall|i: int, j: int| 0 <= i < j < e.len() implies e[i].1 != e[j].1 by {
                if j == d.len() {
                    assert(e[i] == d[i]);
                }
            }
        }
    }
}


/// The parameters as bound targets.
pub open spec fn param_targets(ps: Seq<usize>) -> Seq<Target> {
    ps.map_values(|p: usize| Target::Param(p))
}

/// `t: b` for each target.
pub open spec fn direct_preds(ts: Seq<Target>, b: Bound) -> Seq<Predicate> {
    ts.map_values(|t: Target| Predicate::Direct(t, b))
}

/// `<t>::Memento: b` for each target.
pub open spec fn memento_preds(ts: Seq<Target>, b: Bound) -> Seq<Predicate> {
    ts.map_values(|t: Target| Predicate::Memento(t, b))
}

/// `t: Recallable` and `<t>::Memento: From<t>` for each target, pair by pair.
pub open spec fn from_pairs(ts: Seq<Target>) -> Seq<Predicate>
    decreases ts.len(),
{
    if ts.len() == 0 {
        Seq::empty()
    } else {
        from_pairs(ts.drop_last()) + seq![
            Predicate::Direct(ts.last(), Bound::Recallable),
            Predicate::MementoFrom(ts.last()),
        ]
    }
}

/// The bounds that every generated item shares: the memento of each recallable
/// parameter and of each whole-type target gets the common bound, and with
/// serde each whole-type target's memento is `DeserializeOwned`.
pub open spec fn spec_shared_bounds(rp: Seq<usize>, wt: Seq<Target>, s: MementoTraitSpec) -> Seq<Predicate> {
    memento_preds(param_targets(rp), spec_common_bound(s)) + memento_preds(wt, spec_common_bound(s)) + (if s.serde_enabled {
        memento_preds(wt, Bound::DeserializeOwned)
    } else {
        Seq::empty()
    })
}

/// The bounds of a `Recallable`/`Recall`-like impl, as assembled: the direct
/// bound on each recallable parameter, the parameters' shared bounds, the direct
/// bound on each whole-type target, then the rest of the shared bounds.
pub open spec fn spec_recall_like_bounds(rp: Seq<usize>, wt: Seq<Target>, s: MementoTraitSpec, direct: Bound) -> Seq<
    Predicate,
> {
    let shared = spec_shared_bounds(rp, wt, s);
    direct_preds(param_targets(rp), direct) + shared.take(rp.len() as int) + direct_preds(wt, direct)
        + shared.skip(rp.len() as int)
}

/// The bounds of the `From` impl: the `Recallable` and `From` pair of each
/// recallable parameter, the shared bounds, then the pair of each whole-type target.
pub open spec fn spec_from_bounds(rp: Seq<usize>, wt: Seq<Target>, s: MementoTraitSpec) -> Seq<Predicate> {
    from_pairs(param_targets(rp)) + spec_shared_bounds(rp, wt, s) + from_pairs(wt)
}

/// Assembled as it is, the impl bounds group by target: for the recallable
/// parameters the direct bound then their mementos' common bound; for the
/// whole-type targets the direct bound, their mementos' common bound, then
/// (with serde) `DeserializeOwned`.
pub proof fn lemma_recall_like_order(rp: Seq<usize>, wt: Seq<Target>, s: MementoTraitSpec, direct: Bound)
    ensures
        spec_recall_like_bounds(rp, wt, s, direct) == direct_preds(param_targets(rp), direct) + memento_preds(
            param_targets(rp),
            spec_common_bound(s),
        ) + direct_preds(wt, direct) + memento_preds(wt, spec_common_bound(s)) + (if s.serde_enabled {
            memento_preds(wt, Bound::DeserializeOwned)
        } else {
            Seq::empty()
        }),
{
    let shared = spec_shared_bounds(rp, wt, s);
    let a = memento_preds(param_targets(rp), spec_common_bound(s));
    let rest = memento_preds(wt, spec_common_bound(s)) + (if s.serde_enabled {
        memento_preds(wt, Bound::DeserializeOwned)
    } else {
        Seq::empty()
    });
    assert(shared =~= a + rest);
    assert(shared.take(rp.len() as int) =~= a);
    assert(shared.skip(rp.len() as int) =~= rest);
    assert(spec_recall_like_bounds(rp, wt, s, direct) =~= direct_preds(param_targets(rp), direct) + a + direct_preds(
        wt,
        direct,
    ) + rest);
}

fn push_memento_preds(out: &mut Vec<Predicate>, ts: &Vec<Target>, b: Bound)
    ensures
        final(out)@ == old(out)@ + memento_preds(ts@, b),
{
    let ghost start = out@;
    let mut i: usize = 0;
    while i < ts.len()
        invariant
            0 <= i <= ts@.len(),
            out@ == start + memento_preds(ts@.take(i as int), b),
        decreases ts@.len() - i,
    {
        out.push(Predicate::Memento(ts[i], b));
        assert(memento_preds(ts@.take(i + 1), b) =~= memento_preds(ts@.take(i as int), b).push(
            Predicate::Memento(ts@[i as int], b),
        ));
        i = i + 1;
    }
    assert(ts@.take(i as int) == ts@);
}

fn push_direct_preds(out: &mut Vec<Predicate>, ts: &Vec<Target>, b: Bound)
    ensures
        final(out)@ == old(out)@ + direct_preds(ts@, b),
{
    let ghost start = out@;
    let mut i: usize = 0;
    while i < ts.len()
        invariant
            0 <= i <= ts@.len(),
            out@ == start + direct_preds(ts@.take(i as int), b),
        decreases ts@.len() - i,
    {
        out.push(Predicate::Direct(ts[i], b));
        assert(direct_preds(ts@.take(i + 1), b) =~= direct_preds(ts@.take(i as int), b).push(
            Predicate::Direct(ts@[i as int], b),
        ));
        i = i + 1;
    }
    assert(ts@.take(i as int) == ts@);
}

fn push_from_pairs(out: &mut Vec<Predicate>, ts: &Vec<Target>)
    ensures
        final(out)@ == old(out)@ + from_pairs(ts@),
{
    let ghost start = out@;
    let mut i: usize = 0;
    while i < ts.len()
        invariant
            0 <= i <= ts@.len(),
            out@ == start + from_pairs(ts@.take(i as int)),
        decreases ts@.len() - i,
    {
        out.push(Predicate::Direct(ts[i], Bound::Recallable));
        out.push(Predicate::MementoFrom(ts[i]));
        assert(ts@.take(i + 1).drop_last() == ts@.take(i as int));
        assert(out@ =~= start + from_pairs(ts@.take(i + 1)));
        i = i + 1;
    }
    assert(ts@.take(i as int) == ts@);
}

/// The parameters as bound targets.
pub fn as_param_targets(ps: &Vec<usize>) -> (r: Vec<Target>)
    ensures
        r@ == param_targets(ps@),
{
    let mut out: Vec<Target> = Vec::new();
    let mut i: usize = 0;
    while i < ps.len()
        invariant
            0 <= i <= ps@.len(),
            out@ == param_targets(ps@.take(i as int)),
        decreases ps@.len() - i,
    {
        out.push(Target::Param(ps[i]));
        assert(param_targets(ps@.take(i + 1)) =~= param_targets(ps@.take(i as int)).push(
            Target::Param(ps@[i as int]),
        ));
        i = i + 1;
    }
    assert(ps@.take(i as int) == ps@);
    out
}

/// The shared memento bounds for the recallable parameters `rp` and whole-type
/// targets `wt`.
pub fn collect_shared_memento_bounds_with_spec(rp: &Vec<usize>, wt: &Vec<Target>, s: MementoTraitSpec) -> (r: Vec<
    Predicate,
>)
    ensures
        r@ == spec_shared_bounds(rp@, wt@, s),
{
    let pts = as_param_targets(rp);
    let common = s.common_bound();
    let mut out: Vec<Predicate> = Vec::new();
    push_memento_preds(&mut out, &pts, common);
    push_memento_preds(&mut out, wt, common);
    match s.serde_nested_bound() {
        Some(b) => push_memento_preds(&mut out, wt, b),
        None => {},
    }
    assert(out@ =~= spec_shared_bounds(rp@, wt@, s));
    out
}

/// The bounds of a `Recallable`- or `Recall`-like impl with direct bound `direct`.
pub fn collect_recall_like_bounds_with_spec(
    rp: &Vec<usize>,
    wt: &Vec<Target>,
    direct: Bound,
    s: MementoTraitSpec,
) -> (r: Vec<Predicate>)
    ensures
        r@ == spec_recall_like_bounds(rp@, wt@, s, direct),
{
    let shared = collect_shared_memento_bounds_with_spec(rp, wt, s);
    let pts = as_param_targets(rp);
    let k = rp.len();
    let mut out: Vec<Predicate> = Vec::new();
    push_direct_preds(&mut out, &pts, direct);
    proof { lemma_shared_len(rp@, wt@, s); }
    let ghost mid = out@;
    let mut i: usize = 0;
    while i < k
        invariant
            0 <= i <= k,
            k == rp@.len(),
            k <= shared@.len(),
            out@ == mid + shared@.take(i as int),
        decreases k - i,
    {
        out.push(shared[i]);
        assert(shared@.take(i + 1) =~= shared@.take(i as int).push(shared@[i as int]));
        i = i + 1;
    }
    push_direct_preds(&mut out, wt, direct);
    let ghost mid2 = out@;
    let mut j: usize = k;
    while j < shared.len()
        invariant
            k <= j <= shared@.len(),
            out@ == mid2 + shared@.subrange(k as int, j as int),
        decreases shared@.len() - j,
    {
        out.push(shared[j]);
        assert(shared@.subrange(k as int, j + 1) =~= shared@.subrange(k as int, j as int).push(shared@[j as int]));
        j = j + 1;
    }
    assert(shared@.subrange(k as int, shared@.len() as int) =~= shared@.skip(k as int));
    assert(out@ =~= spec_recall_like_bounds(rp@, wt@, s, direct));
    out
}

proof fn lemma_shared_len(rp: Seq<usize>, wt: Seq<Target>, s: MementoTraitSpec)
    ensures
        spec_shared_bounds(rp, wt, s).len() >= rp.len(),
{
}

/// The bounds of the `From` impl.
pub fn collect_from_bounds_with_spec(rp: &Vec<usize>, wt: &Vec<Target>, s: MementoTraitSpec) -> (r: Vec<Predicate>)
    ensures
        r@ == spec_from_bounds(rp@, wt@, s),
{
    let pts = as_param_targets(rp);
    let mut out: Vec<Predicate> = Vec::new();
    push_from_pairs(&mut out, &pts);
    let mut shared = collect_shared_memento_bounds_with_spec(rp, wt, s);
    out.append(&mut shared);
    push_from_pairs(&mut out, wt);
    assert(out@ =~= spec_from_bounds(rp@, wt@, s));
    out
}

/// The item's own where-predicates, by position.
pub open spec fn item_preds(n: nat) -> Seq<Predicate> {
    Seq::new(n, |i: int| Predicate::Item(i as usize))
}

/// The item's where-clause extended with `extra`: absent only when the item has
/// none and nothing is added.
pub open spec fn spec_extend_where(item_where: Option<nat>, extra: Seq<Predicate>) -> Option<Seq<Predicate>> {
    match item_where {
        None => if extra.len() == 0 {
            None
        } else {
            Some(extra)
        },
        Some(n) => Some(item_preds(n) + extra),
    }
}

/// The number of where-predicates the item writes, if it writes a where-clause.
pub open spec fn item_where_len(item: ItemModel) -> Option<nat> {
    match item.generics.where_clause {
        Some(w) => Some(w@.len()),
        None => None,
    }
}

/// Extends the item's where-clause with `extra`.
pub fn extend_where_clause(item: &ItemModel, extra: Vec<Predicate>) -> (r: Option<Vec<Predicate>>)
    ensures
        match spec_extend_where(item_where_len(*item), extra@) {
            Some(p) => r is Some && r->Some_0@ == p,
            None => r is None,
        },
{
    match &item.generics.where_clause {
        None => {
            if extra.len() == 0 {
                None
            } else {
                Some(extra)
            }
        },
        Some(w) => {
            let mut out: Vec<Predicate> = Vec::new();
            let mut i: usize = 0;
            while i < w.len()
                invariant
                    0 <= i <= w@.len(),
                    out@ == item_preds(i as nat),
                decreases w@.len() - i,
            {
                out.push(Predicate::Item(i));
                assert(out@ =~= item_preds((i + 1) as nat));
                i = i + 1;
            }
            let mut extra = extra;
            out.append(&mut extra);
            Some(out)
        },
    }
}

/// The memento trait spec of an analyzed item.
pub open spec fn item_trait_spec(ir: ItemIr, serde_enabled: bool) -> MementoTraitSpec {
    MementoTraitSpec { serde_enabled, derive_off: ir.skip_default_derives }
}

/// The bounds that the item's generated code shares (see [`spec_shared_bounds`]).
pub fn collect_shared_memento_bounds(item: &ItemModel, ir: &ItemIr, serde_enabled: bool) -> (r: Vec<Predicate>)
    requires
        ir_matches(*item, *ir),
    ensures
        r@ == spec_shared_bounds(
            spec_recallable_params(ir.plan.retention@),
            spec_whole_type_targets(*item, *ir),
            item_trait_spec(*ir, serde_enabled),
        ),
{
    let rp = recallable_params(&ir.plan.retention);
    let wt = whole_type_bound_targets(item, ir);
    collect_shared_memento_bounds_with_spec(&rp, &wt, MementoTraitSpec::new(serde_enabled, ir.skip_default_derives))
}

/// The bounds of the item's `Recallable`- or `Recall`-like impl.
pub fn collect_recall_like_bounds(item: &ItemModel, ir: &ItemIr, direct: Bound, serde_enabled: bool) -> (r: Vec<
    Predicate,
>)
    requires
        ir_matches(*item, *ir),
    ensures
        r@ == spec_recall_like_bounds(
            spec_recallable_params(ir.plan.retention@),
            spec_whole_type_targets(*item, *ir),
            item_trait_spec(*ir, serde_enabled),
            direct,
        ),
{
    let rp = recallable_params(&ir.plan.retention);
    let wt = whole_type_bound_targets(item, ir);
    collect_recall_like_bounds_with_spec(&rp, &wt, direct, MementoTraitSpec::new(serde_enabled, ir.skip_default_derives))
}

/// The item's kept where-predicates followed by the `Recallable`-like bounds;
/// absent when there are none.
pub open spec fn spec_memento_where(kept: Option<Seq<usize>>, extra: Seq<Predicate>) -> Option<Seq<Predicate>> {
    let own = match kept {
        Some(k) => k.map_values(|i: usize| Predicate::Item(i)),
        None => Seq::empty(),
    };
    if own.len() + extra.len() == 0 {
        None
    } else {
        Some(own + extra)
    }
}

/// The where-clause of the memento declaration.
pub fn build_memento_where_clause(item: &ItemModel, ir: &ItemIr, serde_enabled: bool) -> (r: Option<Vec<Predicate>>)
    requires
        ir_matches(*item, *ir),
    ensures
        match spec_memento_where(
            crate::ir::kept_view(ir.plan.kept_preds),
            spec_recall_like_bounds(
                spec_recallable_params(ir.plan.retention@),
                spec_whole_type_targets(*item, *ir),
                item_trait_spec(*ir, serde_enabled),
                Bound::Recallable,
            ),
        ) {
            Some(p) => r is Some && r->Some_0@ == p,
            None => r is None,
        },
{
    let mut extra = collect_recall_like_bounds(item, ir, Bound::Recallable, serde_enabled);
    let mut out: Vec<Predicate> = Vec::new();
    match &ir.plan.kept_preds {
        Some(k) => {
            let mut i: usize = 0;
            while i < k.len()
                invariant
                    0 <= i <= k@.len(),
                    out@ == k@.take(i as int).map_values(|x: usize| Predicate::Item(x)),
                decreases k@.len() - i,
            {
                out.push(Predicate::Item(k[i]));
                assert(k@.take(i + 1).map_values(|x: usize| Predicate::Item(x)) =~= k@.take(i as int).map_values(
                    |x: usize| Predicate::Item(x),
                ).push(Predicate::Item(k@[i as int])));
                i = i + 1;
            }
            assert(k@.take(i as int) == k@);
        },
        None => {},
    }
    let ghost own = out@;
    out.append(&mut extra);
    if out.len() == 0 {
        None
    } else {
        Some(out)
    }
}

} // verus!
