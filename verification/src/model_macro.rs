//! Decisions of the `#[recallable_model]` attribute.
use vstd::prelude::*;
use crate::prefix::lemma_err_prefix;
use crate::attrs::{path_is_ident, spec_path_is_ident};
use crate::diag::{Diagnostic, ErrorKind, Site, diag, malformed_error, malformed_kind};
use crate::model::{AttrModel, CfgArgs, InnerAttr, MetaModel, NestedMeta, NestedValue, PathModel};
use crate::text::{text_eq, text_is};

verus! {

/// What a `recallable` attribute asks for, when read by the model attribute.
#[derive(Clone, Copy, Debug, PartialEq, Eq, Structural)]
pub enum RecallableAttrKind {
    Recall,
    Skip,
}

/// Reading a `recallable` meta: `#[recallable]` asks for recall, a list holding
/// `skip` asks for skip, an empty list asks for nothing; other entries, values
/// and `name = value` forms are errors.
pub open spec fn spec_classify_recallable_attr(meta: MetaModel) -> Result<Option<RecallableAttrKind>, ErrorKind> {
    match meta {
        MetaModel::Path => Ok(Some(RecallableAttrKind::Recall)),
        MetaModel::List(items) => match crate::attrs::spec_field_list_scan(items@, false) {
            Ok(true) => Ok(Some(RecallableAttrKind::Skip)),
            Ok(false) => Ok(None),
            Err(k) => Err(k),
        },
        MetaModel::NameValue => Err(ErrorKind::UnrecognizedRecallableParam),
    }
}

/// Reads a `recallable` meta.
pub fn classify_recallable_attr(meta: &MetaModel) -> (r: Result<Option<RecallableAttrKind>, ErrorKind>)
    ensures
        r == spec_classify_recallable_attr(*meta),
{
    match meta {
        MetaModel::Path => Ok(Some(RecallableAttrKind::Recall)),
        MetaModel::List(items) => {
            match crate::attrs::read_field_list(items) {
                Ok(true) => Ok(Some(RecallableAttrKind::Skip)),
                Ok(false) => Ok(None),
                Err(k) => Err(k),
            }
        },
        MetaModel::NameValue => Err(ErrorKind::UnrecognizedRecallableParam),
    }
}

/// Scanning a `serde(...)` list for `skip`; entries carrying a value are not
/// consumed, which is a syntax error.
pub open spec fn spec_serde_skip_scan(items: Seq<NestedMeta>) -> Result<bool, ErrorKind>
    decreases items.len(),
{
    if items.len() == 0 {
        Ok(false)
    } else {
        match spec_serde_skip_scan(items.drop_last()) {
            Err(e) => Err(e),
            Ok(saw) => match items.last() {
                NestedMeta::Malformed(m) => Err(malformed_kind(m)),
                NestedMeta::Item { path, value } => if !(value is Absent) {
                    Err(ErrorKind::ExpectedComma)
                } else {
                    Ok(saw || spec_path_is_ident(path, "skip"@))
                },
            },
        }
    }
}

/// Whether a `serde` meta holds `skip`; only a list can.
pub open spec fn spec_meta_has_serde_skip(meta: MetaModel) -> Result<bool, ErrorKind> {
    match meta {
        MetaModel::List(items) => spec_serde_skip_scan(items@),
        _ => Ok(false),
    }
}

/// Whether a `serde` meta holds `skip`.
pub fn meta_has_serde_skip(meta: &MetaModel) -> (r: Result<bool, ErrorKind>)
    ensures
        r == spec_meta_has_serde_skip(*meta),
{
    match meta {
        MetaModel::List(items) => {
            let mut saw = false;
            let mut i: usize = 0;
            while i < items.len()
                invariant
                    0 <= i <= items@.len(),
                    *meta == MetaModel::List(*items),
                    spec_serde_skip_scan(items@.take(i as int)) == Ok::<bool, ErrorKind>(saw),
                decreases items@.len() - i,
            {
                assert(items@.take(i + 1).drop_last() == items@.take(i as int));
                assert(items@.take(i + 1).last() == items@[i as int]);
                match &items[i] {
                    NestedMeta::Malformed(m) => {
                        proof { lemma_err_prefix(|t: Seq<NestedMeta>| spec_serde_skip_scan(t), items@, i as int + 1); }
                        return Err(malformed_error(m));
                    },
                    NestedMeta::Item { path, value } => {
                        match value {
                            NestedValue::Absent => {
                                saw = saw || path_is_ident(path, "skip");
                            },
                            _ => {
                                proof { lemma_err_prefix(|t: Seq<NestedMeta>| spec_serde_skip_scan(t), items@, i as int + 1); }
                                return Err(ErrorKind::ExpectedComma);
                            },
                        }
                    },
                }
                i = i + 1;
            }
            assert(items@.take(i as int) == items@);
            Ok(saw)
        },
        _ => Ok(false),
    }
}

/// What one attribute contributes under its condition.
#[derive(Clone, Copy, Debug, PartialEq, Eq, Structural)]
pub struct Effect {
    pub recall: bool,
    pub skip: bool,
    pub serde_skip: bool,
}

/// The union of two effects.
pub open spec fn join(a: Effect, b: Effect) -> Effect {
    Effect { recall: a.recall || b.recall, skip: a.skip || b.skip, serde_skip: a.serde_skip || b.serde_skip }
}

/// No effect.
pub open spec fn none_effect() -> Effect {
    Effect { recall: false, skip: false, serde_skip: false }
}

/// The effect of one meta named by `path`: a `recallable` meta as classified, a
/// `serde` meta holding `skip`; anything else has none.
pub open spec fn spec_meta_effect(path: PathModel, meta: MetaModel) -> Result<Effect, ErrorKind> {
    if spec_path_is_ident(path, "recallable"@) {
        match spec_classify_recallable_attr(meta) {
            Err(k) => Err(k),
            Ok(Some(RecallableAttrKind::Recall)) => Ok(Effect { recall: true, skip: false, serde_skip: false }),
            Ok(Some(RecallableAttrKind::Skip)) => Ok(Effect { recall: false, skip: true, serde_skip: false }),
            Ok(None) => Ok(none_effect()),
        }
    } else if spec_path_is_ident(path, "serde"@) {
        match spec_meta_has_serde_skip(meta) {
            Err(k) => Err(k),
            Ok(b) => Ok(Effect { recall: false, skip: false, serde_skip: b }),
        }
    } else {
        Ok(none_effect())
    }
}

fn meta_effect(path: &PathModel, meta: &MetaModel) -> (r: Result<Effect, ErrorKind>)
    ensures
        r == spec_meta_effect(*path, *meta),
{
    if path_is_ident(path, "recallable") {
        match classify_recallable_attr(meta) {
            Err(k) => Err(k),
            Ok(Some(RecallableAttrKind::Recall)) => Ok(Effect { recall: true, skip: false, serde_skip: false }),
            Ok(Some(RecallableAttrKind::Skip)) => Ok(Effect { recall: false, skip: true, serde_skip: false }),
            Ok(None) => Ok(Effect { recall: false, skip: false, serde_skip: false }),
        }
    } else if path_is_ident(path, "serde") {
        match meta_has_serde_skip(meta) {
            Err(k) => Err(k),
            Ok(b) => Ok(Effect { recall: false, skip: false, serde_skip: b }),
        }
    } else {
        Ok(Effect { recall: false, skip: false, serde_skip: false })
    }
}

/// The joined effect of the attributes inside one `cfg_attr`.
pub open spec fn spec_inner_effect(inner: Seq<InnerAttr>) -> Result<Effect, ErrorKind>
    decreases inner.len(),
{
    if inner.len() == 0 {
        Ok(none_effect())
    } else {
        match spec_inner_effect(inner.drop_last()) {
            Err(k) => Err(k),
            Ok(e) => match spec_meta_effect(inner.last().path, inner.last().meta) {
                Err(k) => Err(k),
                Ok(f) => Ok(join(e, f)),
            },
        }
    }
}

fn inner_effect(inner: &Vec<InnerAttr>) -> (r: Result<Effect, ErrorKind>)
    ensures
        r == spec_inner_effect(inner@),
{
    let mut e = Effect { recall: false, skip: false, serde_skip: false };
    let mut i: usize = 0;
    while i < inner.len()
        invariant
            0 <= i <= inner@.len(),
            spec_inner_effect(inner@.take(i as int)) == Ok::<Effect, ErrorKind>(e),
        decreases inner@.len() - i,
    {
        assert(inner@.take(i + 1).drop_last() == inner@.take(i as int));
        assert(inner@.take(i + 1).last() == inner@[i as int]);
        match meta_effect(&inner[i].path, &inner[i].meta) {
            Err(k) => {
                proof { lemma_err_prefix(|t: Seq<InnerAttr>| spec_inner_effect(t), inner@, i as int + 1); }
                return Err(k);
            },
            Ok(f) => {
                e = Effect {
                    recall: e.recall || f.recall,
                    skip: e.skip || f.skip,
                    serde_skip: e.serde_skip || f.serde_skip,
                };
            },
        }
        i = i + 1;
    }
    assert(inner@.take(i as int) == inner@);
    Ok(e)
}

/// What has been seen under one condition: always (`key` is `None`), or the
/// predicate of the `cfg_attr` at position `key` (the first with that text).
#[derive(Clone, Copy, Debug, PartialEq, Eq, Structural)]
pub struct SkipState {
    pub key: Option<usize>,
    pub seen: Effect,
}

/// The predicate text of a `cfg_attr` attribute.
pub open spec fn pred_text(a: AttrModel) -> Seq<char> {
    a.cfg->Args_predicate@
}

/// The condition text of a state key.
pub open spec fn key_text(key: Option<usize>, attrs: Seq<AttrModel>) -> Option<Seq<char>> {
    match key {
        None => None,
        Some(j) => Some(pred_text(attrs[j as int])),
    }
}

/// The first state whose condition has text `t`.
pub open spec fn find_state(states: Seq<SkipState>, attrs: Seq<AttrModel>, t: Option<Seq<char>>) -> Option<int>
    decreases states.len(),
{
    if states.len() == 0 {
        None
    } else {
        match find_state(states.drop_last(), attrs, t) {
            Some(k) => Some(k),
            None => if key_text(states.last().key, attrs) == t {
                Some(states.len() - 1)
            } else {
                None
            },
        }
    }
}

/// Joins an effect into state `k`.
pub open spec fn add_effect(states: Seq<SkipState>, k: int, e: Effect) -> Seq<SkipState> {
    states.update(k, SkipState { key: states[k].key, seen: join(states[k].seen, e) })
}

/// The states after reading the first `n` of a field's attributes, in order:
/// one state for unconditional attributes, then one per distinct `cfg_attr`
/// predicate text in order of first appearance. Errors carry the attribute's
/// position.
pub open spec fn spec_skip_scan_n(attrs: Seq<AttrModel>, n: int) -> Result<Seq<SkipState>, (ErrorKind, int)>
    decreases n,
{
    if n <= 0 {
        Ok(seq![SkipState { key: None, seen: none_effect() }])
    } else {
        let i = n - 1;
        let a = attrs[i];
        match spec_skip_scan_n(attrs, n - 1) {
            Err(e) => Err(e),
            Ok(states) => if spec_path_is_ident(a.path, "cfg_attr"@) {
                match a.cfg {
                    CfgArgs::Args { predicate, attrs: inner } => {
                        let (st, k) = match find_state(states, attrs, Some(predicate@)) {
                            Some(k) => (states, k),
                            None => (
                                states.push(SkipState { key: Some(i as usize), seen: none_effect() }),
                                states.len() as int,
                            ),
                        };
                        match spec_inner_effect(inner@) {
                            Err(kind) => Err((kind, i)),
                            Ok(e) => Ok(add_effect(st, k, e)),
                        }
                    },
                    _ => Err((ErrorKind::MalformedCfgAttr, i)),
                }
            } else {
                match spec_meta_effect(a.path, a.meta) {
                    Err(kind) => Err((kind, i)),
                    Ok(e) => Ok(add_effect(states, 0, e)),
                }
            },
        }
    }
}

/// The states after reading all of a field's attributes.
pub open spec fn spec_skip_scan(attrs: Seq<AttrModel>) -> Result<Seq<SkipState>, (ErrorKind, int)> {
    spec_skip_scan_n(attrs, attrs.len() as int)
}

/// Where a `#[serde(skip)]` is added: unconditionally, or under the predicate
/// of the `cfg_attr` at that position.
#[derive(Clone, Copy, Debug, PartialEq, Eq, Structural)]
pub enum SerdeSkip {
    Always,
    Under(usize),
}

/// The skips to add for a list of states, or the first conflict: `#[recallable]`
/// with `#[recallable(skip)]`, or `#[recallable]` with `#[serde(skip)]`, under
/// one condition. A skip is added for each condition that skips the field
/// without serde skipping it already.
pub open spec fn spec_skip_adds(states: Seq<SkipState>, variant: Option<usize>, field: usize) -> Result<
    Seq<SerdeSkip>,
    Diagnostic,
>
    decreases states.len(),
{
    if states.len() == 0 {
        Ok(Seq::empty())
    } else {
        match spec_skip_adds(states.drop_last(), variant, field) {
            Err(d) => Err(d),
            Ok(adds) => {
                let s = states.last();
                if s.seen.recall && s.seen.skip {
                    Err(
                        Diagnostic {
                            kind: ErrorKind::ConflictingRecallableAttrs,
                            site: Site::Field { variant, field },
                        },
                    )
                } else if s.seen.recall && s.seen.serde_skip {
                    Err(
                        Diagnostic {
                            kind: ErrorKind::RecallWithSerdeSkip,
                            site: match s.key {
                                None => Site::Field { variant, field },
                                Some(j) => Site::CfgPredicate { variant, field, attr: j },
                            },
                        },
                    )
                } else if s.seen.skip && !s.seen.serde_skip {
                    Ok(
                        adds.push(
                            match s.key {
                                None => SerdeSkip::Always,
                                Some(j) => SerdeSkip::Under(j),
                            },
                        ),
                    )
                } else {
                    Ok(adds)
                }
            },
        }
    }
}

/// The `#[serde(skip)]` attributes to add to a field, or its diagnostic.
pub open spec fn spec_serde_skip_attrs(attrs: Seq<AttrModel>, variant: Option<usize>, field: usize) -> Result<
    Seq<SerdeSkip>,
    Diagnostic,
> {
    match spec_skip_scan(attrs) {
        Err((k, i)) => Err(Diagnostic { kind: k, site: Site::FieldAttr { variant, field, attr: i as usize } }),
        Ok(states) => spec_skip_adds(states, variant, field),
    }
}


/// Some attribute is `#[serde(...)]` with `skip` in it.
pub open spec fn has_serde_skip(attrs: Seq<AttrModel>) -> bool
    decreases attrs.len(),
{
    if attrs.len() == 0 {
        false
    } else {
        has_serde_skip(attrs.drop_last()) || (spec_path_is_ident(attrs.last().path, "serde"@)
            && spec_meta_has_serde_skip(attrs.last().meta) == Ok::<bool, ErrorKind>(true))
    }
}

/// No attribute is a `cfg_attr`.
pub open spec fn no_cfg_attr(attrs: Seq<AttrModel>) -> bool {
    forall|i: int| 0 <= i < attrs.len() ==> !spec_path_is_ident(#[trigger] attrs[i].path, "cfg_attr"@)
}

/// Without `cfg_attr`, a scan that succeeds has the one unconditional state,
/// which has seen `#[recallable]` and `#[recallable(skip)]` as the field-level
/// reading does, and `#[serde(skip)]` when some attribute is one.
proof fn lemma_plain_scan(attrs: Seq<AttrModel>, n: int)
    requires
        0 <= n <= attrs.len(),
        no_cfg_attr(attrs),
        spec_skip_scan_n(attrs, n) is Ok,
    ensures
        ({
            let states = spec_skip_scan_n(attrs, n)->Ok_0;
            &&& states.len() == 1
            &&& states[0].key is None
            &&& crate::attrs::spec_field_attr_scan(attrs.take(n), false) == Ok::<(bool, bool), (ErrorKind, int)>(
                (states[0].seen.recall, states[0].seen.skip),
            )
            &&& states[0].seen.serde_skip == has_serde_skip(attrs.take(n))
        }),
    decreases n,
{
    if n == 0 {
        assert(attrs.take(0) =~= Seq::<AttrModel>::empty());
    } else {
        let a = attrs[n - 1];
        assert(!spec_path_is_ident(a.path, "cfg_attr"@));
        assert(spec_skip_scan_n(attrs, n - 1) is Ok);
        lemma_plain_scan(attrs, n - 1);
        let states0 = spec_skip_scan_n(attrs, n - 1)->Ok_0;
        assert(spec_meta_effect(a.path, a.meta) is Ok);
        let e = spec_meta_effect(a.path, a.meta)->Ok_0;
        assert(spec_skip_scan_n(attrs, n) == Ok::<Seq<SkipState>, (ErrorKind, int)>(add_effect(states0, 0, e)));
        assert(attrs.take(n).drop_last() =~= attrs.take(n - 1));
        assert(attrs.take(n).last() == a);
        reveal_strlit("recallable");
        reveal_strlit("serde");
        assert("recallable"@.len() != "serde"@.len());
        if spec_path_is_ident(a.path, "recallable"@) {
            match a.meta {
                MetaModel::Path => {},
                MetaModel::List(items) => {},
                MetaModel::NameValue => {},
            }
        }
    }
}

/// Without `cfg_attr`, a field whose attributes read without error gets one
/// unconditional `#[serde(skip)]` when they mark it `#[recallable(skip)]` and
/// none of them is `#[serde(skip)]` already, and nothing otherwise.
pub proof fn lemma_plain_skip_gets_serde_skip(attrs: Seq<AttrModel>, variant: Option<usize>, field: usize)
    requires
        no_cfg_attr(attrs),
        spec_serde_skip_attrs(attrs, variant, field) is Ok,
    ensures
        spec_serde_skip_attrs(attrs, variant, field)->Ok_0 == (if crate::attrs::spec_is_skip_field(attrs)
            && !has_serde_skip(attrs) {
            seq![SerdeSkip::Always]
        } else {
            Seq::<SerdeSkip>::empty()
        }),
{
    assert(spec_skip_scan(attrs) is Ok);
    lemma_plain_scan(attrs, attrs.len() as int);
    assert(attrs.take(attrs.len() as int) =~= attrs);
    let states = spec_skip_scan(attrs)->Ok_0;
    assert(states.drop_last() =~= Seq::<SkipState>::empty());
    assert(states.last() == states[0]);
    assert(spec_skip_adds(states.drop_last(), variant, field) == Ok::<Seq<SerdeSkip>, Diagnostic>(Seq::empty()));
    let st = states[0];
    if st.seen.skip && !st.seen.serde_skip {
        assert(!st.seen.recall);
        assert(spec_serde_skip_attrs(attrs, variant, field)->Ok_0 =~= seq![SerdeSkip::Always]);
    } else {
        assert(spec_serde_skip_attrs(attrs, variant, field)->Ok_0 =~= Seq::<SerdeSkip>::empty());
    }
}

/// An attribute that is a `cfg_attr` with readable arguments.
pub open spec fn is_cfg_args(a: AttrModel) -> bool {
    spec_path_is_ident(a.path, "cfg_attr"@) && a.cfg is Args
}

/// A condition that some attribute is under: always (`None`), or the
/// predicate text of one of the `cfg_attr`s.
pub open spec fn cond_present(attrs: Seq<AttrModel>, t: Option<Seq<char>>) -> bool {
    t is None || exists|i: int| 0 <= i < attrs.len() && is_cfg_args(#[trigger] attrs[i]) && t == Some(pred_text(attrs[i]))
}

/// What one attribute contributes under condition `t`: an attribute outside
/// `cfg_attr` under the unconditional one, the attributes inside a `cfg_attr`
/// under its predicate text.
pub open spec fn effect_of(a: AttrModel, t: Option<Seq<char>>) -> Effect {
    if spec_path_is_ident(a.path, "cfg_attr"@) {
        match a.cfg {
            CfgArgs::Args { predicate, attrs: inner } => if t == Some(predicate@) {
                spec_inner_effect(inner@)->Ok_0
            } else {
                none_effect()
            },
            _ => none_effect(),
        }
    } else if t is None {
        spec_meta_effect(a.path, a.meta)->Ok_0
    } else {
        none_effect()
    }
}

/// What all the attributes contribute under condition `t`.
pub open spec fn effect_under(attrs: Seq<AttrModel>, t: Option<Seq<char>>) -> Effect
    decreases attrs.len(),
{
    if attrs.len() == 0 {
        none_effect()
    } else {
        join(effect_under(attrs.drop_last(), t), effect_of(attrs.last(), t))
    }
}

/// The condition a skip to add is under.
pub open spec fn skip_cond(s: SerdeSkip, attrs: Seq<AttrModel>) -> Option<Seq<char>> {
    match s {
        SerdeSkip::Always => None,
        SerdeSkip::Under(j) => Some(pred_text(attrs[j as int])),
    }
}

/// Under a condition no attribute is under, nothing is seen.
proof fn lemma_absent_none(attrs: Seq<AttrModel>, t: Option<Seq<char>>)
    requires
        !cond_present(attrs, t),
    ensures
        effect_under(attrs, t) == none_effect(),
    decreases attrs.len(),
{
    if attrs.len() > 0 {
        let p = attrs.drop_last();
        assert(!cond_present(p, t)) by {
            if cond_present(p, t) {
                let i = choose|i: int| 0 <= i < p.len() && is_cfg_args(#[trigger] p[i]) && t == Some(pred_text(p[i]));
                assert(attrs[i] == p[i]);
            }
        }
        lemma_absent_none(p, t);
        let a = attrs.last();
        assert(attrs[attrs.len() - 1] == a);
        assert(!(is_cfg_args(a) && t == Some(pred_text(a))));
    }
}

/// After reading `n` attributes, each state has seen exactly what the
/// attributes read so far contribute under its condition; the states'
/// conditions are distinct, and they are exactly the conditions present.
proof fn lemma_states_effects(attrs: Seq<AttrModel>, n: int)
    requires
        0 <= n <= attrs.len(),
        attrs.len() <= usize::MAX,
        spec_skip_scan_n(attrs, n) is Ok,
    ensures
        ({
            let st = spec_skip_scan_n(attrs, n)->Ok_0;
            &&& st.len() >= 1
            &&& st[0].key is None
            &&& forall|k: int| 0 <= k < st.len() ==> match (#[trigger] st[k]).key {
                None => k == 0,
                Some(j) => j < n && is_cfg_args(attrs[j as int]),
            }
            &&& forall|k: int| 0 <= k < st.len() ==> (#[trigger] st[k]).seen == effect_under(
                attrs.take(n),
                key_text(st[k].key, attrs),
            )
            &&& forall|k1: int, k2: int| 0 <= k1 < st.len() && 0 <= k2 < st.len() && k1 != k2 ==> key_text(
                (#[trigger] st[k1]).key,
                attrs,
            ) != key_text((#[trigger] st[k2]).key, attrs)
            &&& forall|t: Option<Seq<char>>| cond_present(attrs.take(n), t) ==> find_state(st, attrs, t) is Some
        }),
    decreases n,
{
    if n == 0 {
        assert(attrs.take(0) =~= Seq::<AttrModel>::empty());
        let st = spec_skip_scan_n(attrs, 0)->Ok_0;
        assert forall|t: Option<Seq<char>>| cond_present(attrs.take(0), t) implies find_state(st, attrs, t) is Some by {
            assert(t is None);
            assert(st.drop_last() =~= Seq::<SkipState>::empty());
        }
    } else {
        let i = n - 1;
        let a = attrs[i];
        assert(spec_skip_scan_n(attrs, n - 1) is Ok);
        lemma_states_effects(attrs, n - 1);
        let st0 = spec_skip_scan_n(attrs, n - 1)->Ok_0;
        let st = spec_skip_scan_n(attrs, n)->Ok_0;
        let pre = attrs.take(n - 1);
        let cur = attrs.take(n);
        assert(cur.drop_last() =~= pre);
        assert(cur.last() == a);
        assert forall|t: Option<Seq<char>>| #![trigger effect_under(cur, t)] effect_under(cur, t) == join(effect_under(pre, t), effect_of(a, t)) by {}
        assert forall|j: int| 0 <= j < pre.len() implies cur[j] == pre[j] && pre[j] == attrs[j] by {}
        if spec_path_is_ident(a.path, "cfg_attr"@) {
            let p = a.cfg->Args_predicate;
            let inner = a.cfg->Args_attrs;
            let e = spec_inner_effect(inner@)->Ok_0;
            lemma_find_state_range(st0, attrs, Some(p@));
            match find_state(st0, attrs, Some(p@)) {
                Some(k) => {
                    assert(st == add_effect(st0, k, e));
                    assert forall|m: int| 0 <= m < st.len() implies (#[trigger] st[m]).seen == effect_under(
                        cur,
                        key_text(st[m].key, attrs),
                    ) by {
                        assert(effect_under(cur, key_text(st[m].key, attrs)) == join(
                            effect_under(pre, key_text(st[m].key, attrs)),
                            effect_of(a, key_text(st[m].key, attrs)),
                        ));
                        if m != k {
                            assert(key_text(st0[m].key, attrs) != key_text(st0[k].key, attrs));
                        }
                    }
                    assert forall|t: Option<Seq<char>>| cond_present(cur, t) implies find_state(st, attrs, t) is Some by {
                        lemma_find_state_range(st, attrs, t);
                        if !cond_present(pre, t) {
                            let w = choose|w: int| 0 <= w < cur.len() && is_cfg_args(#[trigger] cur[w]) && t == Some(pred_text(cur[w]));
                            if w < pre.len() {
                                assert(pre[w] == cur[w]);
                            }
                            assert(key_text(st[k].key, attrs) == t);
                        } else {
                            lemma_find_state_range(st0, attrs, t);
                            let q = find_state(st0, attrs, t)->Some_0;
                            assert(st[q].key == st0[q].key);
                        }
                    }
                },
                None => {
                    let pushed = st0.push(SkipState { key: Some(i as usize), seen: none_effect() });
                    assert(st == add_effect(pushed, st0.len() as int, e));
                    assert(key_text(Some(i as usize), attrs) == Some(p@));
                    assert(!cond_present(pre, Some(p@))) by {
                        if cond_present(pre, Some(p@)) {
                            assert(find_state(st0, attrs, Some(p@)) is Some);
                        }
                    }
                    lemma_absent_none(pre, Some(p@));
                    assert forall|m: int| 0 <= m < st.len() implies (#[trigger] st[m]).seen == effect_under(
                        cur,
                        key_text(st[m].key, attrs),
                    ) by {
                        assert(effect_under(cur, key_text(st[m].key, attrs)) == join(
                            effect_under(pre, key_text(st[m].key, attrs)),
                            effect_of(a, key_text(st[m].key, attrs)),
                        ));
                        if m < st0.len() {
                            assert(st[m] == st0[m]);
                            assert(key_text(st0[m].key, attrs) != Some(p@));
                        }
                    }
                    assert forall|k1: int, k2: int| 0 <= k1 < st.len() && 0 <= k2 < st.len() && k1 != k2 implies key_text(
                        (#[trigger] st[k1]).key,
                        attrs,
                    ) != key_text((#[trigger] st[k2]).key, attrs) by {
                        if k1 < st0.len() && k2 < st0.len() {
                            assert(st[k1] == st0[k1] && st[k2] == st0[k2]);
                        } else if k1 < st0.len() {
                            assert(st[k1] == st0[k1]);
                        } else {
                            assert(st[k2] == st0[k2]);
                        }
                    }
                    assert forall|t: Option<Seq<char>>| cond_present(cur, t) implies find_state(st, attrs, t) is Some by {
                        lemma_find_state_range(st, attrs, t);
                        if !cond_present(pre, t) {
                            let w = choose|w: int| 0 <= w < cur.len() && is_cfg_args(#[trigger] cur[w]) && t == Some(pred_text(cur[w]));
                            if w < pre.len() {
                                assert(pre[w] == cur[w]);
                            }
                            assert(key_text(st[st0.len() as int].key, attrs) == t);
                        } else {
                            lemma_find_state_range(st0, attrs, t);
                            let q = find_state(st0, attrs, t)->Some_0;
                            assert(st[q].key == st0[q].key);
                        }
                    }
                },
            }
        } else {
            let e = spec_meta_effect(a.path, a.meta)->Ok_0;
            assert(st == add_effect(st0, 0, e));
            assert forall|m: int| 0 <= m < st.len() implies (#[trigger] st[m]).seen == effect_under(
                cur,
                key_text(st[m].key, attrs),
            ) by {
                assert(effect_under(cur, key_text(st[m].key, attrs)) == join(
                    effect_under(pre, key_text(st[m].key, attrs)),
                    effect_of(a, key_text(st[m].key, attrs)),
                ));
            }
            assert forall|t: Option<Seq<char>>| cond_present(cur, t) implies find_state(st, attrs, t) is Some by {
                lemma_find_state_range(st, attrs, t);
                lemma_find_state_range(st0, attrs, t);
                if cond_present(pre, t) {
                    let q = find_state(st0, attrs, t)->Some_0;
                    assert(st[q].key == st0[q].key);
                } else {
                    let w = choose|w: int| 0 <= w < cur.len() && is_cfg_args(#[trigger] cur[w]) && t == Some(pred_text(cur[w]));
                    if w < pre.len() {
                        assert(pre[w] == cur[w]);
                    }
                    assert(false);
                }
            }
        }
    }
}

/// A state that gets a `#[serde(skip)]`: it has seen `#[recallable(skip)]`
/// and no `#[serde(skip)]`.
pub open spec fn gets_skip(s: SkipState) -> bool {
    s.seen.skip && !s.seen.serde_skip
}

/// The skips added for states with distinct conditions: each is under the
/// condition of a state that gets one, each such state gets one, and no two
/// are under the same condition.
proof fn lemma_skip_adds_map(states: Seq<SkipState>, attrs: Seq<AttrModel>, variant: Option<usize>, field: usize)
    requires
        spec_skip_adds(states, variant, field) is Ok,
        forall|k1: int, k2: int| 0 <= k1 < states.len() && 0 <= k2 < states.len() && k1 != k2 ==> key_text(
            (#[trigger] states[k1]).key,
            attrs,
        ) != key_text((#[trigger] states[k2]).key, attrs),
    ensures
        ({
            let adds = spec_skip_adds(states, variant, field)->Ok_0;
            &&& forall|m: int| #![trigger adds[m]] 0 <= m < adds.len() ==> exists|k: int| 0 <= k < states.len() && gets_skip(
                #[trigger] states[k],
            ) && skip_cond(adds[m], attrs) == key_text(states[k].key, attrs)
            &&& forall|k: int| 0 <= k < states.len() && gets_skip(#[trigger] states[k]) ==> exists|m: int|
                0 <= m < adds.len() && skip_cond(#[trigger] adds[m], attrs) == key_text(states[k].key, attrs)
            &&& forall|m1: int, m2: int| 0 <= m1 < m2 < adds.len() ==> skip_cond(#[trigger] adds[m1], attrs)
                != skip_cond(#[trigger] adds[m2], attrs)
        }),
    decreases states.len(),
{
    if states.len() > 0 {
        let p = states.drop_last();
        let n = states.len() - 1;
        assert(states[n] == states.last());
        assert forall|k: int| 0 <= k < p.len() implies p[k] == states[k] by {}
        assert forall|k1: int, k2: int| 0 <= k1 < p.len() && 0 <= k2 < p.len() && k1 != k2 implies key_text(
            (#[trigger] p[k1]).key,
            attrs,
        ) != key_text((#[trigger] p[k2]).key, attrs) by {
            assert(p[k1] == states[k1] && p[k2] == states[k2]);
        }
        lemma_skip_adds_map(p, attrs, variant, field);
        let prev = spec_skip_adds(p, variant, field)->Ok_0;
        let adds = spec_skip_adds(states, variant, field)->Ok_0;
        let last = states.last();
        if gets_skip(last) {
            let add = match last.key {
                None => SerdeSkip::Always,
                Some(j) => SerdeSkip::Under(j),
            };
            assert(adds == prev.push(add));
            assert(skip_cond(add, attrs) == key_text(last.key, attrs));
            assert forall|m: int| #![trigger adds[m]] 0 <= m < adds.len() implies exists|k: int| 0 <= k < states.len() && gets_skip(
                #[trigger] states[k],
            ) && skip_cond(adds[m], attrs) == key_text(states[k].key, attrs) by {
                if m < prev.len() {
                    assert(adds[m] == prev[m]);
                    let k = choose|k: int| 0 <= k < p.len() && gets_skip(#[trigger] p[k]) && skip_cond(prev[m], attrs)
                        == key_text(p[k].key, attrs);
                    assert(p[k] == states[k]);
                } else {
                    assert(adds[m] == add);
                }
            }
            assert forall|k: int| 0 <= k < states.len() && gets_skip(#[trigger] states[k]) implies exists|m: int|
                0 <= m < adds.len() && skip_cond(#[trigger] adds[m], attrs) == key_text(states[k].key, attrs) by {
                if k < p.len() {
                    assert(p[k] == states[k]);
                    let m = choose|m: int| 0 <= m < prev.len() && skip_cond(#[trigger] prev[m], attrs) == key_text(
                        p[k].key,
                        attrs,
                    );
                    assert(adds[m] == prev[m]);
                } else {
                    assert(adds[prev.len() as int] == add);
                }
            }
            assert forall|m1: int, m2: int| 0 <= m1 < m2 < adds.len() implies skip_cond(#[trigger] adds[m1], attrs)
                != skip_cond(#[trigger] adds[m2], attrs) by {
                assert(adds[m1] == prev[m1]);
                if m2 < prev.len() {
                    assert(adds[m2] == prev[m2]);
                } else {
                    let k = choose|k: int| 0 <= k < p.len() && gets_skip(#[trigger] p[k]) && skip_cond(prev[m1], attrs)
                        == key_text(p[k].key, attrs);
                    assert(p[k] == states[k]);
                    assert(key_text(states[k].key, attrs) != key_text(states[n].key, attrs));
                }
            }
        } else {
            assert(adds == prev);
            assert forall|m: int| #![trigger adds[m]] 0 <= m < adds.len() implies exists|k: int| 0 <= k < states.len() && gets_skip(
                #[trigger] states[k],
            ) && skip_cond(adds[m], attrs) == key_text(states[k].key, attrs) by {
                let k = choose|k: int| 0 <= k < p.len() && gets_skip(#[trigger] p[k]) && skip_cond(prev[m], attrs)
                    == key_text(p[k].key, attrs);
                assert(p[k] == states[k]);
            }
            assert forall|k: int| 0 <= k < states.len() && gets_skip(#[trigger] states[k]) implies exists|m: int|
                0 <= m < adds.len() && skip_cond(#[trigger] adds[m], attrs) == key_text(states[k].key, attrs) by {
                assert(k < p.len());
                assert(p[k] == states[k]);
            }
        }
    }
}

/// Under each condition present on a field (always, or the predicate text of
/// one of its `cfg_attr`s), a field whose attributes read without error or
/// conflict gets a `#[serde(skip)]` exactly when some attribute under that
/// condition asks for `#[recallable(skip)]` and none under it is
/// `#[serde(skip)]` already. Every added skip is under a present condition, and
/// no two under the same one.
pub proof fn lemma_cfg_skips_direct(attrs: Seq<AttrModel>, variant: Option<usize>, field: usize)
    requires
        attrs.len() <= usize::MAX,
        spec_serde_skip_attrs(attrs, variant, field) is Ok,
    ensures
        ({
            let adds = spec_serde_skip_attrs(attrs, variant, field)->Ok_0;
            &&& forall|t: Option<Seq<char>>| cond_present(attrs, t) ==> ((exists|m: int|
                0 <= m < adds.len() && skip_cond(#[trigger] adds[m], attrs) == t) <==> (effect_under(attrs, t).skip
                && !effect_under(attrs, t).serde_skip))
            &&& forall|m: int| 0 <= m < adds.len() ==> cond_present(attrs, skip_cond(#[trigger] adds[m], attrs))
            &&& forall|m1: int, m2: int| 0 <= m1 < m2 < adds.len() ==> skip_cond(#[trigger] adds[m1], attrs)
                != skip_cond(#[trigger] adds[m2], attrs)
        }),
{
    let n = attrs.len() as int;
    assert(spec_skip_scan(attrs) is Ok);
    lemma_states_effects(attrs, n);
    assert(attrs.take(n) =~= attrs);
    let st = spec_skip_scan(attrs)->Ok_0;
    let adds = spec_serde_skip_attrs(attrs, variant, field)->Ok_0;
    lemma_skip_adds_map(st, attrs, variant, field);
    assert forall|t: Option<Seq<char>>| cond_present(attrs, t) implies ((exists|m: int|
        0 <= m < adds.len() && skip_cond(#[trigger] adds[m], attrs) == t) <==> (effect_under(attrs, t).skip
        && !effect_under(attrs, t).serde_skip)) by {
        lemma_find_state_range(st, attrs, t);
        let k = find_state(st, attrs, t)->Some_0;
        assert(st[k].seen == effect_under(attrs, t));
        if exists|m: int| 0 <= m < adds.len() && skip_cond(#[trigger] adds[m], attrs) == t {
            let m = choose|m: int| 0 <= m < adds.len() && skip_cond(#[trigger] adds[m], attrs) == t;
            let k2 = choose|k2: int| 0 <= k2 < st.len() && gets_skip(#[trigger] st[k2]) && skip_cond(adds[m], attrs)
                == key_text(st[k2].key, attrs);
            if k2 != k {
                assert(key_text(st[k2].key, attrs) != key_text(st[k].key, attrs));
            }
        }
        if gets_skip(st[k]) {
            let m = choose|m: int| 0 <= m < adds.len() && skip_cond(#[trigger] adds[m], attrs) == key_text(st[k].key, attrs);
            assert(skip_cond(adds[m], attrs) == t);
        }
    }
    assert forall|m: int| 0 <= m < adds.len() implies cond_present(attrs, skip_cond(#[trigger] adds[m], attrs)) by {
        let k = choose|k: int| 0 <= k < st.len() && gets_skip(#[trigger] st[k]) && skip_cond(adds[m], attrs) == key_text(
            st[k].key,
            attrs,
        );
        match st[k].key {
            None => {},
            Some(j) => {
                assert(is_cfg_args(attrs[j as int]));
            },
        }
    }
}

/// The states are well formed: the first is the unconditional one, and every
/// other refers to an earlier `cfg_attr` with parsed arguments.
pub open spec fn states_wf(states: Seq<SkipState>, attrs: Seq<AttrModel>, n: int) -> bool {
    &&& states.len() >= 1
    &&& states[0].key is None
    &&& forall|k: int| 0 <= k < states.len() ==> match (#[trigger] states[k]).key {
        None => k == 0,
        Some(j) => j < n && attrs[j as int].cfg is Args,
    }
}

proof fn lemma_scan_wf(attrs: Seq<AttrModel>, n: int)
    requires
        0 <= n <= attrs.len(),
        attrs.len() <= usize::MAX,
        spec_skip_scan_n(attrs, n) is Ok,
    ensures
        states_wf(spec_skip_scan_n(attrs, n)->Ok_0, attrs, n),
    decreases n,
{
    if n > 0 {
        lemma_scan_wf(attrs, n - 1);
        let states = spec_skip_scan_n(attrs, n - 1)->Ok_0;
        let r = spec_skip_scan_n(attrs, n)->Ok_0;
        let a = attrs[n - 1];
        if spec_path_is_ident(a.path, "cfg_attr"@) {
            match find_state(states, attrs, Some(a.cfg->Args_predicate@)) {
                Some(k) => {
                    lemma_find_state_range(states, attrs, Some(a.cfg->Args_predicate@));
                    assert forall|m: int| 0 <= m < r.len() implies match (#[trigger] r[m]).key {
                        None => m == 0,
                        Some(j) => j < n && attrs[j as int].cfg is Args,
                    } by {
                        assert(r[m].key == states[m].key);
                    }
                },
                None => {
                    let st = states.push(SkipState { key: Some((n - 1) as usize), seen: none_effect() });
                    assert forall|m: int| 0 <= m < r.len() implies match (#[trigger] r[m]).key {
                        None => m == 0,
                        Some(j) => j < n && attrs[j as int].cfg is Args,
                    } by {
                        assert(r[m].key == st[m].key);
                    }
                },
            }
        } else {
            assert forall|m: int| 0 <= m < r.len() implies match (#[trigger] r[m]).key {
                None => m == 0,
                Some(j) => j < n && attrs[j as int].cfg is Args,
            } by {
                assert(r[m].key == states[m].key);
            }
        }
    }
}

proof fn lemma_find_state_range(states: Seq<SkipState>, attrs: Seq<AttrModel>, t: Option<Seq<char>>)
    ensures
        find_state(states, attrs, t) matches Some(k) ==> 0 <= k < states.len() && key_text(states[k].key, attrs) == t,
        find_state(states, attrs, t) is None ==> forall|k: int| 0 <= k < states.len() ==> key_text(#[trigger] states[k].key, attrs) != t,
    decreases states.len(),
{
    if states.len() > 0 {
        lemma_find_state_range(states.drop_last(), attrs, t);
        let p = states.drop_last();
        assert forall|k: int| 0 <= k < p.len() implies p[k] == states[k] by {}
    }
}

fn find_state_exec(states: &Vec<SkipState>, attrs: &Vec<AttrModel>, pred: &String, n: Ghost<int>) -> (r: Option<usize>)
    requires
        states_wf(states@, attrs@, n@),
        n@ <= attrs@.len(),
    ensures
        match find_state(states@, attrs@, Some(pred@)) {
            Some(k) => r == Some(k as usize) && 0 <= k < states@.len(),
            None => r is None,
        },
{
    proof { lemma_find_state_range(states@, attrs@, Some(pred@)); }
    let mut i: usize = 0;
    while i < states.len()
        invariant
            0 <= i <= states@.len(),
            states_wf(states@, attrs@, n@),
            n@ <= attrs@.len(),
            find_state(states@.take(i as int), attrs@, Some(pred@)) is None,
        decreases states@.len() - i,
    {
        assert(states@.take(i + 1).drop_last() == states@.take(i as int));
        assert(states@.take(i + 1).last() == states@[i as int]);
        let st = states[i];
        assert(st == states@[i as int]);
        match st.key {
            None => {},
            Some(j) => {
                match &attrs[j].cfg {
                    CfgArgs::Args { predicate, .. } => {
                        if text_eq(predicate, pred) {
                            proof { lemma_find_state_prefix(states@, attrs@, Some(pred@), i as int + 1); }
                            return Some(i);
                        }
                    },
                    _ => {},
                }
            },
        }
        i = i + 1;
    }
    assert(states@.take(i as int) == states@);
    None
}

proof fn lemma_find_state_prefix(states: Seq<SkipState>, attrs: Seq<AttrModel>, t: Option<Seq<char>>, n: int)
    requires
        0 <= n <= states.len(),
        find_state(states.take(n), attrs, t) is Some,
    ensures
        find_state(states, attrs, t) == find_state(states.take(n), attrs, t),
    decreases states.len() - n,
{
    if n < states.len() {
        assert(states.take(n + 1).drop_last() == states.take(n));
        lemma_find_state_prefix(states, attrs, t, n + 1);
    } else {
        assert(states.take(n) == states);
    }
}

proof fn lemma_skip_scan_err(attrs: Seq<AttrModel>, n: int)
    requires
        0 <= n <= attrs.len(),
        spec_skip_scan_n(attrs, n) is Err,
    ensures
        spec_skip_scan_n(attrs, attrs.len() as int) == spec_skip_scan_n(attrs, n),
    decreases attrs.len() - n,
{
    if n < attrs.len() {
        lemma_skip_scan_err(attrs, n + 1);
    }
}

fn add_effect_exec(states: &mut Vec<SkipState>, k: usize, e: Effect)
    requires
        k < old(states)@.len(),
    ensures
        final(states)@ == add_effect(old(states)@, k as int, e),
{
    let s = states[k];
    let joined = Effect {
        recall: s.seen.recall || e.recall,
        skip: s.seen.skip || e.skip,
        serde_skip: s.seen.serde_skip || e.serde_skip,
    };
    states.set(k, SkipState { key: s.key, seen: joined });
}

/// Reads a field's attributes into per-condition states.
#[verifier::spinoff_prover]
fn skip_scan(attrs: &Vec<AttrModel>) -> (r: Result<Vec<SkipState>, (ErrorKind, usize)>)
    ensures
        match spec_skip_scan(attrs@) {
            Ok(s) => r is Ok && r->Ok_0@ == s,
            Err((k, i)) => r == Err::<Vec<SkipState>, (ErrorKind, usize)>((k, i as usize)),
        },
{
    let mut states: Vec<SkipState> = Vec::new();
    states.push(SkipState { key: None, seen: Effect { recall: false, skip: false, serde_skip: false } });
    let mut i: usize = 0;
    while i < attrs.len()
        invariant
            0 <= i <= attrs@.len(),
            spec_skip_scan_n(attrs@, i as int) == Ok::<Seq<SkipState>, (ErrorKind, int)>(states@),
            states_wf(states@, attrs@, i as int),
        decreases attrs@.len() - i,
    {
        let a = &attrs[i];
        let ghost prev = states@;
        if path_is_ident(&a.path, "cfg_attr") {
            match &a.cfg {
                CfgArgs::Args { predicate, attrs: inner } => {
                    let k = match find_state_exec(&states, attrs, predicate, Ghost(i as int)) {
                        Some(k) => k,
                        None => {
                            states.push(SkipState { key: Some(i), seen: Effect { recall: false, skip: false, serde_skip: false } });
                            states.len() - 1
                        },
                    };
                    match inner_effect(inner) {
                        Err(kind) => {
                            proof { lemma_skip_scan_err(attrs@, i as int + 1); }
                            return Err((kind, i));
                        },
                        Ok(e) => {
                            let ghost st = states@;
                            add_effect_exec(&mut states, k, e);
                            proof {
                                let (st2, k2) = match find_state(prev, attrs@, Some(predicate@)) {
                                    Some(kk) => (prev, kk),
                                    None => (
                                        prev.push(SkipState { key: Some(i as usize), seen: none_effect() }),
                                        prev.len() as int,
                                    ),
                                };
                                assert(st2 == st);
                                assert(k2 == k as int);
                            }
                        },
                    }
                },
                _ => {
                    proof { lemma_skip_scan_err(attrs@, i as int + 1); }
                    return Err((ErrorKind::MalformedCfgAttr, i));
                },
            }
        } else {
            match meta_effect(&a.path, &a.meta) {
                Err(kind) => {
                    proof { lemma_skip_scan_err(attrs@, i as int + 1); }
                    return Err((kind, i));
                },
                Ok(e) => {
                    add_effect_exec(&mut states, 0, e);
                },
            }
        }
        proof { lemma_scan_wf(attrs@, i as int + 1); }
        i = i + 1;
    }
    Ok(states)
}

/// The `#[serde(skip)]` attributes that `#[recallable_model]` adds to a field:
/// one for each condition (unconditional, or a `cfg_attr` predicate) under
/// which the field is `#[recallable(skip)]` but not already `#[serde(skip)]`.
pub fn serde_skip_attrs_to_add(attrs: &Vec<AttrModel>, variant: Option<usize>, field: usize) -> (r: Result<
    Vec<SerdeSkip>,
    Diagnostic,
>)
    ensures
        match spec_serde_skip_attrs(attrs@, variant, field) {
            Ok(s) => r is Ok && r->Ok_0@ == s,
            Err(d) => r == Err::<Vec<SerdeSkip>, Diagnostic>(d),
        },
{
    let states = match skip_scan(attrs) {
        Err((k, i)) => {
            return Err(diag(k, Site::FieldAttr { variant, field, attr: i }));
        },
        Ok(s) => s,
    };
    let mut adds: Vec<SerdeSkip> = Vec::new();
    let mut k: usize = 0;
    while k < states.len()
        invariant
            0 <= k <= states@.len(),
            spec_skip_scan(attrs@) == Ok::<Seq<SkipState>, (ErrorKind, int)>(states@),
            spec_skip_adds(states@.take(k as int), variant, field) == Ok::<Seq<SerdeSkip>, Diagnostic>(adds@),
        decreases states@.len() - k,
    {
        assert(states@.take(k + 1).drop_last() == states@.take(k as int));
        assert(states@.take(k + 1).last() == states@[k as int]);
        let s = states[k];
        if s.seen.recall && s.seen.skip {
            proof { lemma_err_prefix(|t: Seq<SkipState>| spec_skip_adds(t, variant, field), states@, k as int + 1); }
            return Err(diag(ErrorKind::ConflictingRecallableAttrs, Site::Field { variant, field }));
        } else if s.seen.recall && s.seen.serde_skip {
            proof { lemma_err_prefix(|t: Seq<SkipState>| spec_skip_adds(t, variant, field), states@, k as int + 1); }
            let site = match s.key {
                None => Site::Field { variant, field },
                Some(j) => Site::CfgPredicate { variant, field, attr: j },
            };
            return Err(diag(ErrorKind::RecallWithSerdeSkip, site));
        } else if s.seen.skip && !s.seen.serde_skip {
            adds.push(
                match s.key {
                    None => SerdeSkip::Always,
                    Some(j) => SerdeSkip::Under(j),
                },
            );
        }
        k = k + 1;
    }
    assert(states@.take(k as int) == states@);
    Ok(adds)
}


/// A derive path that is serde's `Serialize`: a bare `Serialize` (as imported
/// from serde), or exactly two segments `serde::Serialize` or
/// `serde_derive::Serialize`, with or without a leading `::`.
pub open spec fn spec_is_serde_serialize_path(p: PathModel) -> bool {
    spec_path_is_ident(p, "Serialize"@) || (p.segments@.len() == 2 && (p.segments@[0].ident@ == "serde"@
        || p.segments@[0].ident@ == "serde_derive"@) && p.segments@[1].ident@ == "Serialize"@)
}

/// Whether a derive path names serde's `Serialize`.
pub fn is_serde_serialize_path(p: &PathModel) -> (r: bool)
    ensures
        r == spec_is_serde_serialize_path(*p),
{
    if path_is_ident(p, "Serialize") {
        return true;
    }
    p.segments.len() == 2 && (text_is(&p.segments[0].ident, "serde") || text_is(
        &p.segments[0].ident,
        "serde_derive",
    )) && text_is(&p.segments[1].ident, "Serialize")
}

/// Reading one `derive(...)` list for serde's `Serialize`.
pub open spec fn spec_derive_list_scan(items: Seq<NestedMeta>) -> Result<(), ErrorKind>
    decreases items.len(),
{
    if items.len() == 0 {
        Ok(())
    } else {
        match spec_derive_list_scan(items.drop_last()) {
            Err(e) => Err(e),
            Ok(()) => match items.last() {
                NestedMeta::Malformed(m) => Err(malformed_kind(m)),
                NestedMeta::Item { path, value } => if spec_is_serde_serialize_path(path) {
                    Err(ErrorKind::ManualSerializeDerive)
                } else if value is Absent {
                    Ok(())
                } else {
                    Err(ErrorKind::ExpectedComma)
                },
            },
        }
    }
}

/// Reading the item's `derive` attributes in order: the first manual serde
/// `Serialize` derive (or malformed derive) with its attribute position.
pub open spec fn spec_derive_scan(attrs: Seq<AttrModel>) -> Result<(), (ErrorKind, int)>
    decreases attrs.len(),
{
    if attrs.len() == 0 {
        Ok(())
    } else {
        match spec_derive_scan(attrs.drop_last()) {
            Err(e) => Err(e),
            Ok(()) => {
                let a = attrs.last();
                if !spec_path_is_ident(a.path, "derive"@) {
                    Ok(())
                } else {
                    match a.meta {
                        MetaModel::List(items) => match spec_derive_list_scan(items@) {
                            Ok(()) => Ok(()),
                            Err(k) => Err((k, attrs.len() - 1)),
                        },
                        MetaModel::Path => Err((ErrorKind::DeriveNeedsArgs, attrs.len() - 1)),
                        MetaModel::NameValue => Err((ErrorKind::DeriveNeedsParens, attrs.len() - 1)),
                    }
                }
            },
        }
    }
}

/// The check of the item's derives, as a diagnostic.
pub open spec fn spec_check_no_serialize_derive(attrs: Seq<AttrModel>) -> Result<(), Diagnostic> {
    match spec_derive_scan(attrs) {
        Ok(()) => Ok(()),
        Err((k, i)) => Err(Diagnostic { kind: k, site: Site::ItemAttr { attr: i as usize } }),
    }
}

/// A `derive` entry that the check passes: a plain path that is not serde's
/// `Serialize`.
pub open spec fn derive_entry_ok(m: NestedMeta) -> bool {
    match m {
        NestedMeta::Malformed(_) => false,
        NestedMeta::Item { path, value } => !spec_is_serde_serialize_path(path) && value is Absent,
    }
}

/// An entry that is a path with nothing after it.
pub open spec fn plain_entry(m: NestedMeta) -> bool {
    match m {
        NestedMeta::Malformed(_) => false,
        NestedMeta::Item { value, .. } => value is Absent,
    }
}

/// An attribute that the check passes: not a `derive`, or a `derive(...)`
/// list of such entries.
pub open spec fn derive_attr_ok(a: AttrModel) -> bool {
    !spec_path_is_ident(a.path, "derive"@) || (a.meta is List && forall|j: int|
        0 <= j < a.meta->List_0@.len() ==> derive_entry_ok(#[trigger] a.meta->List_0@[j]))
}

/// A `derive` list passes exactly when each of its entries does; when it fails
/// on a list of plain paths, it fails because of serde's `Serialize`.
pub proof fn lemma_derive_list_direct(items: Seq<NestedMeta>)
    ensures
        spec_derive_list_scan(items) is Ok <==> forall|j: int| 0 <= j < items.len() ==> derive_entry_ok(
            #[trigger] items[j],
        ),
        (forall|j: int| 0 <= j < items.len() ==> plain_entry(#[trigger] items[j])) ==> (spec_derive_list_scan(items) is Err ==> spec_derive_list_scan(items)
            == Err::<(), ErrorKind>(ErrorKind::ManualSerializeDerive)),
    decreases items.len(),
{
    if items.len() > 0 {
        let p = items.drop_last();
        lemma_derive_list_direct(p);
        assert forall|j: int| 0 <= j < p.len() implies p[j] == items[j] by {}
        if spec_derive_list_scan(p) is Ok && derive_entry_ok(items.last()) {
            assert forall|j: int| 0 <= j < items.len() implies derive_entry_ok(#[trigger] items[j]) by {
                if j < p.len() {
                    assert(p[j] == items[j]);
                }
            }
        }
        if forall|j: int| 0 <= j < items.len() ==> plain_entry(#[trigger] items[j]) {
            assert forall|j: int| 0 <= j < p.len() implies plain_entry(#[trigger] p[j]) by {
                assert(p[j] == items[j]);
            }
            assert(items[items.len() - 1] == items.last());
        }
    }
}

/// The check of the item's derives passes exactly when every attribute
/// passes it.
pub proof fn lemma_derive_check_direct(attrs: Seq<AttrModel>)
    ensures
        spec_check_no_serialize_derive(attrs) is Ok <==> forall|i: int| 0 <= i < attrs.len() ==> derive_attr_ok(
            #[trigger] attrs[i],
        ),
    decreases attrs.len(),
{
    if attrs.len() > 0 {
        let p = attrs.drop_last();
        lemma_derive_check_direct(p);
        assert forall|i: int| 0 <= i < p.len() implies p[i] == attrs[i] by {}
        let a = attrs.last();
        match a.meta {
            MetaModel::List(items) => lemma_derive_list_direct(items@),
            _ => {},
        }
        if spec_derive_scan(p) is Ok && derive_attr_ok(a) {
            assert forall|i: int| 0 <= i < attrs.len() implies derive_attr_ok(#[trigger] attrs[i]) by {
                if i < p.len() {
                    assert(p[i] == attrs[i]);
                }
            }
        }
        if forall|i: int| 0 <= i < attrs.len() ==> derive_attr_ok(#[trigger] attrs[i]) {
            assert(derive_attr_ok(attrs[attrs.len() - 1]));
        }
    }
}

fn derive_list_scan(items: &Vec<NestedMeta>) -> (r: Result<(), ErrorKind>)
    ensures
        r == spec_derive_list_scan(items@),
{
    let mut i: usize = 0;
    while i < items.len()
        invariant
            0 <= i <= items@.len(),
            spec_derive_list_scan(items@.take(i as int)) == Ok::<(), ErrorKind>(()),
        decreases items@.len() - i,
    {
        assert(items@.take(i + 1).drop_last() == items@.take(i as int));
        assert(items@.take(i + 1).last() == items@[i as int]);
        let step: Result<(), ErrorKind> = match &items[i] {
            NestedMeta::Malformed(m) => Err(malformed_error(m)),
            NestedMeta::Item { path, value } => {
                if is_serde_serialize_path(path) {
                    Err(ErrorKind::ManualSerializeDerive)
                } else {
                    match value {
                        NestedValue::Absent => Ok(()),
                        _ => Err(ErrorKind::ExpectedComma),
                    }
                }
            },
        };
        match step {
            Ok(()) => {},
            Err(k) => {
                proof { lemma_err_prefix(|t: Seq<NestedMeta>| spec_derive_list_scan(t), items@, i as int + 1); }
                return Err(k);
            },
        }
        i = i + 1;
    }
    assert(items@.take(i as int) == items@);
    Ok(())
}

/// Refuses a manual serde `Serialize` derive on the item (which
/// `#[recallable_model]` adds itself when serde is enabled).
pub fn check_no_serialize_derive(attrs: &Vec<AttrModel>) -> (r: Result<(), Diagnostic>)
    ensures
        r == spec_check_no_serialize_derive(attrs@),
{
    let mut i: usize = 0;
    while i < attrs.len()
        invariant
            0 <= i <= attrs@.len(),
            spec_derive_scan(attrs@.take(i as int)) == Ok::<(), (ErrorKind, int)>(()),
        decreases attrs@.len() - i,
    {
        assert(attrs@.take(i + 1).drop_last() == attrs@.take(i as int));
        assert(attrs@.take(i + 1).last() == attrs@[i as int]);
        let a = &attrs[i];
        if path_is_ident(&a.path, "derive") {
            let step = match &a.meta {
                MetaModel::List(items) => derive_list_scan(items),
                MetaModel::Path => Err(ErrorKind::DeriveNeedsArgs),
                MetaModel::NameValue => Err(ErrorKind::DeriveNeedsParens),
            };
            match step {
                Ok(()) => {},
                Err(k) => {
                    proof { lemma_err_prefix(|t: Seq<AttrModel>| spec_derive_scan(t), attrs@, i as int + 1); }
                    return Err(diag(k, Site::ItemAttr { attr: i }));
                },
            }
        }
        i = i + 1;
    }
    assert(attrs@.take(i as int) == attrs@);
    Ok(())
}

/// `#[recallable_model]` takes no arguments.
pub fn validate_model_attr(args_empty: bool) -> (r: Result<(), Diagnostic>)
    ensures
        r is Ok <==> args_empty,
        !args_empty ==> r == Err::<(), Diagnostic>(
            Diagnostic { kind: ErrorKind::ModelTakesNoArguments, site: Site::ModelArguments },
        ),
{
    if args_empty {
        Ok(())
    } else {
        Err(diag(ErrorKind::ModelTakesNoArguments, Site::ModelArguments))
    }
}

/// What kind of item `#[recallable_model]` was written on.
#[derive(Clone, Copy, Debug, PartialEq, Eq, Structural)]
pub enum SourceItemKind {
    Struct,
    Enum,
    /// Any other item (a function, a union, ...).
    Other,
}

/// `#[recallable_model]` applies to structs and enums only.
pub fn parse_model_item(kind: SourceItemKind) -> (r: Result<(), Diagnostic>)
    ensures
        r is Ok <==> kind != SourceItemKind::Other,
        kind == SourceItemKind::Other ==> r == Err::<(), Diagnostic>(
            Diagnostic { kind: ErrorKind::ModelNotStructOrEnum, site: Site::Item },
        ),
{
    match kind {
        SourceItemKind::Other => Err(diag(ErrorKind::ModelNotStructOrEnum, Site::Item)),
        _ => Ok(()),
    }
}

} // verus!
