//! `rename` / `alias` on memento fields: reading them from `#[recallable(...)]`
//! and `#[serde(...)]`, checking them, and merging the two sources.
use vstd::prelude::*;
use crate::prefix::lemma_err_prefix;
use crate::attrs::{path_is_ident, spec_path_is_ident, spec_is_skip_field_with_names, is_skip_field_with_names};
use crate::diag::{Diagnostic, ErrorKind, Site, diag, malformed_error, malformed_kind};
use crate::model::{AttrModel, FieldModel, MetaModel, NestedMeta, NestedValue, VariantModel};
use crate::text::{texts, opt_text, contains_text, copy_text, text_eq};

verus! {

/// The rename and aliases of one field, from one source or merged.
pub struct SerdeFieldAttrs {
    pub rename: Option<String>,
    pub aliases: Vec<String>,
}

/// A field's rename and aliases as texts.
pub type SerdeView = (Option<Seq<char>>, Seq<Seq<char>>);

impl View for SerdeFieldAttrs {
    type V = SerdeView;

    open spec fn view(&self) -> SerdeView {
        (opt_text(self.rename), texts(self.aliases@))
    }
}

/// No rename and no alias.
pub open spec fn empty_serde() -> SerdeView {
    (None, Seq::empty())
}

impl SerdeFieldAttrs {
    /// No rename and no alias.
    pub fn empty() -> (r: Self)
        ensures
            r@ == empty_serde(),
    {
        let r = SerdeFieldAttrs { rename: None, aliases: Vec::new() };
        assert(r@.1 =~= Seq::<Seq<char>>::empty());
        r
    }
}

/// One entry of a `rename`/`alias` list. `dup` is the error for a second `rename`.
/// Other entries are accepted when they carry no value.
pub open spec fn spec_serde_entry(acc: SerdeView, item: NestedMeta, dup: ErrorKind) -> Result<
    SerdeView,
    ErrorKind,
> {
    match item {
        NestedMeta::Malformed(m) => Err(malformed_kind(m)),
        NestedMeta::Item { path, value } => if spec_path_is_ident(path, "rename"@) {
            match value {
                NestedValue::Str(s) => if acc.0 is Some {
                    Err(dup)
                } else {
                    Ok((Some(s@), acc.1))
                },
                NestedValue::Other => Err(ErrorKind::ExpectedStringLiteral),
                _ => Err(ErrorKind::ExpectedEquals),
            }
        } else if spec_path_is_ident(path, "alias"@) {
            match value {
                NestedValue::Str(s) => Ok((acc.0, acc.1.push(s@))),
                NestedValue::Other => Err(ErrorKind::ExpectedStringLiteral),
                _ => Err(ErrorKind::ExpectedEquals),
            }
        } else if value is Absent {
            Ok(acc)
        } else {
            Err(ErrorKind::ExpectedComma)
        },
    }
}

/// Reading the entries of one list, starting from `acc`.
pub open spec fn spec_serde_list(acc: SerdeView, items: Seq<NestedMeta>, dup: ErrorKind) -> Result<
    SerdeView,
    ErrorKind,
>
    decreases items.len(),
{
    if items.len() == 0 {
        Ok(acc)
    } else {
        match spec_serde_list(acc, items.drop_last(), dup) {
            Err(e) => Err(e),
            Ok(a) => spec_serde_entry(a, items.last(), dup),
        }
    }
}

/// Reading every `#[name(...)]` list among `attrs`, in order, or the first error
/// with the position of its attribute.
pub open spec fn spec_serde_source(attrs: Seq<AttrModel>, name: Seq<char>, dup: ErrorKind) -> Result<
    SerdeView,
    (ErrorKind, int),
>
    decreases attrs.len(),
{
    if attrs.len() == 0 {
        Ok(empty_serde())
    } else {
        match spec_serde_source(attrs.drop_last(), name, dup) {
            Err(e) => Err(e),
            Ok(acc) => {
                let a = attrs.last();
                if spec_path_is_ident(a.path, name) && a.meta is List {
                    match spec_serde_list(acc, a.meta->List_0@, dup) {
                        Ok(r) => Ok(r),
                        Err(k) => Err((k, attrs.len() - 1)),
                    }
                } else {
                    Ok(acc)
                }
            },
        }
    }
}

fn serde_entry(acc: &mut SerdeFieldAttrs, item: &NestedMeta, dup: ErrorKind) -> (r: Result<(), ErrorKind>)
    ensures
        match spec_serde_entry(old(acc)@, *item, dup) {
            Ok(v) => r is Ok && final(acc)@ == v,
            Err(k) => r == Err::<(), ErrorKind>(k),
        },
{
    match item {
        NestedMeta::Malformed(m) => Err(malformed_error(m)),
        NestedMeta::Item { path, value } => {
            if path_is_ident(path, "rename") {
                match value {
                    NestedValue::Str(s) => {
                        if acc.rename.is_some() {
                            Err(dup)
                        } else {
                            acc.rename = Some(copy_text(s));
                            Ok(())
                        }
                    },
                    NestedValue::Other => Err(ErrorKind::ExpectedStringLiteral),
                    _ => Err(ErrorKind::ExpectedEquals),
                }
            } else if path_is_ident(path, "alias") {
                match value {
                    NestedValue::Str(s) => {
                        acc.aliases.push(copy_text(s));
                        assert(texts(acc.aliases@) =~= texts(old(acc).aliases@).push(s@));
                        Ok(())
                    },
                    NestedValue::Other => Err(ErrorKind::ExpectedStringLiteral),
                    _ => Err(ErrorKind::ExpectedEquals),
                }
            } else {
                match value {
                    NestedValue::Absent => Ok(()),
                    _ => Err(ErrorKind::ExpectedComma),
                }
            }
        },
    }
}

/// Reads `rename` / `alias` from the `#[name(...)]` attributes of a field.
fn read_serde_source(
    attrs: &Vec<AttrModel>,
    name: &str,
    dup: ErrorKind,
    variant: Option<usize>,
    field: usize,
) -> (r: Result<SerdeFieldAttrs, Diagnostic>)
    ensures
        match spec_serde_source(attrs@, name@, dup) {
            Ok(v) => r is Ok && r->Ok_0@ == v,
            Err((k, i)) => r == Err::<SerdeFieldAttrs, Diagnostic>(
                Diagnostic { kind: k, site: Site::FieldAttr { variant, field, attr: i as usize } },
            ),
        },
{
    let mut acc = SerdeFieldAttrs::empty();
    let mut i: usize = 0;
    while i < attrs.len()
        invariant
            0 <= i <= attrs@.len(),
            spec_serde_source(attrs@.take(i as int), name@, dup) == Ok::<SerdeView, (ErrorKind, int)>(
                acc@,
            ),
        decreases attrs@.len() - i,
    {
        assert(attrs@.take(i + 1).drop_last() == attrs@.take(i as int));
        let a = &attrs[i];
        if path_is_ident(&a.path, name) {
            match &a.meta {
                MetaModel::List(items) => {
                    let ghost start = acc@;
                    let mut j: usize = 0;
                    while j < items.len()
                        invariant
                            0 <= j <= items@.len(),
                            i < attrs@.len(),
                            spec_serde_source(attrs@.take(i as int), name@, dup) == Ok::<
                                SerdeView,
                                (ErrorKind, int),
                            >(start),
                            spec_path_is_ident(attrs@[i as int].path, name@),
                            attrs@[i as int].meta == MetaModel::List(*items),
                            spec_serde_list(start, items@.take(j as int), dup) == Ok::<
                                SerdeView,
                                ErrorKind,
                            >(acc@),
                        decreases items@.len() - j,
                    {
                        assert(items@.take(j + 1).drop_last() == items@.take(j as int));
                        match serde_entry(&mut acc, &items[j], dup) {
                            Ok(()) => {},
                            Err(k) => {
                                proof {
                                    lemma_err_prefix(|t: Seq<NestedMeta>| spec_serde_list(start, t, dup), items@, j as int + 1);
                                    assert(attrs@.take(i + 1).drop_last() == attrs@.take(i as int));
                                    assert(attrs@.take(i + 1).last() == attrs@[i as int]);
                                    lemma_err_prefix(|t: Seq<AttrModel>| spec_serde_source(t, name@, dup), attrs@, i as int + 1);
                                }
                                return Err(diag(k, Site::FieldAttr { variant, field, attr: i }));
                            },
                        }
                        j = j + 1;
                    }
                    assert(items@.take(j as int) == items@);
                },
                _ => {},
            }
        }
        i = i + 1;
    }
    assert(attrs@.take(i as int) == attrs@);
    Ok(acc)
}

/// Reads `rename` / `alias` from the field's `#[recallable(...)]` attributes.
pub fn parse_recallable_serde_attrs(attrs: &Vec<AttrModel>, variant: Option<usize>, field: usize) -> (r:
    Result<SerdeFieldAttrs, Diagnostic>)
    ensures
        match spec_serde_source(attrs@, "recallable"@, ErrorKind::DuplicateRecallableRename) {
            Ok(v) => r is Ok && r->Ok_0@ == v,
            Err((k, i)) => r == Err::<SerdeFieldAttrs, Diagnostic>(
                Diagnostic { kind: k, site: Site::FieldAttr { variant, field, attr: i as usize } },
            ),
        },
{
    read_serde_source(attrs, "recallable", ErrorKind::DuplicateRecallableRename, variant, field)
}

/// Reads `rename` / `alias` from the field's `#[serde(...)]` attributes.
pub fn parse_serde_attrs(attrs: &Vec<AttrModel>, variant: Option<usize>, field: usize) -> (r: Result<
    SerdeFieldAttrs,
    Diagnostic,
>)
    ensures
        match spec_serde_source(attrs@, "serde"@, ErrorKind::DuplicateSerdeRename) {
            Ok(v) => r is Ok && r->Ok_0@ == v,
            Err((k, i)) => r == Err::<SerdeFieldAttrs, Diagnostic>(
                Diagnostic { kind: k, site: Site::FieldAttr { variant, field, attr: i as usize } },
            ),
        },
{
    read_serde_source(attrs, "serde", ErrorKind::DuplicateSerdeRename, variant, field)
}


/// The texts of `s`, each kept at its first occurrence.
pub open spec fn dedup_texts(s: Seq<Seq<char>>) -> Seq<Seq<char>>
    decreases s.len(),
{
    if s.len() == 0 {
        Seq::empty()
    } else {
        let d = dedup_texts(s.drop_last());
        if d.contains(s.last()) {
            d
        } else {
            d.push(s.last())
        }
    }
}

/// Merging the `#[recallable(...)]` values `rec` with the `#[serde(...)]` values
/// `ser`: the renames must agree where both are given; the aliases are the union
/// of both lists, each text once, in order of first occurrence.
pub open spec fn spec_merge(rec: SerdeView, ser: SerdeView) -> Result<SerdeView, ()> {
    if rec.0 is Some && ser.0 is Some && rec.0 != ser.0 {
        Err(())
    } else {
        Ok((if rec.0 is Some { rec.0 } else { ser.0 }, dedup_texts(rec.1 + ser.1)))
    }
}

/// The message for a `#[serde(rename)]` and a `#[recallable(rename)]` that
/// disagree, naming both values.
pub open spec fn spec_conflicting_rename_message(serde: Seq<char>, recallable: Seq<char>) -> Seq<char> {
    "conflicting `rename` values: `#[serde(rename = \""@ + serde + "\")]` and `#[recallable(rename = \""@
        + recallable + "\")]` must match"@
}

/// Builds the message for renames that disagree.
pub fn conflicting_rename_message(serde: &String, recallable: &String) -> (r: String)
    ensures
        r@ == spec_conflicting_rename_message(serde@, recallable@),
{
    let mut r = "conflicting `rename` values: `#[serde(rename = \"".to_owned();
    r.append(serde.as_str());
    r.append("\")]` and `#[recallable(rename = \"");
    r.append(recallable.as_str());
    r.append("\")]` must match");
    r
}

/// Merges the two sources of a field's rename and aliases.
pub fn merge_field_attrs(
    recallable: SerdeFieldAttrs,
    serde: SerdeFieldAttrs,
    variant: Option<usize>,
    field: usize,
) -> (r: Result<SerdeFieldAttrs, Diagnostic>)
    ensures
        match spec_merge(recallable@, serde@) {
            Ok(v) => r is Ok && r->Ok_0@ == v,
            Err(()) => r == Err::<SerdeFieldAttrs, Diagnostic>(
                Diagnostic { kind: ErrorKind::ConflictingRename, site: Site::Field { variant, field } },
            ),
        },
{
    let ghost rec_v = recallable@;
    let ghost ser_v = serde@;
    let SerdeFieldAttrs { rename: r_rename, aliases: r_aliases } = recallable;
    let SerdeFieldAttrs { rename: s_rename, aliases: s_aliases } = serde;
    let rename = match r_rename {
        Some(r) => {
            match &s_rename {
                Some(s) => {
                    if !text_eq(&r, s) {
                        return Err(diag(ErrorKind::ConflictingRename, Site::Field { variant, field }));
                    }
                },
                None => {},
            }
            Some(r)
        },
        None => s_rename,
    };
    let mut all = r_aliases;
    let mut rest = s_aliases;
    all.append(&mut rest);
    assert(texts(all@) =~= rec_v.1 + ser_v.1);
    let mut aliases: Vec<String> = Vec::new();
    let mut i: usize = 0;
    while i < all.len()
        invariant
            0 <= i <= all@.len(),
            texts(aliases@) == dedup_texts(texts(all@).take(i as int)),
        decreases all@.len() - i,
    {
        assert(texts(all@).take(i + 1).drop_last() == texts(all@).take(i as int));
        assert(texts(all@).take(i + 1).last() == all@[i as int]@);
        if !contains_text(&aliases, &all[i]) {
            let t = copy_text(&all[i]);
            aliases.push(t);
            assert(texts(aliases@) =~= dedup_texts(texts(all@).take(i as int)).push(all@[i as int]@));
        }
        i = i + 1;
    }
    assert(texts(all@).take(i as int) == texts(all@));
    let r = SerdeFieldAttrs { rename, aliases };
    assert(opt_text(r.rename) == (if rec_v.0 is Some { rec_v.0 } else { ser_v.0 }));
    Ok(r)
}

/// Every text occurs once in `dedup_texts(s)`.
pub proof fn lemma_dedup_no_duplicates(s: Seq<Seq<char>>)
    ensures
        dedup_texts(s).no_duplicates(),
    decreases s.len(),
{
    if s.len() > 0 {
        lemma_dedup_no_duplicates(s.drop_last());
    }
}

/// `dedup_texts(s)` holds exactly the texts of `s`.
pub proof fn lemma_dedup_same_texts(s: Seq<Seq<char>>)
    ensures
        forall|t: Seq<char>| dedup_texts(s).contains(t) <==> s.contains(t),
    decreases s.len(),
{
    if s.len() > 0 {
        let p = s.drop_last();
        lemma_dedup_same_texts(p);
        let d = dedup_texts(p);
        let x = s.last();
        assert(s == p.push(x));
        assert forall|t: Seq<char>| dedup_texts(s).contains(t) <==> s.contains(t) by {
            lemma_push_contains(p, x, t);
            if !d.contains(x) {
                lemma_push_contains(d, x, t);
            }
        }
    }
}

proof fn lemma_push_contains(s: Seq<Seq<char>>, x: Seq<char>, t: Seq<char>)
    ensures
        s.push(x).contains(t) <==> (s.contains(t) || t == x),
{
    if s.contains(t) {
        let k = choose|k: int| 0 <= k < s.len() && s[k] == t;
        assert(s.push(x)[k] == t);
    }
    if t == x {
        assert(s.push(x)[s.len() as int] == t);
    }
    if s.push(x).contains(t) {
        let k = choose|k: int| 0 <= k < s.len() + 1 && s.push(x)[k] == t;
        if k < s.len() {
            assert(s[k] == t);
        }
    }
}

/// The aliases of a merge are the union of both sources, each text once.
pub proof fn lemma_merge_aliases(rec: SerdeView, ser: SerdeView)
    requires
        spec_merge(rec, ser) is Ok,
    ensures
        spec_merge(rec, ser)->Ok_0.1.no_duplicates(),
        forall|t: Seq<char>| #[trigger] spec_merge(rec, ser)->Ok_0.1.contains(t) <==> (rec.1.contains(t)
            || ser.1.contains(t)),
{
    let all = rec.1 + ser.1;
    assert(spec_merge(rec, ser)->Ok_0.1 == dedup_texts(all));
    lemma_dedup_no_duplicates(all);
    lemma_dedup_same_texts(all);
    assert forall|t: Seq<char>| all.contains(t) <==> (rec.1.contains(t) || ser.1.contains(t)) by {
        if all.contains(t) {
            let k = choose|k: int| 0 <= k < all.len() && all[k] == t;
            if k < rec.1.len() {
                assert(rec.1[k] == t);
            } else {
                assert(ser.1[k - rec.1.len()] == t);
            }
        }
        if rec.1.contains(t) {
            let k = choose|k: int| 0 <= k < rec.1.len() && rec.1[k] == t;
            assert(all[k] == t);
        }
        if ser.1.contains(t) {
            let k = choose|k: int| 0 <= k < ser.1.len() && ser.1[k] == t;
            assert(all[k + rec.1.len()] == t);
        }
    }
    assert forall|t: Seq<char>| #[trigger] spec_merge(rec, ser)->Ok_0.1.contains(t) <==> (rec.1.contains(t)
        || ser.1.contains(t)) by {
        assert(dedup_texts(all).contains(t) <==> all.contains(t));
        assert(all.contains(t) <==> (rec.1.contains(t) || ser.1.contains(t)));
    }
}


/// Whether a source gives a rename or an alias.
pub open spec fn gives_names(v: SerdeView) -> bool {
    v.0 is Some || v.1.len() > 0
}

/// Checking and merging the names of one field. A parse error ends the whole
/// pass (`Err`); otherwise the field yields its merged names (empty when a check
/// fails) and the diagnostics that its checks raised.
pub open spec fn spec_field_serde(
    field: FieldModel,
    variant: Option<usize>,
    index: usize,
    serde_enabled: bool,
) -> Result<(SerdeView, Seq<Diagnostic>), Diagnostic> {
    let at = Site::Field { variant, field: index };
    match spec_serde_source(field.attrs@, "recallable"@, ErrorKind::DuplicateRecallableRename) {
        Err((k, i)) => Err(
            Diagnostic { kind: k, site: Site::FieldAttr { variant, field: index, attr: i as usize } },
        ),
        Ok(rec) => match spec_serde_source(field.attrs@, "serde"@, ErrorKind::DuplicateSerdeRename) {
            Err((k, i)) => Err(
                Diagnostic {
                    kind: k,
                    site: Site::FieldAttr { variant, field: index, attr: i as usize },
                },
            ),
            Ok(ser) => {
                let e1 = if !serde_enabled && gives_names(rec) {
                    seq![Diagnostic { kind: ErrorKind::SerdeFeatureRequired, site: at }]
                } else {
                    Seq::empty()
                };
                let e2 = if spec_is_skip_field_with_names(field.attrs@) && gives_names(rec) {
                    seq![Diagnostic { kind: ErrorKind::RenameOnSkippedField, site: at }]
                } else {
                    Seq::empty()
                };
                if e1.len() + e2.len() > 0 {
                    Ok((empty_serde(), e1 + e2))
                } else {
                    match spec_merge(rec, ser) {
                        Ok(m) => Ok((m, Seq::empty())),
                        Err(()) => Ok(
                            (
                                empty_serde(),
                                seq![Diagnostic { kind: ErrorKind::ConflictingRename, site: at }],
                            ),
                        ),
                    }
                }
            },
        },
    }
}

/// The pass over a list of fields: per-field names and all diagnostics, in order.
pub open spec fn spec_fields_serde(fields: Seq<FieldModel>, variant: Option<usize>, serde_enabled: bool) -> Result<
    (Seq<SerdeView>, Seq<Diagnostic>),
    Diagnostic,
>
    decreases fields.len(),
{
    if fields.len() == 0 {
        Ok((Seq::empty(), Seq::empty()))
    } else {
        match spec_fields_serde(fields.drop_last(), variant, serde_enabled) {
            Err(d) => Err(d),
            Ok((vs, es)) => match spec_field_serde(
                fields.last(),
                variant,
                (fields.len() - 1) as usize,
                serde_enabled,
            ) {
                Err(d) => Err(d),
                Ok((v, e)) => Ok((vs.push(v), es + e)),
            },
        }
    }
}

/// The names of each field, as texts.
pub open spec fn serde_views(v: Seq<SerdeFieldAttrs>) -> Seq<SerdeView> {
    v.map_values(|a: SerdeFieldAttrs| a@)
}

/// The result of the pass over a struct's fields.
pub open spec fn spec_struct_serde(fields: Seq<FieldModel>, serde_enabled: bool) -> Result<
    Seq<SerdeView>,
    Seq<Diagnostic>,
> {
    match spec_fields_serde(fields, None, serde_enabled) {
        Err(d) => Err(seq![d]),
        Ok((vs, es)) => if es.len() > 0 {
            Err(es)
        } else {
            Ok(vs)
        },
    }
}

fn field_serde(field: &FieldModel, variant: Option<usize>, index: usize, serde_enabled: bool) -> (r: Result<
    (SerdeFieldAttrs, Vec<Diagnostic>),
    Diagnostic,
>)
    ensures
        match spec_field_serde(*field, variant, index, serde_enabled) {
            Ok((v, e)) => r is Ok && r->Ok_0.0@ == v && r->Ok_0.1@ == e,
            Err(d) => r == Err::<(SerdeFieldAttrs, Vec<Diagnostic>), Diagnostic>(d),
        },
{
    let rec = parse_recallable_serde_attrs(&field.attrs, variant, index)?;
    let ser = parse_serde_attrs(&field.attrs, variant, index)?;
    let at = Site::Field { variant, field: index };
    let gives = rec.rename.is_some() || rec.aliases.len() > 0;
    let mut errs: Vec<Diagnostic> = Vec::new();
    if !serde_enabled && gives {
        errs.push(diag(ErrorKind::SerdeFeatureRequired, at));
    }
    if is_skip_field_with_names(&field.attrs) && gives {
        errs.push(diag(ErrorKind::RenameOnSkippedField, at));
    }
    if errs.len() > 0 {
        return Ok((SerdeFieldAttrs::empty(), errs));
    }
    match merge_field_attrs(rec, ser, variant, index) {
        Ok(m) => Ok((m, errs)),
        Err(d) => {
            errs.push(d);
            Ok((SerdeFieldAttrs::empty(), errs))
        },
    }
}

fn fields_serde(
    fields: &Vec<FieldModel>,
    variant: Option<usize>,
    serde_enabled: bool,
    errs: &mut Vec<Diagnostic>,
) -> (r: Result<Vec<SerdeFieldAttrs>, Diagnostic>)
    ensures
        match spec_fields_serde(fields@, variant, serde_enabled) {
            Ok((vs, es)) => r is Ok && serde_views(r->Ok_0@) == vs && final(errs)@ == old(errs)@ + es,
            Err(d) => r == Err::<Vec<SerdeFieldAttrs>, Diagnostic>(d),
        },
{
    let ghost start = errs@;
    let mut out: Vec<SerdeFieldAttrs> = Vec::new();
    let mut i: usize = 0;
    while i < fields.len()
        invariant
            0 <= i <= fields@.len(),
            spec_fields_serde(fields@.take(i as int), variant, serde_enabled) is Ok,
            serde_views(out@) == spec_fields_serde(fields@.take(i as int), variant, serde_enabled)->Ok_0.0,
            errs@ == start + spec_fields_serde(fields@.take(i as int), variant, serde_enabled)->Ok_0.1,
        decreases fields@.len() - i,
    {
        assert(fields@.take(i + 1).drop_last() == fields@.take(i as int));
        assert(fields@.take(i + 1).last() == fields@[i as int]);
        match field_serde(&fields[i], variant, i, serde_enabled) {
            Err(d) => {
                proof { lemma_err_prefix(|t: Seq<FieldModel>| spec_fields_serde(t, variant, serde_enabled), fields@, i as int + 1); }
                return Err(d);
            },
            Ok((v, mut e)) => {
                let ghost prev = errs@;
                let ghost prev_out = out@;
                out.push(v);
                errs.append(&mut e);
                proof {
                    let t = spec_fields_serde(fields@.take(i as int), variant, serde_enabled)->Ok_0;
                    assert(serde_views(out@) =~= serde_views(prev_out).push(out@[prev_out.len() as int]@));
                    assert(errs@ =~= start + (t.1 + spec_field_serde(fields@[i as int], variant, i, serde_enabled)->Ok_0.1));
                }
            },
        }
        i = i + 1;
    }
    assert(fields@.take(i as int) == fields@);
    Ok(out)
}

/// Checks and merges the rename / alias values of every field of a struct.
/// Diagnostics of all fields are gathered; a parse error ends the pass at once.
pub fn analyze_struct_serde_attrs(fields: &Vec<FieldModel>, serde_enabled: bool) -> (r: Result<
    Vec<SerdeFieldAttrs>,
    Vec<Diagnostic>,
>)
    ensures
        match spec_struct_serde(fields@, serde_enabled) {
            Ok(vs) => r is Ok && serde_views(r->Ok_0@) == vs,
            Err(es) => r is Err && r->Err_0@ == es,
        },
{
    let mut errs: Vec<Diagnostic> = Vec::new();
    match fields_serde(fields, None, serde_enabled, &mut errs) {
        Err(d) => {
            let mut one: Vec<Diagnostic> = Vec::new();
            one.push(d);
            Err(one)
        },
        Ok(out) => {
            assert(errs@ =~= Seq::empty() + spec_fields_serde(fields@, None, serde_enabled)->Ok_0.1);
            if errs.len() > 0 {
                Err(errs)
            } else {
                Ok(out)
            }
        },
    }
}

/// The pass over an enum's variants: per-variant, per-field names and all diagnostics.
pub open spec fn spec_variants_serde(variants: Seq<VariantModel>, serde_enabled: bool) -> Result<
    (Seq<Seq<SerdeView>>, Seq<Diagnostic>),
    Diagnostic,
>
    decreases variants.len(),
{
    if variants.len() == 0 {
        Ok((Seq::empty(), Seq::empty()))
    } else {
        match spec_variants_serde(variants.drop_last(), serde_enabled) {
            Err(d) => Err(d),
            Ok((vs, es)) => match spec_fields_serde(
                variants.last().fields@,
                Some((variants.len() - 1) as usize),
                serde_enabled,
            ) {
                Err(d) => Err(d),
                Ok((v, e)) => Ok((vs.push(v), es + e)),
            },
        }
    }
}

/// The result of the pass over an enum.
pub open spec fn spec_enum_serde(variants: Seq<VariantModel>, serde_enabled: bool) -> Result<
    Seq<Seq<SerdeView>>,
    Seq<Diagnostic>,
> {
    match spec_variants_serde(variants, serde_enabled) {
        Err(d) => Err(seq![d]),
        Ok((vs, es)) => if es.len() > 0 {
            Err(es)
        } else {
            Ok(vs)
        },
    }
}

/// The names of each field of each variant, as texts.
pub open spec fn nested_serde_views(v: Seq<Vec<SerdeFieldAttrs>>) -> Seq<Seq<SerdeView>> {
    v.map_values(|f: Vec<SerdeFieldAttrs>| serde_views(f@))
}

/// Checks and merges the rename / alias values of every field of every variant.
pub fn analyze_enum_serde_attrs(variants: &Vec<VariantModel>, serde_enabled: bool) -> (r: Result<
    Vec<Vec<SerdeFieldAttrs>>,
    Vec<Diagnostic>,
>)
    ensures
        match spec_enum_serde(variants@, serde_enabled) {
            Ok(vs) => r is Ok && nested_serde_views(r->Ok_0@) == vs,
            Err(es) => r is Err && r->Err_0@ == es,
        },
{
    let mut errs: Vec<Diagnostic> = Vec::new();
    let mut out: Vec<Vec<SerdeFieldAttrs>> = Vec::new();
    let mut i: usize = 0;
    while i < variants.len()
        invariant
            0 <= i <= variants@.len(),
            spec_variants_serde(variants@.take(i as int), serde_enabled) is Ok,
            nested_serde_views(out@) == spec_variants_serde(variants@.take(i as int), serde_enabled)->Ok_0.0,
            errs@ == spec_variants_serde(variants@.take(i as int), serde_enabled)->Ok_0.1,
        decreases variants@.len() - i,
    {
        assert(variants@.take(i + 1).drop_last() == variants@.take(i as int));
        assert(variants@.take(i + 1).last() == variants@[i as int]);
        let ghost prev = errs@;
        match fields_serde(&variants[i].fields, Some(i), serde_enabled, &mut errs) {
            Err(d) => {
                proof { lemma_err_prefix(|t: Seq<VariantModel>| spec_variants_serde(t, serde_enabled), variants@, i as int + 1); }
                let mut one: Vec<Diagnostic> = Vec::new();
                one.push(d);
                return Err(one);
            },
            Ok(v) => {
                let ghost prev_out = out@;
                out.push(v);
                proof {
                    assert(nested_serde_views(out@) =~= nested_serde_views(prev_out).push(serde_views(out@[prev_out.len() as int]@)));
                }
            },
        }
        i = i + 1;
    }
    assert(variants@.take(i as int) == variants@);
    if errs.len() > 0 {
        Err(errs)
    } else {
        Ok(out)
    }
}


} // verus!
