//! Reading `#[recallable(...)]` and `#[serde(...)]` attributes.
use vstd::prelude::*;
use crate::prefix::lemma_err_prefix;
use crate::diag::{Diagnostic, ErrorKind, Site, diag, malformed_error, malformed_kind};
use crate::model::{AttrModel, MetaModel, NestedMeta, NestedValue, PathModel};
use crate::text::text_is;

verus! {

/// `p` is exactly the single identifier `s` (no leading `::`, no arguments).
pub open spec fn spec_path_is_ident(p: PathModel, s: Seq<char>) -> bool {
    &&& !p.leading_colon
    &&& p.segments@.len() == 1
    &&& !p.segments@[0].has_args
    &&& p.segments@[0].ident@ == s
}

/// Whether `p` is exactly the identifier `lit`.
pub fn path_is_ident(p: &PathModel, lit: &str) -> (r: bool)
    ensures
        r == spec_path_is_ident(*p, lit@),
{
    if p.leading_colon || p.segments.len() != 1 || p.segments[0].has_args {
        false
    } else {
        text_is(&p.segments[0].ident, lit)
    }
}

/// How a field is carried into the memento, as its attributes ask.
#[derive(Clone, Copy, Debug, PartialEq, Eq, Structural)]
pub enum FieldBehavior {
    /// No attribute: the field is stored as it is.
    Keep,
    /// `#[recallable]`: the field is stored as its own memento and recalled recursively.
    Recall,
    /// `#[recallable(skip)]`: the field is left out.
    Skip,
}

/// Reading the entries of one field-level `#[recallable(...)]` list: `Ok(saw_skip)`.
/// `skip` is accepted without a value. With `names`, `rename` and `alias` are
/// accepted too, each with a string literal (the serde pass reads them);
/// without it they are unrecognized, as any other entry.
pub open spec fn spec_field_list_scan(items: Seq<NestedMeta>, names: bool) -> Result<bool, ErrorKind>
    decreases items.len(),
{
    if items.len() == 0 {
        Ok(false)
    } else {
        match spec_field_list_scan(items.drop_last(), names) {
            Err(e) => Err(e),
            Ok(saw) => match items.last() {
                NestedMeta::Malformed(m) => Err(malformed_kind(m)),
                NestedMeta::Item { path, value } => if spec_path_is_ident(path, "skip"@) {
                    if value is Absent {
                        Ok(true)
                    } else {
                        Err(ErrorKind::ExpectedComma)
                    }
                } else if names && (spec_path_is_ident(path, "rename"@) || spec_path_is_ident(path, "alias"@)) {
                    match value {
                        NestedValue::Str(_) => Ok(saw),
                        NestedValue::Other => Err(ErrorKind::ExpectedStringLiteral),
                        _ => Err(ErrorKind::ExpectedEquals),
                    }
                } else {
                    Err(ErrorKind::UnrecognizedRecallableParam)
                },
            },
        }
    }
}

/// Reading a field's attributes in order: `Ok((saw_recall, saw_skip))`, or the
/// first error with the position of the attribute that holds it.
pub open spec fn spec_field_attr_scan(attrs: Seq<AttrModel>, names: bool) -> Result<(bool, bool), (ErrorKind, int)>
    decreases attrs.len(),
{
    if attrs.len() == 0 {
        Ok((false, false))
    } else {
        match spec_field_attr_scan(attrs.drop_last(), names) {
            Err(e) => Err(e),
            Ok((recall, skip)) => {
                let a = attrs.last();
                if !spec_path_is_ident(a.path, "recallable"@) {
                    Ok((recall, skip))
                } else {
                    match a.meta {
                        MetaModel::Path => Ok((true, skip)),
                        MetaModel::List(items) => match spec_field_list_scan(items@, names) {
                            Ok(s) => Ok((recall, skip || s)),
                            Err(k) => Err((k, attrs.len() - 1)),
                        },
                        MetaModel::NameValue => Err(
                            (ErrorKind::UnrecognizedRecallableParam, attrs.len() - 1),
                        ),
                    }
                }
            },
        }
    }
}

/// The behavior that a field's attributes select, or the diagnostic they raise.
pub open spec fn spec_field_behavior(attrs: Seq<AttrModel>, variant: Option<usize>, field: usize) -> Result<
    FieldBehavior,
    Diagnostic,
> {
    match spec_field_attr_scan(attrs, false) {
        Err((k, i)) => Err(
            Diagnostic { kind: k, site: Site::FieldAttr { variant, field, attr: i as usize } },
        ),
        Ok((true, true)) => Err(
            Diagnostic { kind: ErrorKind::ConflictingRecallableAttrs, site: Site::Field { variant, field } },
        ),
        Ok((true, false)) => Ok(FieldBehavior::Recall),
        Ok((false, true)) => Ok(FieldBehavior::Skip),
        Ok((false, false)) => Ok(FieldBehavior::Keep),
    }
}

fn field_list_scan(items: &Vec<NestedMeta>, names: bool) -> (r: Result<bool, ErrorKind>)
    ensures
        r == spec_field_list_scan(items@, names),
{
    let mut saw = false;
    let mut i: usize = 0;
    while i < items.len()
        invariant
            0 <= i <= items@.len(),
            spec_field_list_scan(items@.take(i as int), names) == Ok::<bool, ErrorKind>(saw),
        decreases items@.len() - i,
    {
        assert(items@.take(i + 1).drop_last() == items@.take(i as int));
        match &items[i] {
            NestedMeta::Malformed(m) => {
                proof { lemma_err_prefix(|t: Seq<NestedMeta>| spec_field_list_scan(t, names), items@, i as int + 1); }
                return Err(malformed_error(m));
            },
            NestedMeta::Item { path, value } => {
                if path_is_ident(path, "skip") {
                    match value {
                        NestedValue::Absent => {
                            saw = true;
                        },
                        _ => {
                            proof { lemma_err_prefix(|t: Seq<NestedMeta>| spec_field_list_scan(t, names), items@, i as int + 1); }
                            return Err(ErrorKind::ExpectedComma);
                        },
                    }
                } else if names && (path_is_ident(path, "rename") || path_is_ident(path, "alias")) {
                    match value {
                        NestedValue::Str(_) => {},
                        NestedValue::Other => {
                            proof { lemma_err_prefix(|t: Seq<NestedMeta>| spec_field_list_scan(t, names), items@, i as int + 1); }
                            return Err(ErrorKind::ExpectedStringLiteral);
                        },
                        _ => {
                            proof { lemma_err_prefix(|t: Seq<NestedMeta>| spec_field_list_scan(t, names), items@, i as int + 1); }
                            return Err(ErrorKind::ExpectedEquals);
                        },
                    }
                } else {
                    proof { lemma_err_prefix(|t: Seq<NestedMeta>| spec_field_list_scan(t, names), items@, i as int + 1); }
                    return Err(ErrorKind::UnrecognizedRecallableParam);
                }
            },
        }
        i = i + 1;
    }
    assert(items@.take(i as int) == items@);
    Ok(saw)
}

/// Reads a field's `#[recallable]` attributes: whether one is a bare
/// `#[recallable]` and whether one lists `skip`, or the first error and the
/// position of its attribute.
fn field_attr_scan(attrs: &Vec<AttrModel>, names: bool) -> (r: Result<(bool, bool), (ErrorKind, usize)>)
    ensures
        match spec_field_attr_scan(attrs@, names) {
            Ok(v) => r == Ok::<(bool, bool), (ErrorKind, usize)>(v),
            Err((k, i)) => r is Err && r->Err_0.0 == k && r->Err_0.1 as int == i,
        },
{
    let mut recall = false;
    let mut skip = false;
    let mut i: usize = 0;
    while i < attrs.len()
        invariant
            0 <= i <= attrs@.len(),
            spec_field_attr_scan(attrs@.take(i as int), names) == Ok::<(bool, bool), (ErrorKind, int)>(
                (recall, skip),
            ),
        decreases attrs@.len() - i,
    {
        assert(attrs@.take(i + 1).drop_last() == attrs@.take(i as int));
        let a = &attrs[i];
        if path_is_ident(&a.path, "recallable") {
            match &a.meta {
                MetaModel::Path => {
                    recall = true;
                },
                MetaModel::List(items) => {
                    match field_list_scan(items, names) {
                        Ok(s) => {
                            skip = skip || s;
                        },
                        Err(k) => {
                            proof { lemma_err_prefix(|t: Seq<AttrModel>| spec_field_attr_scan(t, names), attrs@, i as int + 1); }
                            return Err((k, i));
                        },
                    }
                },
                MetaModel::NameValue => {
                    proof { lemma_err_prefix(|t: Seq<AttrModel>| spec_field_attr_scan(t, names), attrs@, i as int + 1); }
                    return Err((ErrorKind::UnrecognizedRecallableParam, i));
                },
            }
        }
        i = i + 1;
    }
    assert(attrs@.take(i as int) == attrs@);
    Ok((recall, skip))
}

/// Reads the `#[recallable]` / `#[recallable(skip)]` attributes of a field.
pub fn determine_field_behavior(attrs: &Vec<AttrModel>, variant: Option<usize>, field: usize) -> (r:
    Result<FieldBehavior, Diagnostic>)
    ensures
        r == spec_field_behavior(attrs@, variant, field),
{
    match field_attr_scan(attrs, false) {
        Err((k, i)) => Err(diag(k, Site::FieldAttr { variant, field, attr: i })),
        Ok((true, true)) => Err(diag(ErrorKind::ConflictingRecallableAttrs, Site::Field { variant, field })),
        Ok((true, false)) => Ok(FieldBehavior::Recall),
        Ok((false, true)) => Ok(FieldBehavior::Skip),
        Ok((false, false)) => Ok(FieldBehavior::Keep),
    }
}

/// Whether a field is marked `#[recallable(skip)]` and its attributes are otherwise valid.
pub fn has_recallable_skip_attr(attrs: &Vec<AttrModel>) -> (r: bool)
    ensures
        r == (spec_field_behavior(attrs@, None, 0) == Ok::<FieldBehavior, Diagnostic>(
            FieldBehavior::Skip,
        )),
{
    match determine_field_behavior(attrs, None, 0) {
        Ok(FieldBehavior::Skip) => true,
        _ => false,
    }
}

/// Whether the field's attributes are valid and mark it `#[recallable(skip)]`.
pub open spec fn spec_is_skip_field(attrs: Seq<AttrModel>) -> bool {
    spec_field_attr_scan(attrs, false) == Ok::<(bool, bool), (ErrorKind, int)>((false, true))
}

/// The same, reading `rename` and `alias` entries as the serde pass does.
pub open spec fn spec_is_skip_field_with_names(attrs: Seq<AttrModel>) -> bool {
    spec_field_attr_scan(attrs, true) == Ok::<(bool, bool), (ErrorKind, int)>((false, true))
}

/// Whether a field is marked `#[recallable(skip)]`, reading `rename` and
/// `alias` entries as valid.
pub fn is_skip_field_with_names(attrs: &Vec<AttrModel>) -> (r: bool)
    ensures
        r == spec_is_skip_field_with_names(attrs@),
{
    match field_attr_scan(attrs, true) {
        Ok((false, true)) => true,
        _ => false,
    }
}

/// Reading the entries of an item-level `#[recallable(...)]` list:
/// `Ok(saw_skip_memento_default_derives)`.
pub open spec fn spec_item_list_scan(items: Seq<NestedMeta>) -> Result<bool, ErrorKind>
    decreases items.len(),
{
    if items.len() == 0 {
        Ok(false)
    } else {
        match spec_item_list_scan(items.drop_last()) {
            Err(e) => Err(e),
            Ok(saw) => match items.last() {
                NestedMeta::Malformed(m) => Err(malformed_kind(m)),
                NestedMeta::Item { path, value } => if spec_path_is_ident(
                    path,
                    "skip_memento_default_derives"@,
                ) {
                    if value is Absent {
                        Ok(true)
                    } else {
                        Err(ErrorKind::ExpectedComma)
                    }
                } else if spec_path_is_ident(path, "skip"@) {
                    Err(ErrorKind::SkipIsFieldLevel)
                } else {
                    Err(ErrorKind::UnrecognizedRecallableParam)
                },
            },
        }
    }
}

/// Reading the item's attributes: whether `skip_memento_default_derives` is
/// given, or the first error with the position of its attribute. An item-level
/// `#[recallable]` must carry a parenthesised list.
pub open spec fn spec_item_attr_scan(attrs: Seq<AttrModel>) -> Result<bool, (ErrorKind, int)>
    decreases attrs.len(),
{
    if attrs.len() == 0 {
        Ok(false)
    } else {
        match spec_item_attr_scan(attrs.drop_last()) {
            Err(e) => Err(e),
            Ok(found) => {
                let a = attrs.last();
                if !spec_path_is_ident(a.path, "recallable"@) {
                    Ok(found)
                } else {
                    match a.meta {
                        MetaModel::List(items) => match spec_item_list_scan(items@) {
                            Ok(s) => Ok(found || s),
                            Err(k) => Err((k, attrs.len() - 1)),
                        },
                        MetaModel::Path => Err((ErrorKind::RecallableNeedsArgs, attrs.len() - 1)),
                        MetaModel::NameValue => Err((ErrorKind::RecallableNeedsParens, attrs.len() - 1)),
                    }
                }
            },
        }
    }
}

/// The item-level flag, or the diagnostic on the attribute that breaks it.
pub open spec fn spec_skip_memento_default_derives(attrs: Seq<AttrModel>) -> Result<bool, Diagnostic> {
    match spec_item_attr_scan(attrs) {
        Ok(b) => Ok(b),
        Err((k, i)) => Err(Diagnostic { kind: k, site: Site::ItemAttr { attr: i as usize } }),
    }
}

fn item_list_scan(items: &Vec<NestedMeta>) -> (r: Result<bool, ErrorKind>)
    ensures
        r == spec_item_list_scan(items@),
{
    let mut saw = false;
    let mut i: usize = 0;
    while i < items.len()
        invariant
            0 <= i <= items@.len(),
            spec_item_list_scan(items@.take(i as int)) == Ok::<bool, ErrorKind>(saw),
        decreases items@.len() - i,
    {
        assert(items@.take(i + 1).drop_last() == items@.take(i as int));
        let step: Result<bool, ErrorKind> = match &items[i] {
            NestedMeta::Malformed(m) => Err(malformed_error(m)),
            NestedMeta::Item { path, value } => {
                if path_is_ident(path, "skip_memento_default_derives") {
                    match value {
                        NestedValue::Absent => Ok(true),
                        _ => Err(ErrorKind::ExpectedComma),
                    }
                } else if path_is_ident(path, "skip") {
                    Err(ErrorKind::SkipIsFieldLevel)
                } else {
                    Err(ErrorKind::UnrecognizedRecallableParam)
                }
            },
        };
        match step {
            Ok(_) => {
                saw = true;
            },
            Err(k) => {
                proof { lemma_err_prefix(|t: Seq<NestedMeta>| spec_item_list_scan(t), items@, i as int + 1); }
                return Err(k);
            },
        }
        i = i + 1;
    }
    assert(items@.take(i as int) == items@);
    Ok(saw)
}

/// Reads `#[recallable(skip_memento_default_derives)]` from the item's attributes.
pub fn has_skip_memento_default_derives(attrs: &Vec<AttrModel>) -> (r: Result<bool, Diagnostic>)
    ensures
        r == spec_skip_memento_default_derives(attrs@),
{
    let mut found = false;
    let mut i: usize = 0;
    while i < attrs.len()
        invariant
            0 <= i <= attrs@.len(),
            spec_item_attr_scan(attrs@.take(i as int)) == Ok::<bool, (ErrorKind, int)>(found),
        decreases attrs@.len() - i,
    {
        assert(attrs@.take(i + 1).drop_last() == attrs@.take(i as int));
        let a = &attrs[i];
        if path_is_ident(&a.path, "recallable") {
            match &a.meta {
                MetaModel::List(items) => {
                    match item_list_scan(items) {
                        Ok(s) => {
                            found = found || s;
                        },
                        Err(k) => {
                            proof { lemma_err_prefix(|t: Seq<AttrModel>| spec_item_attr_scan(t), attrs@, i as int + 1); }
                            return Err(diag(k, Site::ItemAttr { attr: i }));
                        },
                    }
                },
                MetaModel::Path => {
                    proof { lemma_err_prefix(|t: Seq<AttrModel>| spec_item_attr_scan(t), attrs@, i as int + 1); }
                    return Err(diag(ErrorKind::RecallableNeedsArgs, Site::ItemAttr { attr: i }));
                },
                MetaModel::NameValue => {
                    proof { lemma_err_prefix(|t: Seq<AttrModel>| spec_item_attr_scan(t), attrs@, i as int + 1); }
                    return Err(diag(ErrorKind::RecallableNeedsParens, Site::ItemAttr { attr: i }));
                },
            }
        }
        i = i + 1;
    }
    assert(attrs@.take(i as int) == attrs@);
    Ok(found)
}


/// Whether a field is skipped does not depend on where its diagnostics would point.
pub proof fn lemma_skip_field_any_site(attrs: Seq<AttrModel>)
    ensures
        (spec_field_behavior(attrs, None, 0) == Ok::<FieldBehavior, Diagnostic>(FieldBehavior::Skip))
            == spec_is_skip_field(attrs),
{
}


/// Reads the entries of one field-level `#[recallable(...)]` list, where only
/// `skip` is recognized.
pub fn read_field_list(items: &Vec<NestedMeta>) -> (r: Result<bool, ErrorKind>)
    ensures
        r == spec_field_list_scan(items@, false),
{
    field_list_scan(items, false)
}

} // verus!
