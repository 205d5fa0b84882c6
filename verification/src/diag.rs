//! Diagnostics reported by the analysis passes.
use vstd::prelude::*;
use crate::model::Malformation;

verus! {

/// What went wrong.
#[derive(Clone, Copy, Debug, PartialEq, Eq, Structural)]
pub enum ErrorKind {
    /// The derive input is a union.
    NotStructOrEnum,
    /// An unknown parameter inside `#[recallable(...)]`.
    UnrecognizedRecallableParam,
    /// `skip` written on the item instead of a field.
    SkipIsFieldLevel,
    /// Both `#[recallable]` and `#[recallable(skip)]` on one field.
    ConflictingRecallableAttrs,
    /// A `#[recallable]` field whose type is not a path type.
    OnlyPathTypes,
    /// A non-skipped field borrows one of the item's lifetimes.
    BorrowedField,
    /// An enum `Recall` derive over a variant field that is not assignment-only.
    EnumRecallManualOnly,
    /// `#[recallable_model]` on an enum with a field that is not assignment-only.
    EnumModelManualOnly,
    /// An entry followed by tokens that are not a comma, or a value after an
    /// entry that takes none.
    ExpectedComma,
    /// `rename` or `alias` without `= value`.
    ExpectedEquals,
    /// An empty argument list.
    ExpectedNestedAttribute,
    /// A literal where an entry's path should stand.
    UnexpectedLiteral,
    /// Another token where an entry's path should stand.
    UnexpectedToken,
    /// An item-level `#[recallable]` without an argument list.
    RecallableNeedsArgs,
    /// An item-level `#[recallable = ...]`.
    RecallableNeedsParens,
    /// A `#[derive]` without an argument list.
    DeriveNeedsArgs,
    /// A `#[derive = ...]`.
    DeriveNeedsParens,
    /// A `cfg_attr` whose arguments do not parse.
    MalformedCfgAttr,
    /// A `rename` or `alias` value that is not a string literal.
    ExpectedStringLiteral,
    /// `rename` given twice in `#[recallable(...)]`.
    DuplicateRecallableRename,
    /// `rename` given twice in `#[serde(...)]`.
    DuplicateSerdeRename,
    /// `rename` / `alias` in `#[recallable(...)]` without the serde feature.
    SerdeFeatureRequired,
    /// `rename` / `alias` on a `#[recallable(skip)]` field.
    RenameOnSkippedField,
    /// `#[serde(rename)]` and `#[recallable(rename)]` disagree.
    ConflictingRename,
    /// `#[recallable_model]` was given arguments.
    ModelTakesNoArguments,
    /// `#[recallable_model]` on something other than a struct or enum.
    ModelNotStructOrEnum,
    /// A manual serde `Serialize` derive next to `#[recallable_model]`.
    ManualSerializeDerive,
    /// `#[recallable]` and `#[serde(skip)]` under the same condition.
    RecallWithSerdeSkip,
}

/// Where a diagnostic points. `variant` is `None` for struct fields.
#[derive(Clone, Copy, Debug, PartialEq, Eq, Structural)]
pub enum Site {
    /// The whole item.
    Item,
    /// The item's name.
    ItemName,
    /// An attribute of the item, by position.
    ItemAttr { attr: usize },
    /// A field.
    Field { variant: Option<usize>, field: usize },
    /// The type of a field.
    FieldType { variant: Option<usize>, field: usize },
    /// An attribute of a field, by position.
    FieldAttr { variant: Option<usize>, field: usize, attr: usize },
    /// The arguments given to `#[recallable_model]`.
    ModelArguments,
    /// The predicate of a field's `cfg_attr`, by attribute position.
    CfgPredicate { variant: Option<usize>, field: usize, attr: usize },
}

/// A diagnostic: its kind and where it points.
#[derive(Clone, Copy, Debug, PartialEq, Eq, Structural)]
pub struct Diagnostic {
    pub kind: ErrorKind,
    pub site: Site,
}

/// Builds a diagnostic.
pub fn diag(kind: ErrorKind, site: Site) -> (d: Diagnostic)
    ensures
        d == (Diagnostic { kind, site }),
{
    Diagnostic { kind, site }
}

/// The error that reading an argument list meets at a malformation.
pub open spec fn malformed_kind(m: Malformation) -> ErrorKind {
    match m {
        Malformation::Empty => ErrorKind::ExpectedNestedAttribute,
        Malformation::Literal => ErrorKind::UnexpectedLiteral,
        Malformation::Token => ErrorKind::UnexpectedToken,
        Malformation::MissingComma => ErrorKind::ExpectedComma,
    }
}

/// The error for a malformation.
pub fn malformed_error(m: &Malformation) -> (k: ErrorKind)
    ensures
        k == malformed_kind(*m),
{
    match m {
        Malformation::Empty => ErrorKind::ExpectedNestedAttribute,
        Malformation::Literal => ErrorKind::UnexpectedLiteral,
        Malformation::Token => ErrorKind::UnexpectedToken,
        Malformation::MissingComma => ErrorKind::ExpectedComma,
    }
}

/// The text reported for each kind of diagnostic.
pub open spec fn spec_message(k: ErrorKind) -> Seq<char> {
    match k {
        ErrorKind::NotStructOrEnum => "This derive macro can only be applied to structs or enums"@,
        ErrorKind::UnrecognizedRecallableParam => "unrecognized `recallable` parameter"@,
        ErrorKind::SkipIsFieldLevel => "`skip` is a field-level attribute, not a struct-level attribute"@,
        ErrorKind::ConflictingRecallableAttrs => "conflicting `recallable` attributes: choose exactly one of `#[recallable]` or `#[recallable(skip)]`"@,
        ErrorKind::OnlyPathTypes => "Only path types are supported here"@,
        ErrorKind::BorrowedField => "Recall derives do not support borrowed fields"@,
        ErrorKind::EnumRecallManualOnly => "enum `Recall` derive requires assignment-only variant fields; derive `Recallable` and implement `Recall` or `TryRecall` manually"@,
        ErrorKind::EnumModelManualOnly => "`#[recallable_model]` on enums requires assignment-only variants; complex enums should derive `Recallable` and implement `Recall` or `TryRecall` manually"@,
        ErrorKind::ExpectedComma => "expected `,`"@,
        ErrorKind::ExpectedEquals => "expected `=`"@,
        ErrorKind::ExpectedNestedAttribute => "expected nested attribute"@,
        ErrorKind::UnexpectedLiteral => "unexpected literal in nested attribute, expected ident"@,
        ErrorKind::UnexpectedToken => "unexpected token in nested attribute, expected ident"@,
        ErrorKind::RecallableNeedsArgs => "expected attribute arguments in parentheses: #[recallable(...)]"@,
        ErrorKind::RecallableNeedsParens => "expected parentheses: #[recallable(...)]"@,
        ErrorKind::DeriveNeedsArgs => "expected attribute arguments in parentheses: #[derive(...)]"@,
        ErrorKind::DeriveNeedsParens => "expected parentheses: #[derive(...)]"@,
        ErrorKind::MalformedCfgAttr => "expected `cfg_attr(predicate, attributes...)`"@,
        ErrorKind::ExpectedStringLiteral => "expected string literal"@,
        ErrorKind::DuplicateRecallableRename => "duplicate `rename` in `#[recallable(...)]`"@,
        ErrorKind::DuplicateSerdeRename => "duplicate `rename` in `#[serde(...)]`"@,
        ErrorKind::SerdeFeatureRequired => "`rename` and `alias` in `#[recallable(...)]` require the `serde` feature"@,
        ErrorKind::RenameOnSkippedField => "`rename` and `alias` cannot be used on a `#[recallable(skip)]` field"@,
        ErrorKind::ConflictingRename => "conflicting `rename` values: `#[serde(rename)]` and `#[recallable(rename)]` must match"@,
        ErrorKind::ModelTakesNoArguments => "`#[recallable_model]` does not accept arguments"@,
        ErrorKind::ModelNotStructOrEnum => "`#[recallable_model]` can only be applied to structs or enums"@,
        ErrorKind::ManualSerializeDerive => "`#[recallable_model]` already derives `serde::Serialize` when the `serde` feature is enabled — remove the manual `Serialize` derive"@,
        ErrorKind::RecallWithSerdeSkip => "`#[recallable]` cannot coexist with `#[serde(skip)]` on the same field"@,
    }
}

impl ErrorKind {
    /// The message reported for this kind.
    pub fn message(&self) -> (r: String)
        ensures
            r@ == spec_message(*self),
    {
        match self {
            ErrorKind::NotStructOrEnum => "This derive macro can only be applied to structs or enums".to_owned(),
            ErrorKind::UnrecognizedRecallableParam => "unrecognized `recallable` parameter".to_owned(),
            ErrorKind::SkipIsFieldLevel => "`skip` is a field-level attribute, not a struct-level attribute".to_owned(),
            ErrorKind::ConflictingRecallableAttrs => "conflicting `recallable` attributes: choose exactly one of `#[recallable]` or `#[recallable(skip)]`".to_owned(),
            ErrorKind::OnlyPathTypes => "Only path types are supported here".to_owned(),
            ErrorKind::BorrowedField => "Recall derives do not support borrowed fields".to_owned(),
            ErrorKind::EnumRecallManualOnly => "enum `Recall` derive requires assignment-only variant fields; derive `Recallable` and implement `Recall` or `TryRecall` manually".to_owned(),
            ErrorKind::EnumModelManualOnly => "`#[recallable_model]` on enums requires assignment-only variants; complex enums should derive `Recallable` and implement `Recall` or `TryRecall` manually".to_owned(),
            ErrorKind::ExpectedComma => "expected `,`".to_owned(),
            ErrorKind::ExpectedEquals => "expected `=`".to_owned(),
            ErrorKind::ExpectedNestedAttribute => "expected nested attribute".to_owned(),
            ErrorKind::UnexpectedLiteral => "unexpected literal in nested attribute, expected ident".to_owned(),
            ErrorKind::UnexpectedToken => "unexpected token in nested attribute, expected ident".to_owned(),
            ErrorKind::RecallableNeedsArgs => "expected attribute arguments in parentheses: #[recallable(...)]".to_owned(),
            ErrorKind::RecallableNeedsParens => "expected parentheses: #[recallable(...)]".to_owned(),
            ErrorKind::DeriveNeedsArgs => "expected attribute arguments in parentheses: #[derive(...)]".to_owned(),
            ErrorKind::DeriveNeedsParens => "expected parentheses: #[derive(...)]".to_owned(),
            ErrorKind::MalformedCfgAttr => "expected `cfg_attr(predicate, attributes...)`".to_owned(),
            ErrorKind::ExpectedStringLiteral => "expected string literal".to_owned(),
            ErrorKind::DuplicateRecallableRename => "duplicate `rename` in `#[recallable(...)]`".to_owned(),
            ErrorKind::DuplicateSerdeRename => "duplicate `rename` in `#[serde(...)]`".to_owned(),
            ErrorKind::SerdeFeatureRequired => "`rename` and `alias` in `#[recallable(...)]` require the `serde` feature".to_owned(),
            ErrorKind::RenameOnSkippedField => "`rename` and `alias` cannot be used on a `#[recallable(skip)]` field".to_owned(),
            ErrorKind::ConflictingRename => "conflicting `rename` values: `#[serde(rename)]` and `#[recallable(rename)]` must match".to_owned(),
            ErrorKind::ModelTakesNoArguments => "`#[recallable_model]` does not accept arguments".to_owned(),
            ErrorKind::ModelNotStructOrEnum => "`#[recallable_model]` can only be applied to structs or enums".to_owned(),
            ErrorKind::ManualSerializeDerive => "`#[recallable_model]` already derives `serde::Serialize` when the `serde` feature is enabled — remove the manual `Serialize` derive".to_owned(),
            ErrorKind::RecallWithSerdeSkip => "`#[recallable]` cannot coexist with `#[serde(skip)]` on the same field".to_owned(),
        }
    }
}

} // verus!
