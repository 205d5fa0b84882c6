//! The plain description of a derive input that the analysis reads.
//!
//! Attributes are described at the level of parsed meta items, types by the
//! facts the analysis looks at (their path shape and the generic names they
//! mention), and generics by the names and mentions of each parameter and
//! where-predicate.
use vstd::prelude::*;

verus! {

/// One segment of a path; `has_args` when it carries generic or call arguments.
pub struct Segment {
    pub ident: String,
    pub has_args: bool,
}

/// A path such as `serde::Serialize` or `::core::marker::PhantomData<T>`.
pub struct PathModel {
    pub leading_colon: bool,
    pub segments: Vec<Segment>,
}

/// What follows the path of a nested meta item.
pub enum NestedValue {
    /// Nothing: `skip`.
    Absent,
    /// A string literal value: `rename = "wire"`.
    Str(String),
    /// Another value: `rename = 3`.
    Other,
    /// A parenthesised group, `skip(x)`, or other tokens that are not `= value`.
    Group,
}

/// Where an argument list stops reading as entries.
#[derive(Clone, Copy, Debug, PartialEq, Eq, Structural)]
pub enum Malformation {
    /// The list is empty.
    Empty,
    /// A literal stands where an entry's path should.
    Literal,
    /// Another token stands where an entry's path should.
    Token,
    /// An entry is followed by tokens that are not a comma.
    MissingComma,
}

/// One comma-separated entry of an attribute's argument list.
pub enum NestedMeta {
    Item { path: PathModel, value: NestedValue },
    /// Tokens that do not read as an entry; the rest of the list is not read.
    Malformed(Malformation),
}

/// The shape of an attribute's meta.
pub enum MetaModel {
    /// `#[name]`
    Path,
    /// `#[name(...)]`
    List(Vec<NestedMeta>),
    /// `#[name = ...]`
    NameValue,
}

/// An attribute inside `cfg_attr(predicate, ...)`.
pub struct InnerAttr {
    pub path: PathModel,
    pub meta: MetaModel,
}

/// The arguments of a `cfg_attr` attribute.
pub enum CfgArgs {
    /// The attribute is not a `cfg_attr`.
    NotCfg,
    /// `cfg_attr(predicate, attrs...)`; `predicate` is its token text.
    Args { predicate: String, attrs: Vec<InnerAttr> },
    /// A `cfg_attr` whose arguments do not parse.
    Malformed,
}

/// An attribute written on the item or on a field.
pub struct AttrModel {
    pub path: PathModel,
    pub meta: MetaModel,
    pub cfg: CfgArgs,
}

/// A place in a type or bound where a generic parameter may be named.
pub enum Mention {
    /// A lifetime `'a`.
    Lifetime(String),
    /// A type path without qualified self, by its first segment. `bare_single`
    /// when the path is one segment without arguments; `in_angle_args` when it
    /// stands inside angle-bracketed generic arguments.
    TypePath { first: String, bare_single: bool, in_angle_args: bool },
    /// A one-segment expression path without qualified self.
    ExprPath(String),
}

/// The outer form of a type.
pub enum TypeKind {
    Path { qself: bool, path: PathModel },
    Other,
}

/// A type: its token text (types are the same when their texts are), its
/// outer form, and every mention of a name inside it, in visiting order.
pub struct TypeModel {
    pub text: String,
    pub kind: TypeKind,
    pub mentions: Vec<Mention>,
}

/// The kind of a generic parameter.
#[derive(Clone, Copy, Debug, PartialEq, Eq, Structural)]
pub enum ParamKind {
    Lifetime,
    Type,
    Const,
}

/// A generic parameter: its kind, its name, and the mentions in the whole
/// parameter (its own name, bounds, type and default).
pub struct GenericParamModel {
    pub kind: ParamKind,
    pub name: String,
    pub mentions: Vec<Mention>,
}

/// A where-predicate, by the mentions in it.
pub struct WherePredModel {
    pub mentions: Vec<Mention>,
}

/// Generic parameters and the where-clause, if one is written.
pub struct GenericsModel {
    pub params: Vec<GenericParamModel>,
    pub where_clause: Option<Vec<WherePredModel>>,
}

/// How fields are written.
#[derive(Clone, Copy, Debug, PartialEq, Eq, Structural)]
pub enum Shape {
    Named,
    Unnamed,
    Unit,
}

/// A field: its name (for named fields), type and attributes.
pub struct FieldModel {
    pub name: Option<String>,
    pub ty: TypeModel,
    pub attrs: Vec<AttrModel>,
}

/// An enum variant.
pub struct VariantModel {
    pub name: String,
    pub shape: Shape,
    pub fields: Vec<FieldModel>,
}

/// The body of the item.
pub enum ItemData {
    Struct { shape: Shape, fields: Vec<FieldModel> },
    Enum { variants: Vec<VariantModel> },
    Union,
}

/// The visibility written on an item.
pub enum Visibility {
    /// None written: private to the module.
    Inherited,
    /// `pub`.
    Public,
    /// A restricted `pub(...)`, by its token text.
    Restricted(String),
}

/// A derive input.
pub struct ItemModel {
    pub vis: Visibility,
    pub name: String,
    pub attrs: Vec<AttrModel>,
    pub generics: GenericsModel,
    pub data: ItemData,
}

} // verus!
