//! The derive input as plain values: what the generators read of the item
//! that `#[derive(..)]` is applied to, each piece of token text as the token
//! printer writes it.
//!
//! Identifiers (of the item, its fields and variants, and path segments) are
//! held as the parser prints them, and the generators are meant for plain,
//! non-empty identifiers only; for fields, `has_ident` states this, and the
//! generators that read a field's name require it. The derive builds new identifiers from them
//! (`Cli{Name}`, `input_{field}`, ...), and identifier construction refuses
//! text that is not a plain identifier, such as one made from a raw
//! identifier (`input_r#type`); the generators here do not check this, and
//! their text for such input is not what the derive accepts.
use vstd::prelude::*;

use crate::text::{collect_ok, text_from};

verus! {

/// What one token tree at the top level of a group is.
#[derive(PartialEq, Eq, Structural)]
pub enum TokenKind {
    Group,
    Ident,
    Punct,
    Literal,
}

/// One token tree: its kind, its printed text, and, for a punctuation mark,
/// whether it is joined to the next token (as the two marks of `::` are).
pub struct Token {
    pub kind: TokenKind,
    pub text: String,
    pub joint: bool,
}

/// A delimited group of tokens: its printed text with the delimiters, the
/// printed text of its stream (without them), and the token trees of the
/// stream in order.
pub struct TokenGroup {
    pub text: String,
    pub stream_text: String,
    pub tokens: Vec<Token>,
}

/// One token tree of an attribute's argument tokens.
pub enum AttrToken {
    Group(TokenGroup),
    Other(Token),
}

/// An outer attribute `#[path tokens]`: the path when it is a single plain
/// identifier, the token trees after the path, and the printed text of the
/// whole attribute.
pub struct Attribute {
    pub path_ident: Option<String>,
    pub tokens: Vec<AttrToken>,
    pub text: String,
}

/// One segment of a type path: its identifier and, when it has angle
/// bracketed arguments, their printed text.
pub struct PathSegment {
    pub ident: String,
    pub angle_args: Option<String>,
}

/// A type: its printed text and, when it is a path type, the segments of the
/// path.
pub struct FieldType {
    pub text: String,
    pub path: Option<Vec<PathSegment>>,
}

/// A field of a struct or of an enum variant; `ident` is a plain,
/// non-empty identifier when present (see `has_ident`).
pub struct Field {
    pub ident: Option<String>,
    pub ty: FieldType,
    pub attrs: Vec<Attribute>,
}

/// The fields of a struct or of a variant.
pub enum Fields {
    Named(Vec<Field>),
    Unnamed(Vec<Field>),
    Unit,
}

/// An enum variant; `ident` is a plain, non-empty identifier.
pub struct Variant {
    pub ident: String,
    pub attrs: Vec<Attribute>,
    pub fields: Fields,
}

/// The body of the item.
pub enum Data {
    Struct(Fields),
    Enum(Vec<Variant>),
    Union,
}

/// The item that the derive is applied to; `ident` is a plain, non-empty
/// identifier.
pub struct DeriveInput {
    pub ident: String,
    pub attrs: Vec<Attribute>,
    pub data: Data,
}

/// Why a derive stops with an error at the call site.
#[derive(PartialEq, Eq, Structural, Debug)]
pub enum DeriveError {
    /// The item is a union.
    OnlyStructsAndEnums,
    /// A variant has named fields or none.
    OnlyUnnamedFields,
    /// A variant has named fields.
    OnlyUnnamedOrUnitFields,
    /// An attribute's argument is not a delimited group.
    OnlyGroupTokens,
    /// A field's type is a path without segments.
    OnlyPathSegment,
    /// A field's type is not a path.
    OnlyTypePath,
}

/// The message that a derive error is reported with.
pub open spec fn error_message(e: DeriveError) -> Seq<char> {
    match e {
        DeriveError::OnlyStructsAndEnums => "`#[derive(InteractiveClap)]` only supports structs and enums"@,
        DeriveError::OnlyUnnamedFields => "Only option `Fields::Unnamed` is needed"@,
        DeriveError::OnlyUnnamedOrUnitFields => "Only options `Fields::Unnamed` or `Fields::Unit` are needed"@,
        DeriveError::OnlyGroupTokens => "Only option `TokenTree::Group` is needed"@,
        DeriveError::OnlyPathSegment => "Only option `PathSegment` is needed"@,
        DeriveError::OnlyTypePath => "Only option `Type::Path` is needed"@,
    }
}

impl DeriveError {
    /// The message that the error is reported with.
    pub fn message(&self) -> (m: String)
        ensures
            m@ == error_message(*self),
    {
        match self {
            DeriveError::OnlyStructsAndEnums => text_from(
                "`#[derive(InteractiveClap)]` only supports structs and enums",
            ),
            DeriveError::OnlyUnnamedFields => text_from("Only option `Fields::Unnamed` is needed"),
            DeriveError::OnlyUnnamedOrUnitFields => text_from(
                "Only options `Fields::Unnamed` or `Fields::Unit` are needed",
            ),
            DeriveError::OnlyGroupTokens => text_from("Only option `TokenTree::Group` is needed"),
            DeriveError::OnlyPathSegment => text_from("Only option `PathSegment` is needed"),
            DeriveError::OnlyTypePath => text_from("Only option `Type::Path` is needed"),
        }
    }
}

/// The fields as a sequence, whatever their kind.
pub open spec fn fields_of(f: Fields) -> Seq<Field> {
    match f {
        Fields::Named(v) => v@,
        Fields::Unnamed(v) => v@,
        Fields::Unit => Seq::empty(),
    }
}

/// The field has an identifier, and it is not empty (as the parser always
/// gives it).
pub open spec fn has_ident(f: Field) -> bool {
    f.ident matches Some(id) && id@.len() > 0
}

/// Every field has a non-empty identifier (the fields of a named struct).
pub open spec fn all_named(fields: Seq<Field>) -> bool {
    forall|i: int| 0 <= i < fields.len() ==> has_ident(#[trigger] fields[i])
}

/// The first field without a name, if any, comes after a field at which a
/// stage that reads each field's name in order stops with an error; `rs` are
/// the stage's results, field by field.
pub open spec fn named_until_stop(fields: Seq<Field>, rs: Seq<Result<Seq<char>, DeriveError>>) -> bool {
    all_named(fields) || exists|i: int|
        0 <= i < fields.len() && !has_ident(#[trigger] fields[i]) && (forall|j: int|
            0 <= j < i ==> has_ident(#[trigger] fields[j])) && collect_ok(rs.take(i)) is Err
}

/// A stage that has read the names of the fields before the `i`-th without
/// an error finds a name at the `i`-th.
pub proof fn lemma_named_at(fields: Seq<Field>, rs: Seq<Result<Seq<char>, DeriveError>>, i: int)
    requires
        named_until_stop(fields, rs),
        0 <= i < fields.len(),
        forall|j: int| 0 <= j < i ==> has_ident(#[trigger] fields[j]),
        collect_ok(rs.take(i)) is Ok,
    ensures
        has_ident(fields[i]),
{
    if !has_ident(fields[i]) && !all_named(fields) {
        let k = choose|k: int|
            0 <= k < fields.len() && !has_ident(#[trigger] fields[k]) && (forall|j: int|
                0 <= j < k ==> has_ident(#[trigger] fields[j])) && collect_ok(rs.take(k)) is Err;
        if k < i {
            assert(has_ident(fields[k]));
        } else if k > i {
            assert(has_ident(fields[i]));
        }
    }
}

/// The identifier of a field, as text.
pub open spec fn ident_of(f: Field) -> Seq<char> {
    f.ident.unwrap()@
}

/// The attribute's path is the single identifier `name`.
pub open spec fn path_is(a: Attribute, name: Seq<char>) -> bool {
    a.path_ident matches Some(p) && p@ == name
}

/// No tuple variant without fields comes before the first variant that is not
/// a tuple variant: reading the first field of every tuple variant, in order,
/// stays in bounds until a variant of another kind stops the derive.
pub open spec fn tuple_variants_ok(vs: Seq<Variant>) -> bool {
    forall|i: int|
        #![trigger vs[i]]
        0 <= i < vs.len() && (vs[i].fields matches Fields::Unnamed(f) && f@.len() == 0) ==> exists|j: int|
            0 <= j < i && !(#[trigger] vs[j].fields is Unnamed)
}

/// The printed type of the first field of a tuple variant.
pub open spec fn first_field_type(v: Variant) -> Seq<char> {
    match v.fields {
        Fields::Unnamed(f) => f@[0].ty.text@,
        _ => Seq::empty(),
    }
}

/// The printed type of the first field of a tuple variant, when the variant
/// has one; the error that stops the derive when the variant is not a tuple
/// variant.
pub fn variant_first_type(v: &Variant) -> (r: Result<&String, DeriveError>)
    requires
        v.fields matches Fields::Unnamed(f) ==> f@.len() > 0,
    ensures
        v.fields is Unnamed <==> r is Ok,
        r matches Ok(t) ==> t@ == first_field_type(*v),
        r matches Err(e) ==> e == DeriveError::OnlyUnnamedFields,
{
    match &v.fields {
        Fields::Unnamed(f) => Ok(&f[0].ty.text),
        _ => Err(DeriveError::OnlyUnnamedFields),
    }
}

/// The identifier of a field that has one.
pub fn field_ident(f: &Field) -> (id: &String)
    requires
        f.ident is Some,
    ensures
        id@ == ident_of(*f),
{
    match &f.ident {
        Some(id) => id,
        None => unreached(),
    }
}

} // verus!
