//! The struct declaration that a derive reads, as plain values.
use vstd::prelude::*;
use crate::tokens::{toks_view, STok, Tok};

verus! {

/// The kind of a generic parameter.
#[derive(Clone, Copy, PartialEq, Eq, Debug, Structural)]
pub enum ParamKind {
    Lifetime,
    Type,
    Const,
}

/// A generic parameter: its declaration without any default (`T: Clone`,
/// `'a: 'b`, `const N: usize`) and the argument that names it (`T`, `'a`, `N`).
pub struct GenericParam {
    pub kind: ParamKind,
    pub decl: Vec<Tok>,
    pub arg: Vec<Tok>,
}

/// The value of a generic parameter.
pub struct SParam {
    pub kind: ParamKind,
    pub decl: Seq<STok>,
    pub arg: Seq<STok>,
}

impl View for GenericParam {
    type V = SParam;

    open spec fn view(&self) -> SParam {
        SParam { kind: self.kind, decl: toks_view(self.decl@), arg: toks_view(self.arg@) }
    }
}

/// The form of a struct's body.
#[derive(Clone, Copy, PartialEq, Eq, Debug, Structural)]
pub enum Shape {
    /// `struct S { a: A, .. }`
    Named,
    /// `struct S(A, ..);`
    Tuple,
    /// `struct S;`
    Unit,
}

/// One field: its name (none in a tuple struct), its type, and the token
/// contents of each of its attributes (what stands inside `#[..]`).
pub struct FieldDef {
    pub name: Option<String>,
    pub ty: Vec<Tok>,
    pub attrs: Vec<Vec<Tok>>,
}

/// The value of a field.
pub struct SField {
    pub name: Option<Seq<char>>,
    pub ty: Seq<STok>,
    pub attrs: Seq<Seq<STok>>,
}

/// The values of a sequence of token vectors.
pub open spec fn segs_of(v: Seq<Vec<Tok>>) -> Seq<Seq<STok>> {
    v.map_values(|x: Vec<Tok>| toks_view(x@))
}

/// The value of an optional string.
pub open spec fn opt_str(o: Option<String>) -> Option<Seq<char>> {
    match o {
        Some(s) => Some(s@),
        None => None,
    }
}

impl View for FieldDef {
    type V = SField;

    open spec fn view(&self) -> SField {
        SField { name: opt_str(self.name), ty: toks_view(self.ty@), attrs: segs_of(self.attrs@) }
    }
}

/// A struct declaration: name, generic parameters, the predicates of its
/// `where` clause as written, the form of its body, and its fields.
pub struct StructDef {
    pub name: String,
    pub params: Vec<GenericParam>,
    pub where_body: Vec<Tok>,
    pub shape: Shape,
    pub fields: Vec<FieldDef>,
}

/// The value of a struct declaration.
pub struct SStruct {
    pub name: Seq<char>,
    pub params: Seq<SParam>,
    pub where_body: Seq<STok>,
    pub shape: Shape,
    pub fields: Seq<SField>,
}

/// The values of a sequence of generic parameters.
pub open spec fn params_of(v: Seq<GenericParam>) -> Seq<SParam> {
    v.map_values(|p: GenericParam| p@)
}

/// The values of a sequence of fields.
pub open spec fn fields_of(v: Seq<FieldDef>) -> Seq<SField> {
    v.map_values(|f: FieldDef| f@)
}

impl View for StructDef {
    type V = SStruct;

    open spec fn view(&self) -> SStruct {
        SStruct {
            name: self.name@,
            params: params_of(self.params@),
            where_body: toks_view(self.where_body@),
            shape: self.shape,
            fields: fields_of(self.fields@),
        }
    }
}

/// Why a derive refused its input.
pub enum DeriveError {
    /// The item is an `enum` or a `union`; the derives take structs only.
    NotAStruct,
    /// The tokens do not form a struct declaration.
    Malformed,
    /// A `#[wire ..]` or `#[context ..]` attribute is not of the form `name(..)`.
    BadAttribute,
    /// The option inside `wire(..)` or `context(..)` is not one the derive knows.
    UnknownOption,
    /// A field carries more than one `wire` (or `context`) attribute.
    ConflictingOptions,
    /// `Context` was derived on a tuple struct; its fields have no names.
    ContextNeedsNamedFields,
    /// Two wired fields of a context have the same type; holds the second field's name.
    DuplicateContextType(String),
}

/// The value of a derive error.
pub enum SError {
    NotAStruct,
    Malformed,
    BadAttribute,
    UnknownOption,
    ConflictingOptions,
    ContextNeedsNamedFields,
    DuplicateContextType(Seq<char>),
}

impl View for DeriveError {
    type V = SError;

    open spec fn view(&self) -> SError {
        match self {
            DeriveError::NotAStruct => SError::NotAStruct,
            DeriveError::Malformed => SError::Malformed,
            DeriveError::BadAttribute => SError::BadAttribute,
            DeriveError::UnknownOption => SError::UnknownOption,
            DeriveError::ConflictingOptions => SError::ConflictingOptions,
            DeriveError::ContextNeedsNamedFields => SError::ContextNeedsNamedFields,
            DeriveError::DuplicateContextType(s) => SError::DuplicateContextType(s@),
        }
    }
}

} // verus!
