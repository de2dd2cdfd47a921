//! What the derive decides for a struct: how each field is written.
//!
//! The derive reads the struct's declaration; these types hold, as plain
//! values, the parts of the declaration that it reads.

use vstd::prelude::*;

use crate::document::{Document, Field, FieldValue};
use crate::text::{same_text, trim, trimmed_equals};
use crate::value::TomlValue;

verus! {

/// The last segment of a path type: its identifier, and whether it carries
/// angle-bracketed generic arguments (`Vec<String>`).
pub struct PathSegmentShape {
    pub ident: String,
    pub angle_bracketed: bool,
}

/// The type of a field, as far as the derive reads it.
pub enum TypeShape {
    /// A path type (`a::b::C<..>`), by its last segment (none for an empty path).
    Path(Option<PathSegmentShape>),
    /// Any other type: a reference, a tuple, an array, ...
    Other,
}

/// What follows an attribute's path.
pub enum MetaShape {
    /// `#[name]`
    Path,
    /// `#[name(..)]`, by the text of the tokens inside the brackets.
    List(String),
    /// `#[name = value]`, by the value when it is a string literal.
    NameValue(Option<String>),
}

/// An attribute: its path, when that path is a single identifier, and what
/// follows it. A doc comment `/// text` is the attribute `#[doc = " text"]`.
pub struct AttrShape {
    pub path: Option<String>,
    pub meta: MetaShape,
}

/// A named field of the struct.
pub struct FieldShape {
    pub ident: String,
    pub attrs: Vec<AttrShape>,
    pub ty: TypeShape,
}

/// The fields of a struct.
pub enum FieldsShape {
    Named(Vec<FieldShape>),
    Unnamed,
    Unit,
}

/// What the derive is applied to.
pub enum DataShape {
    Struct(FieldsShape),
    Enum,
    Union,
}

/// The item the derive is applied to.
pub struct DeriveShape {
    pub ident: String,
    pub attrs: Vec<AttrShape>,
    pub data: DataShape,
}

/// How a field is written.
#[derive(PartialEq, Eq, Structural, Debug, Clone, Copy)]
pub enum FieldClass {
    /// A map: one `key = value` line per entry.
    MapEntries,
    /// A nested struct: a `[section]` of its own.
    Section,
    /// An `Option`: `name = value` when present.
    Optional,
    /// Anything else: `name = value`.
    Plain,
}

/// The plan for one field: its name, its doc comment lines, its class.
pub struct FieldPlan {
    pub name: String,
    pub docs: Vec<String>,
    pub class: FieldClass,
}

/// The plan for a struct: its name, its doc comment lines, its fields.
pub struct StructPlan {
    pub name: String,
    pub docs: Vec<String>,
    pub fields: Vec<FieldPlan>,
}

/// The texts of a sequence of strings.
pub open spec fn texts(v: Seq<String>) -> Seq<Seq<char>> {
    v.map_values(|s: String| s@)
}

/// The names of the types that are written inline, never as sections.
pub open spec fn is_leaf_type_name(n: Seq<char>) -> bool {
    ||| n == "bool"@
    ||| n == "u8"@
    ||| n == "u16"@
    ||| n == "u32"@
    ||| n == "u64"@
    ||| n == "u128"@
    ||| n == "i8"@
    ||| n == "i16"@
    ||| n == "i32"@
    ||| n == "i64"@
    ||| n == "i128"@
    ||| n == "f32"@
    ||| n == "f64"@
    ||| n == "usize"@
    ||| n == "isize"@
    ||| n == "String"@
}

/// Whether `name` is one of the leaf type names.
pub fn is_leaf_type(name: &str) -> (r: bool)
    ensures
        r == is_leaf_type_name(name@),
{
    same_text(name, "bool") || same_text(name, "u8") || same_text(name, "u16") || same_text(
        name,
        "u32",
    ) || same_text(name, "u64") || same_text(name, "u128") || same_text(name, "i8") || same_text(
        name,
        "i16",
    ) || same_text(name, "i32") || same_text(name, "i64") || same_text(name, "i128") || same_text(
        name,
        "f32",
    ) || same_text(name, "f64") || same_text(name, "usize") || same_text(name, "isize")
        || same_text(name, "String")
}

/// A path type with a last segment whose identifier is `name`.
pub open spec fn names_type(ty: TypeShape, name: Seq<char>) -> bool {
    ty matches TypeShape::Path(Some(seg)) && seg.ident@ == name
}

/// A type written as a section: a path type whose last segment has no
/// angle-bracketed arguments and is not a leaf type name.
pub open spec fn spec_is_section_type(ty: TypeShape) -> bool {
    ty matches TypeShape::Path(Some(seg)) && !seg.angle_bracketed && !is_leaf_type_name(seg.ident@)
}

/// A type whose last segment is `Option`.
pub open spec fn spec_is_option_type(ty: TypeShape) -> bool {
    names_type(ty, "Option"@)
}

/// A type whose last segment is `HashMap` or `BTreeMap`.
pub open spec fn spec_is_map_type(ty: TypeShape) -> bool {
    names_type(ty, "HashMap"@) || names_type(ty, "BTreeMap"@)
}

/// Whether a field of type `ty` is written as a section.
pub fn is_section_type(ty: &TypeShape) -> (r: bool)
    ensures
        r == spec_is_section_type(*ty),
{
    match ty {
        TypeShape::Path(Some(seg)) => !seg.angle_bracketed && !is_leaf_type(seg.ident.as_str()),
        _ => false,
    }
}

/// Whether a field of type `ty` is an `Option`.
pub fn is_option_type(ty: &TypeShape) -> (r: bool)
    ensures
        r == spec_is_option_type(*ty),
{
    match ty {
        TypeShape::Path(Some(seg)) => same_text(seg.ident.as_str(), "Option"),
        _ => false,
    }
}

/// Whether a field of type `ty` is a `HashMap` or a `BTreeMap`.
pub fn is_map_type(ty: &TypeShape) -> (r: bool)
    ensures
        r == spec_is_map_type(*ty),
{
    match ty {
        TypeShape::Path(Some(seg)) => same_text(seg.ident.as_str(), "HashMap") || same_text(
            seg.ident.as_str(),
            "BTreeMap",
        ),
        _ => false,
    }
}

/// The text of a doc comment attribute (`#[doc = "text"]`), if `a` is one.
pub open spec fn doc_text(a: AttrShape) -> Option<Seq<char>> {
    if a.path matches Some(p) && p@ == "doc"@ {
        match a.meta {
            MetaShape::NameValue(Some(v)) => Some(v@),
            _ => None,
        }
    } else {
        None
    }
}

/// The doc comment texts among the first `n` attributes, in order.
pub open spec fn doc_texts(attrs: Seq<AttrShape>, n: nat) -> Seq<Seq<char>>
    decreases n,
{
    if n == 0 || n > attrs.len() {
        seq![]
    } else {
        let before = doc_texts(attrs, (n - 1) as nat);
        match doc_text(attrs[n - 1]) {
            Some(d) => before.push(d),
            None => before,
        }
    }
}

/// The doc comment texts of a list of attributes, in order.
pub open spec fn docs_of(attrs: Seq<AttrShape>) -> Seq<Seq<char>> {
    doc_texts(attrs, attrs.len())
}

/// The doc comment lines among the attributes, in order.
pub fn extract_docs(attrs: &Vec<AttrShape>) -> (docs: Vec<String>)
    ensures
        texts(docs@) == docs_of(attrs@),
{
    let mut docs: Vec<String> = Vec::new();
    let mut i: usize = 0;
    while i < attrs.len()
        invariant
            i <= attrs@.len(),
            texts(docs@) == doc_texts(attrs@, i as nat),
        decreases attrs@.len() - i,
    {
        let attr = &attrs[i];
        let is_doc = match &attr.path {
            Some(p) => same_text(p.as_str(), "doc"),
            None => false,
        };
        if is_doc {
            if let MetaShape::NameValue(Some(v)) = &attr.meta {
                let ghost before = docs@;
                docs.push(v.clone());
                assert(texts(docs@) =~= texts(before).push(v@));
            }
        }
        i = i + 1;
    }
    docs
}

/// Whether `a` is `#[toml_comment(name)]`, its tokens compared without
/// leading and trailing white space.
pub open spec fn marks(a: AttrShape, name: Seq<char>) -> bool {
    &&& a.path matches Some(p) && p@ == "toml_comment"@
    &&& a.meta matches MetaShape::List(tokens) && trim(tokens@) == name
}

/// Whether one of the attributes is `#[toml_comment(name)]`.
pub fn has_toml_comment_attr(attrs: &Vec<AttrShape>, name: &str) -> (r: bool)
    ensures
        r == exists|i: int| 0 <= i < attrs@.len() && marks(#[trigger] attrs@[i], name@),
{
    let mut i: usize = 0;
    while i < attrs.len()
        invariant
            i <= attrs@.len(),
            forall|k: int| 0 <= k < i ==> !marks(#[trigger] attrs@[k], name@),
        decreases attrs@.len() - i,
    {
        let attr = &attrs[i];
        let named = match &attr.path {
            Some(p) => same_text(p.as_str(), "toml_comment"),
            None => false,
        };
        if named {
            if let MetaShape::List(tokens) = &attr.meta {
                if trimmed_equals(tokens.as_str(), name) {
                    assert(marks(attrs@[i as int], name@));
                    return true;
                }
            }
        }
        i = i + 1;
    }
    false
}

/// How a field of type `ty` is written; `inline` says whether it carries
/// `#[toml_comment(inline)]`. A map or a struct type is written as entries or
/// as a section unless inline; an `Option` is written when present; any
/// other field as `name = value`.
pub open spec fn field_class(ty: TypeShape, inline: bool) -> FieldClass {
    if !inline && spec_is_map_type(ty) {
        FieldClass::MapEntries
    } else if !inline && spec_is_section_type(ty) {
        FieldClass::Section
    } else if spec_is_option_type(ty) {
        FieldClass::Optional
    } else {
        FieldClass::Plain
    }
}

/// Whether a field carries `#[toml_comment(inline)]`.
pub open spec fn is_inline(f: FieldShape) -> bool {
    exists|i: int| 0 <= i < f.attrs@.len() && marks(#[trigger] f.attrs@[i], "inline"@)
}

/// Whether `p` is the plan the derive makes for the field `f`.
pub open spec fn plans_field(p: FieldPlan, f: FieldShape) -> bool {
    &&& p.name@ == f.ident@
    &&& texts(p.docs@) == docs_of(f.attrs@)
    &&& p.class == field_class(f.ty, is_inline(f))
}

/// How the field `f` is written.
pub fn classify_field(f: &FieldShape) -> (p: FieldPlan)
    ensures
        plans_field(p, *f),
{
    let docs = extract_docs(&f.attrs);
    let inline = has_toml_comment_attr(&f.attrs, "inline");
    proof {
        reveal_strlit("inline");
    }
    let class = if !inline && is_map_type(&f.ty) {
        FieldClass::MapEntries
    } else if !inline && is_section_type(&f.ty) {
        FieldClass::Section
    } else if is_option_type(&f.ty) {
        FieldClass::Optional
    } else {
        FieldClass::Plain
    };
    FieldPlan { name: f.ident.clone(), docs, class }
}

/// Whether the derive accepts the item: anything but a struct whose fields
/// are not named (the derive stops with an error on those).
pub open spec fn derivable(input: DeriveShape) -> bool {
    input.data matches DataShape::Struct(fields) ==> fields is Named
}

/// Whether `p` is the plan the derive makes for the struct `input` with the
/// named fields `fields`.
pub open spec fn plans_struct(p: StructPlan, input: DeriveShape, fields: Seq<FieldShape>) -> bool {
    &&& p.name@ == input.ident@
    &&& texts(p.docs@) == docs_of(input.attrs@)
    &&& p.fields@.len() == fields.len()
    &&& forall|i: int| 0 <= i < fields.len() ==> plans_field(#[trigger] p.fields@[i], fields[i])
}

/// The plan the derive makes for an item: `None` for an enum or a union,
/// for which nothing is generated; for a struct with named fields, its doc
/// comment lines and how each field is written.
pub fn plan_derive(input: &DeriveShape) -> (r: Option<StructPlan>)
    requires
        derivable(*input),
    ensures
        r is Some <==> input.data is Struct,
        r matches Some(p) ==> (input.data matches DataShape::Struct(FieldsShape::Named(fields))
            && plans_struct(p, *input, fields@)),
{
    match &input.data {
        DataShape::Struct(FieldsShape::Named(fields)) => {
            let docs = extract_docs(&input.attrs);
            let mut plans: Vec<FieldPlan> = Vec::new();
            let mut i: usize = 0;
            while i < fields.len()
                invariant
                    i <= fields@.len(),
                    plans@.len() == i,
                    forall|k: int| 0 <= k < i ==> plans_field(#[trigger] plans@[k], fields@[k]),
                decreases fields@.len() - i,
            {
                let plan = classify_field(&fields[i]);
                plans.push(plan);
                i = i + 1;
            }
            Some(StructPlan { name: input.ident.clone(), docs, fields: plans })
        },
        _ => None,
    }
}


/// What the generated code has of a field's value at run time: the value it
/// serializes to, whether an `Option` is present (and its value when it is),
/// or the document of a nested struct.
pub enum FieldInput {
    Serialized(TomlValue),
    Present(Option<TomlValue>),
    Nested(Document),
}

/// Whether `input` is the kind of value a field of class `class` has: a
/// serialized value for a map or a plain field, presence for an optional
/// one, a document for a section.
pub open spec fn fits(class: FieldClass, input: FieldInput) -> bool {
    match class {
        FieldClass::MapEntries => input is Serialized,
        FieldClass::Plain => input is Serialized,
        FieldClass::Optional => input is Present,
        FieldClass::Section => input is Nested,
    }
}

/// The field value of class `class` that carries `input`.
pub open spec fn field_value_of(class: FieldClass, input: FieldInput) -> FieldValue
    recommends
        fits(class, input),
{
    match input {
        FieldInput::Serialized(v) => if class == FieldClass::MapEntries {
            FieldValue::MapEntries(v)
        } else {
            FieldValue::Plain(v)
        },
        FieldInput::Present(o) => FieldValue::Optional(o),
        FieldInput::Nested(d) => FieldValue::Section(d),
    }
}

/// The field that the plan `plan` describes, with the value `input`: the
/// plan's name and doc lines, and a value whose variant is the plan's class
/// (`None` when `input` is not the kind of value that class has).
pub fn build_field(plan: FieldPlan, input: FieldInput) -> (r: Option<Field>)
    ensures
        r is Some <==> fits(plan.class, input),
        r matches Some(f) ==> {
            &&& f.name == plan.name
            &&& f.docs == plan.docs
            &&& f.value == field_value_of(plan.class, input)
        },
{
    let FieldPlan { name, docs, class } = plan;
    let value = match (class, input) {
        (FieldClass::MapEntries, FieldInput::Serialized(v)) => FieldValue::MapEntries(v),
        (FieldClass::Plain, FieldInput::Serialized(v)) => FieldValue::Plain(v),
        (FieldClass::Optional, FieldInput::Present(o)) => FieldValue::Optional(o),
        (FieldClass::Section, FieldInput::Nested(d)) => FieldValue::Section(d),
        _ => {
            return None;
        },
    };
    Some(Field { name, docs, value })
}

} // verus!
