//! Type expressions: the free-text descriptions of a property's or a
//! parameter's type, and the structured type that each of them denotes.

use crate::index::{index_get, index_insert, index_map_entries, index_new};
use crate::text::{
    char_views, chars_eq, ends_with, from_chars, has_prefix, has_suffix, is_text, split, split_on,
    starts_with, starts_with_text, to_chars, trim, trimmed, views,
};
use vstd::slice::slice_subrange;
use vstd::prelude::*;

verus! {

/// The primitive kinds of the type model.
#[derive(Clone, Copy, Debug, PartialEq, Eq, Structural)]
pub enum PrimitiveKind {
    Int32,
    Int64,
    Boolean,
    String,
    Object,
    Float,
}

/// A structured type, as a type expression denotes it.
#[derive(Debug, PartialEq, Eq)]
pub enum TypeNode {
    /// One of the primitive kinds.
    Primitive { kind: PrimitiveKind },
    /// A string restricted to the listed values, in source order.
    StringEnum { values: Vec<String> },
    /// A base64-encoded string.
    ByteString,
    /// A sequence of items; a set where `unique` holds.
    Array { items: Box<TypeNode>, unique: bool },
    /// An open-ended mapping from keys to values of any type.
    Mapping,
    /// A named schema defined elsewhere.
    Reference { name: String },
}

/// The mathematical value of a `TypeNode`.
pub enum TypeModel {
    Primitive { kind: PrimitiveKind },
    StringEnum { values: Seq<Seq<char>> },
    ByteString,
    Array { items: Box<TypeModel>, unique: bool },
    Mapping,
    Reference { name: Seq<char> },
}

impl View for TypeNode {
    type V = TypeModel;

    open spec fn view(&self) -> TypeModel
        decreases self,
    {
        match self {
            TypeNode::Primitive { kind } => TypeModel::Primitive { kind: *kind },
            TypeNode::StringEnum { values } => TypeModel::StringEnum { values: views(values@) },
            TypeNode::ByteString => TypeModel::ByteString,
            TypeNode::Array { items, unique } => TypeModel::Array {
                items: Box::new((**items).view()),
                unique: *unique,
            },
            TypeNode::Mapping => TypeModel::Mapping,
            TypeNode::Reference { name } => TypeModel::Reference { name: name@ },
        }
    }
}

/// `s` starts with `open`, ends with `close`, and the two do not overlap.
pub open spec fn enclosed(s: Seq<char>, open: Seq<char>, close: Seq<char>) -> bool {
    open.len() + close.len() <= s.len() && has_prefix(s, open) && has_suffix(s, close)
}

/// What stands between `open` and `close` in a sequence that they enclose.
pub open spec fn enclosed_part(s: Seq<char>, open: Seq<char>, close: Seq<char>) -> Seq<char> {
    s.subrange(open.len() as int, s.len() - close.len())
}

/// The enumerated string type of `enum (v1, v2, ...)`: the values are the
/// pieces between the separators `", "`.
pub open spec fn spec_enum_type(s: Seq<char>) -> Option<TypeModel> {
    if enclosed(s, "enum ("@, ")"@) {
        Some(TypeModel::StringEnum { values: split(enclosed_part(s, "enum ("@, ")"@), ", "@) })
    } else {
        None
    }
}

/// The phrase for an array of byte strings denotes one base64 string.
pub open spec fn spec_byte_array(s: Seq<char>) -> Option<TypeModel> {
    if s == "< string(byte) > array"@ {
        Some(TypeModel::ByteString)
    } else {
        None
    }
}

/// The item expression of `List  of X`, and that such an array is no set.
pub open spec fn spec_list_of(s: Seq<char>) -> Option<(Seq<char>, bool)> {
    if has_prefix(s, "List  of "@) {
        Some((s.skip("List  of "@.len() as int), false))
    } else {
        None
    }
}

/// The item expression of `Set  of X`, and that such an array is a set.
pub open spec fn spec_set_of(s: Seq<char>) -> Option<(Seq<char>, bool)> {
    if has_prefix(s, "Set  of "@) {
        Some((s.skip("Set  of "@.len() as int), true))
    } else {
        None
    }
}

/// The item expression of `< X > array`.
pub open spec fn spec_array_type(s: Seq<char>) -> Option<(Seq<char>, bool)> {
    if enclosed(s, "< "@, " > array"@) {
        Some((enclosed_part(s, "< "@, " > array"@), false))
    } else {
        None
    }
}

/// The item expression of `< X > array(csv)`: how the items travel is not
/// part of the type.
pub open spec fn spec_csv_array(s: Seq<char>) -> Option<(Seq<char>, bool)> {
    if enclosed(s, "< "@, " > array(csv)"@) {
        Some((enclosed_part(s, "< "@, " > array(csv)"@), false))
    } else {
        None
    }
}

/// The item expression and the uniqueness of the first array form that
/// matches, in the order list, set, array, csv array.
pub open spec fn spec_array_form(s: Seq<char>) -> Option<(Seq<char>, bool)> {
    if spec_list_of(s) is Some {
        spec_list_of(s)
    } else if spec_set_of(s) is Some {
        spec_set_of(s)
    } else if spec_array_type(s) is Some {
        spec_array_type(s)
    } else {
        spec_csv_array(s)
    }
}

/// The inner expression of an array form is shorter than the whole.
pub proof fn lemma_array_form_shorter(s: Seq<char>)
    ensures
        spec_array_form(s) matches Some((inner, _)) ==> inner.len() < s.len(),
{
    reveal_strlit("List  of ");
    reveal_strlit("Set  of ");
    reveal_strlit("< ");
    reveal_strlit(" > array");
    reveal_strlit(" > array(csv)");
}

/// The expressions that denote an open-ended mapping.
pub open spec fn spec_map_form(s: Seq<char>) -> bool {
    s == "Map"@ || has_prefix(s, "Map  of"@) || has_prefix(s, "Map["@) || s == "Map[<<>>]"@
}

/// The table of literal type names, matched exactly.
pub open spec fn spec_literal_type(s: Seq<char>) -> Option<TypeModel> {
    if s == "Integer"@ || s == "integer(int32)"@ {
        Some(TypeModel::Primitive { kind: PrimitiveKind::Int32 })
    } else if s == "Long"@ || s == "integer(int64)"@ {
        Some(TypeModel::Primitive { kind: PrimitiveKind::Int64 })
    } else if s == "Boolean"@ || s == "boolean"@ {
        Some(TypeModel::Primitive { kind: PrimitiveKind::Boolean })
    } else if s == "Object"@ || s == "[Object]"@ {
        Some(TypeModel::Primitive { kind: PrimitiveKind::Object })
    } else if s == "string"@ || s == "String"@ {
        Some(TypeModel::Primitive { kind: PrimitiveKind::String })
    } else if s == "Stream"@ || s == "InputStream"@ {
        Some(TypeModel::Array { items: Box::new(TypeModel::Mapping), unique: false })
    } else if s == "List"@ {
        Some(
            TypeModel::Array {
                items: Box::new(TypeModel::Primitive { kind: PrimitiveKind::Object }),
                unique: false,
            },
        )
    } else {
        None
    }
}

/// The type that a type expression denotes where one of the structural
/// patterns matches it, and `None` where none does. The patterns are tried in
/// this order, and the first that matches decides: a bracket wrapper `[X]`,
/// which denotes what `X` denotes; an enumeration; the byte-array phrase; the
/// array forms, whose item is the type of the inner expression; the map
/// forms; the table of literal names.
pub open spec fn spec_item_type(s: Seq<char>) -> Option<TypeModel>
    decreases s.len(), 0nat,
{
    if enclosed(s, "["@, "]"@) {
        proof {
            reveal_strlit("[");
            reveal_strlit("]");
        }
        spec_item_type(enclosed_part(s, "["@, "]"@))
    } else if spec_enum_type(s) is Some {
        spec_enum_type(s)
    } else if spec_byte_array(s) is Some {
        spec_byte_array(s)
    } else if spec_array_form(s) is Some {
        let (inner, unique) = spec_array_form(s)->0;
        proof {
            lemma_array_form_shorter(s);
        }
        Some(TypeModel::Array { items: Box::new(spec_parse_type(inner)), unique })
    } else if spec_map_form(s) {
        Some(TypeModel::Mapping)
    } else {
        spec_literal_type(s)
    }
}

/// The type that a type expression denotes: the structured type where a
/// pattern matches, and otherwise a reference to the schema that the
/// expression, without the white space around it, names.
pub open spec fn spec_parse_type(s: Seq<char>) -> TypeModel
    decreases s.len(), 1nat,
{
    match spec_item_type(s) {
        Some(t) => t,
        None => TypeModel::Reference { name: trim(s) },
    }
}

/// A bracket wrapper changes nothing: `[X]` denotes what `X` denotes.
pub proof fn lemma_bracket_wrapper(x: Seq<char>)
    ensures
        spec_item_type("["@ + x + "]"@) == spec_item_type(x),
{
    reveal_strlit("[");
    reveal_strlit("]");
    let s = "["@ + x + "]"@;
    assert(s.subrange(0, 1) == "["@);
    assert(s.subrange(s.len() - 1, s.len() as int) == "]"@);
    assert(enclosed(s, "["@, "]"@));
    assert(enclosed_part(s, "["@, "]"@) == x);
}

/// The model of an optional type.
pub open spec fn option_model(r: Option<TypeNode>) -> Option<TypeModel> {
    match r {
        Some(t) => Some(t@),
        None => None,
    }
}

/// Whether `open` and `close` enclose the slice.
fn is_enclosed(s: &[char], open: &str, close: &str) -> (b: bool)
    ensures
        b == enclosed(s@, open@, close@),
{
    let o = to_chars(open);
    let c = to_chars(close);
    o.len() <= s.len() && c.len() <= s.len() - o.len() && starts_with(s, o.as_slice())
        && ends_with(s, c.as_slice())
}

/// What stands between `open` and `close`.
fn enclosed_slice<'a>(s: &'a [char], open: &str, close: &str) -> (r: &'a [char])
    requires
        enclosed(s@, open@, close@),
    ensures
        r@ == enclosed_part(s@, open@, close@),
{
    let o = to_chars(open);
    let c = to_chars(close);
    slice_subrange(s, o.len(), s.len() - c.len())
}

/// What follows the prefix `open`.
fn after_prefix<'a>(s: &'a [char], open: &str) -> (r: &'a [char])
    requires
        has_prefix(s@, open@),
    ensures
        r@ == s@.skip(open@.len() as int),
{
    let o = to_chars(open);
    slice_subrange(s, o.len(), s.len())
}

/// The strings that hold the given pieces.
fn strings_of(pieces: &Vec<Vec<char>>) -> (r: Vec<String>)
    ensures
        views(r@) == char_views(pieces@),
{
    let mut out: Vec<String> = Vec::new();
    let mut i: usize = 0;
    while i < pieces.len()
        invariant
            i <= pieces.len(),
            out@.len() == i,
            forall|k: int| 0 <= k < i ==> out@[k]@ == pieces@[k]@,
        decreases pieces.len() - i,
    {
        out.push(from_chars(pieces[i].as_slice()));
        i += 1;
    }
    assert(views(out@) == char_views(pieces@));
    out
}

/// Reads `enum (v1, v2, ...)`.
pub fn enum_type(s: &[char]) -> (r: Option<TypeNode>)
    ensures
        option_model(r) == spec_enum_type(s@),
{
    if is_enclosed(s, "enum (", ")") {
        let inner = enclosed_slice(s, "enum (", ")");
        let sep = to_chars(", ");
        proof {
            reveal_strlit(", ");
        }
        let pieces = split_on(inner, sep.as_slice());
        Some(TypeNode::StringEnum { values: strings_of(&pieces) })
    } else {
        None
    }
}

/// Reads the phrase for an array of byte strings.
pub fn byte_array(s: &[char]) -> (r: Option<TypeNode>)
    ensures
        option_model(r) == spec_byte_array(s@),
{
    if is_text(s, "< string(byte) > array") {
        Some(TypeNode::ByteString)
    } else {
        None
    }
}

/// Reads `< X > array`, whose item is the type of `X`.
pub fn array_type(s: &[char]) -> (r: Option<TypeNode>)
    ensures
        match spec_array_type(s@) {
            Some((inner, unique)) => option_model(r) == Some(
                TypeModel::Array { items: Box::new(spec_parse_type(inner)), unique },
            ),
            None => r is None,
        },
    decreases s@.len(), 0nat,
{
    if is_enclosed(s, "< ", " > array") {
        let inner = enclosed_slice(s, "< ", " > array");
        proof {
            reveal_strlit("< ");
        }
        Some(TypeNode::Array { items: Box::new(parse_type_chars(inner)), unique: false })
    } else {
        None
    }
}

/// Reads `< X > array(csv)`, whose item is the type of `X`.
pub fn csv_array(s: &[char]) -> (r: Option<TypeNode>)
    ensures
        match spec_csv_array(s@) {
            Some((inner, unique)) => option_model(r) == Some(
                TypeModel::Array { items: Box::new(spec_parse_type(inner)), unique },
            ),
            None => r is None,
        },
    decreases s@.len(), 0nat,
{
    if is_enclosed(s, "< ", " > array(csv)") {
        let inner = enclosed_slice(s, "< ", " > array(csv)");
        proof {
            reveal_strlit("< ");
        }
        Some(TypeNode::Array { items: Box::new(parse_type_chars(inner)), unique: false })
    } else {
        None
    }
}

/// Reads `List  of X` and `Set  of X`, whose item is the type of `X`.
fn collection_of(s: &[char]) -> (r: Option<TypeNode>)
    ensures
        spec_list_of(s@) matches Some((inner, unique)) ==> option_model(r) == Some(
            TypeModel::Array { items: Box::new(spec_parse_type(inner)), unique },
        ),
        spec_list_of(s@) is None ==> match spec_set_of(s@) {
            Some((inner, unique)) => option_model(r) == Some(
                TypeModel::Array { items: Box::new(spec_parse_type(inner)), unique },
            ),
            None => r is None,
        },
    decreases s@.len(), 0nat,
{
    if starts_with_text(s, "List  of ") {
        let inner = after_prefix(s, "List  of ");
        proof {
            reveal_strlit("List  of ");
        }
        Some(TypeNode::Array { items: Box::new(parse_type_chars(inner)), unique: false })
    } else if starts_with_text(s, "Set  of ") {
        let inner = after_prefix(s, "Set  of ");
        proof {
            reveal_strlit("Set  of ");
        }
        Some(TypeNode::Array { items: Box::new(parse_type_chars(inner)), unique: true })
    } else {
        None
    }
}

/// Whether the expression is one of the map forms.
fn is_map_form(s: &[char]) -> (b: bool)
    ensures
        b == spec_map_form(s@),
{
    is_text(s, "Map") || starts_with_text(s, "Map  of") || starts_with_text(s, "Map[") || is_text(
        s,
        "Map[<<>>]",
    )
}

/// Looks the expression up in the table of literal type names.
fn literal_type(s: &[char]) -> (r: Option<TypeNode>)
    ensures
        option_model(r) == spec_literal_type(s@),
{
    if is_text(s, "Integer") || is_text(s, "integer(int32)") {
        Some(TypeNode::Primitive { kind: PrimitiveKind::Int32 })
    } else if is_text(s, "Long") || is_text(s, "integer(int64)") {
        Some(TypeNode::Primitive { kind: PrimitiveKind::Int64 })
    } else if is_text(s, "Boolean") || is_text(s, "boolean") {
        Some(TypeNode::Primitive { kind: PrimitiveKind::Boolean })
    } else if is_text(s, "Object") || is_text(s, "[Object]") {
        Some(TypeNode::Primitive { kind: PrimitiveKind::Object })
    } else if is_text(s, "string") || is_text(s, "String") {
        Some(TypeNode::Primitive { kind: PrimitiveKind::String })
    } else if is_text(s, "Stream") || is_text(s, "InputStream") {
        let items = TypeNode::Mapping;
        assert(items@ == TypeModel::Mapping);
        Some(TypeNode::Array { items: Box::new(items), unique: false })
    } else if is_text(s, "List") {
        let items = TypeNode::Primitive { kind: PrimitiveKind::Object };
        assert(items@ == TypeModel::Primitive { kind: PrimitiveKind::Object });
        Some(TypeNode::Array { items: Box::new(items), unique: false })
    } else {
        None
    }
}

/// The structured type of the expression held in the slice, if a pattern
/// matches it.
pub fn item_type_chars(s: &[char]) -> (r: Option<TypeNode>)
    ensures
        option_model(r) == spec_item_type(s@),
    decreases s@.len(), 1nat,
{
    if is_enclosed(s, "[", "]") {
        let inner = enclosed_slice(s, "[", "]");
        proof {
            reveal_strlit("[");
            reveal_strlit("]");
        }
        return item_type_chars(inner);
    }
    let as_enum = enum_type(s);
    if as_enum.is_some() {
        return as_enum;
    }
    let as_bytes = byte_array(s);
    if as_bytes.is_some() {
        return as_bytes;
    }
    proof {
        lemma_array_form_shorter(s@);
    }
    let as_collection = collection_of(s);
    if as_collection.is_some() {
        return as_collection;
    }
    let as_array = array_type(s);
    if as_array.is_some() {
        return as_array;
    }
    let as_csv = csv_array(s);
    if as_csv.is_some() {
        return as_csv;
    }
    if is_map_form(s) {
        return Some(TypeNode::Mapping);
    }
    literal_type(s)
}

/// The type of the expression held in the slice.
pub fn parse_type_chars(s: &[char]) -> (r: TypeNode)
    ensures
        r@ == spec_parse_type(s@),
    decreases s@.len(), 2nat,
{
    match item_type_chars(s) {
        Some(t) => t,
        None => TypeNode::Reference { name: from_chars(trimmed(s)) },
    }
}

/// The structured type that a type expression denotes, if one of the
/// structural patterns matches it.
pub fn item_type(raw_type: &str) -> (r: Option<TypeNode>)
    ensures
        option_model(r) == spec_item_type(raw_type@),
{
    let chars = to_chars(raw_type);
    item_type_chars(chars.as_slice())
}

/// The type that a type expression denotes: a structured type, or a
/// reference to the schema that the expression names.
pub fn parse_type(raw_type: &str) -> (r: TypeNode)
    ensures
        r@ == spec_parse_type(raw_type@),
{
    let chars = to_chars(raw_type);
    parse_type_chars(chars.as_slice())
}

/// One row of the table of a schema: the name of a property and its type
/// expression.
#[derive(Debug, PartialEq, Eq)]
pub struct PropertyRow {
    pub name: String,
    pub raw_type: String,
}

/// A property of an object schema.
#[derive(Debug, PartialEq, Eq)]
pub struct Property {
    pub name: String,
    pub schema: TypeNode,
}

/// An object schema: its properties, in order, no two of one name.
#[derive(Debug, PartialEq, Eq)]
pub struct ObjectSchema {
    pub properties: Vec<Property>,
}

/// The section of a document that describes a schema: its title and the
/// rows of its table.
#[derive(Debug, PartialEq, Eq)]
pub struct SchemaSection {
    pub title: String,
    pub rows: Vec<PropertyRow>,
}

/// A schema under its name.
#[derive(Debug, PartialEq, Eq)]
pub struct NamedSchema {
    pub name: String,
    pub schema: ObjectSchema,
}

/// The first position, from `from` on, of an entry under `name`; the
/// number of entries where there is none.
pub open spec fn first_named<V>(entries: Seq<(Seq<char>, V)>, name: Seq<char>, from: int) -> int
    decreases entries.len() - from,
{
    if from >= entries.len() {
        entries.len() as int
    } else if from >= 0 && entries[from].0 == name {
        from
    } else {
        first_named(entries, name, from + 1)
    }
}

/// The entries after `value` was entered under `name`: it takes the place
/// of the entry of that name where there is one, and stands last where there
/// is none.
pub open spec fn upserted<V>(entries: Seq<(Seq<char>, V)>, name: Seq<char>, value: V) -> Seq<
    (Seq<char>, V),
> {
    let at = first_named(entries, name, 0);
    if at < entries.len() {
        entries.update(at, (name, value))
    } else {
        entries.push((name, value))
    }
}

/// No two entries stand under one name.
pub open spec fn distinct_names<V>(entries: Seq<(Seq<char>, V)>) -> bool {
    forall|i: int, j: int|
        0 <= i < j < entries.len() ==> (#[trigger] entries[i]).0 != (#[trigger] entries[j]).0
}

/// Entering a value keeps the names distinct.
pub proof fn lemma_upserted_distinct<V>(entries: Seq<(Seq<char>, V)>, name: Seq<char>, value: V)
    requires
        distinct_names(entries),
    ensures
        distinct_names(upserted(entries, name, value)),
{
    let at = first_named(entries, name, 0);
    let after = upserted(entries, name, value);
    lemma_first_named_is_named(entries, name, 0);
    assert forall|i: int, j: int| 0 <= i < j < after.len() implies (#[trigger] after[i]).0 != (
    #[trigger] after[j]).0 by {
        if at < entries.len() {
            assert(after[i].0 == entries[i].0);
            assert(after[j].0 == entries[j].0);
        } else if j < entries.len() {
            assert(after[i] == entries[i]);
            assert(after[j] == entries[j]);
        } else {
            assert(after[i] == entries[i]);
        }
    }
}

/// What `first_named` finds: an entry under the name, before which none
/// stands under it; or the end, and then none does from `from` on.
pub proof fn lemma_first_named_is_named<V>(
    entries: Seq<(Seq<char>, V)>,
    name: Seq<char>,
    from: int,
)
    requires
        0 <= from <= entries.len(),
    ensures
        from <= first_named(entries, name, from) <= entries.len(),
        first_named(entries, name, from) < entries.len() ==> entries[first_named(
            entries,
            name,
            from,
        )].0 == name,
        forall|i: int|
            from <= i < first_named(entries, name, from) ==> (#[trigger] entries[i]).0 != name,
    decreases entries.len() - from,
{
    if from < entries.len() && entries[from].0 != name {
        lemma_first_named_is_named(entries, name, from + 1);
    }
}

/// The values of the properties of a vector: each name with its type.
pub open spec fn property_models(props: Seq<Property>) -> Seq<(Seq<char>, TypeModel)> {
    props.map_values(|p: Property| (p.name@, p.schema@))
}

/// The properties that the rows of a schema table declare: each row enters
/// the type of its type expression under its name, so that a property stands
/// where its name first occurs and has the type of the last row of that
/// name.
pub open spec fn properties_of(rows: Seq<PropertyRow>) -> Seq<(Seq<char>, TypeModel)>
    decreases rows.len(),
{
    if rows.len() == 0 {
        Seq::empty()
    } else {
        upserted(
            properties_of(rows.drop_last()),
            rows.last().name@,
            spec_parse_type(rows.last().raw_type@),
        )
    }
}

/// The properties of an object schema have distinct names.
pub proof fn lemma_properties_distinct(rows: Seq<PropertyRow>)
    ensures
        distinct_names(properties_of(rows)),
    decreases rows.len(),
{
    if rows.len() > 0 {
        lemma_properties_distinct(rows.drop_last());
        lemma_upserted_distinct(
            properties_of(rows.drop_last()),
            rows.last().name@,
            spec_parse_type(rows.last().raw_type@),
        );
    }
}

/// The entries of the index of the properties: each name with its position.
pub open spec fn index_of_properties(props: Seq<Property>) -> Seq<(Seq<char>, usize)> {
    Seq::new(props.len(), |i: int| (props[i].name@, i as usize))
}

/// The object schema that the rows of a schema table declare.
pub fn parse_schema(rows: &Vec<PropertyRow>) -> (r: ObjectSchema)
    ensures
        property_models(r.properties@) == properties_of(rows@),
{
    let mut index = index_new();
    let mut props: Vec<Property> = Vec::new();
    let mut n: usize = 0;
    assert(index_map_entries(index) == index_of_properties(props@));
    assert(rows@.take(0) == Seq::<PropertyRow>::empty());
    assert(property_models(props@) == properties_of(rows@.take(0)));
    while n < rows.len()
        invariant
            n <= rows.len(),
            index_map_entries(index) == index_of_properties(props@),
            property_models(props@) == properties_of(rows@.take(n as int)),
        decreases rows.len() - n,
    {
        let row = &rows[n];
        let schema = parse_type(row.raw_type.as_str());
        let ghost before = property_models(props@);
        let ghost old_props = props@;
        let count = props.len();
        proof {
            assert(rows@.take(n + 1).drop_last() == rows@.take(n as int));
            assert(rows@.take(n + 1).last() == rows@[n as int]);
            lemma_properties_distinct(rows@.take(n as int));
            lemma_first_named_is_named(before, row.name@, 0);
        }
        match index_get(&index, row.name.as_str()) {
            Some(at) => {
                proof {
                    let w = choose|w: int|
                        0 <= w < index_of_properties(props@).len() && index_of_properties(
                            props@,
                        )[w] == (row.name@, at);
                    assert(w < count);
                    assert(w == at);
                    assert(before[w].0 == row.name@);
                    let f = first_named(before, row.name@, 0);
                    if f < w {
                        assert(before[f].0 != before[w].0);
                    }
                    assert(f == at);
                }
                props[at].schema = schema;
                proof {
                    assert(props@.len() == old_props.len());
                    assert(props@[at as int].name == old_props[at as int].name);
                    assert forall|k: int| 0 <= k < props@.len() implies props@[k].name
                        == old_props[k].name by {
                        if k != at {
                            assert(props@[k] == old_props[k]);
                        }
                    }
                    assert(index_of_properties(props@) == index_of_properties(old_props));
                    assert(property_models(props@) == before.update(
                        at as int,
                        (row.name@, schema@),
                    )) by {
                        assert forall|k: int| 0 <= k < props@.len() implies property_models(
                            props@,
                        )[k] == before.update(at as int, (row.name@, schema@))[k] by {
                            if k != at {
                                assert(props@[k] == old_props[k]);
                            }
                        }
                    }
                }
            },
            None => {
                proof {
                    assert forall|k: int| 0 <= k < before.len() implies (#[trigger] before[k]).0
                        != row.name@ by {
                        assert(index_of_properties(props@)[k].0 == before[k].0);
                    }
                    assert(first_named(before, row.name@, 0) == before.len());
                }
                props.push(Property { name: row.name.clone(), schema });
                index_insert(&mut index, row.name.clone(), count);
                proof {
                    assert(index_of_properties(props@) == index_of_properties(old_props).push(
                        (row.name@, count),
                    ));
                    assert(property_models(props@) == before.push((row.name@, schema@)));
                }
            },
        }
        n += 1;
    }
    assert(rows@.take(rows.len() as int) == rows@);
    ObjectSchema { properties: props }
}

/// The values of the schemas of a vector: each name with its properties.
pub open spec fn schema_models(schemas: Seq<NamedSchema>) -> Seq<
    (Seq<char>, Seq<(Seq<char>, TypeModel)>),
> {
    schemas.map_values(|s: NamedSchema| (s.name@, property_models(s.schema.properties@)))
}

/// The schemas that the sections of a document describe: each section
/// enters its object schema under its title, so that a schema stands where
/// its title first occurs and is that of the last section of that title.
pub open spec fn schemas_of(sections: Seq<SchemaSection>) -> Seq<
    (Seq<char>, Seq<(Seq<char>, TypeModel)>),
>
    decreases sections.len(),
{
    if sections.len() == 0 {
        Seq::empty()
    } else {
        upserted(
            schemas_of(sections.drop_last()),
            sections.last().title@,
            properties_of(sections.last().rows@),
        )
    }
}

/// The schemas of a document have distinct names.
pub proof fn lemma_schemas_distinct(sections: Seq<SchemaSection>)
    ensures
        distinct_names(schemas_of(sections)),
    decreases sections.len(),
{
    if sections.len() > 0 {
        lemma_schemas_distinct(sections.drop_last());
        lemma_upserted_distinct(
            schemas_of(sections.drop_last()),
            sections.last().title@,
            properties_of(sections.last().rows@),
        );
    }
}

/// The entries of the index of the schemas: each name with its position.
pub open spec fn index_of_schemas(schemas: Seq<NamedSchema>) -> Seq<(Seq<char>, usize)> {
    Seq::new(schemas.len(), |i: int| (schemas[i].name@, i as usize))
}

/// The schemas that the sections of a document describe.
pub fn parse_schemas(sections: &Vec<SchemaSection>) -> (r: Vec<NamedSchema>)
    ensures
        schema_models(r@) == schemas_of(sections@),
{
    let mut index = index_new();
    let mut schemas: Vec<NamedSchema> = Vec::new();
    let mut n: usize = 0;
    assert(index_map_entries(index) == index_of_schemas(schemas@));
    assert(sections@.take(0) == Seq::<SchemaSection>::empty());
    assert(schema_models(schemas@) == schemas_of(sections@.take(0)));
    while n < sections.len()
        invariant
            n <= sections.len(),
            index_map_entries(index) == index_of_schemas(schemas@),
            schema_models(schemas@) == schemas_of(sections@.take(n as int)),
        decreases sections.len() - n,
    {
        let section = &sections[n];
        let schema = parse_schema(&section.rows);
        let ghost value = property_models(schema.properties@);
        let ghost before = schema_models(schemas@);
        let ghost old_schemas = schemas@;
        let count = schemas.len();
        proof {
            assert(sections@.take(n + 1).drop_last() == sections@.take(n as int));
            assert(sections@.take(n + 1).last() == sections@[n as int]);
            lemma_schemas_distinct(sections@.take(n as int));
            lemma_first_named_is_named(before, section.title@, 0);
        }
        match index_get(&index, section.title.as_str()) {
            Some(at) => {
                proof {
                    let w = choose|w: int|
                        0 <= w < index_of_schemas(schemas@).len() && index_of_schemas(
                            schemas@,
                        )[w] == (section.title@, at);
                    assert(w < count);
                    assert(w == at);
                    assert(before[w].0 == section.title@);
                    let f = first_named(before, section.title@, 0);
                    if f < w {
                        assert(before[f].0 != before[w].0);
                    }
                    assert(f == at);
                }
                schemas[at].schema = schema;
                proof {
                    assert forall|k: int| 0 <= k < schemas@.len() implies schemas@[k].name
                        == old_schemas[k].name by {
                        if k != at {
                            assert(schemas@[k] == old_schemas[k]);
                        }
                    }
                    assert(index_of_schemas(schemas@) == index_of_schemas(old_schemas));
                    assert(schema_models(schemas@) == before.update(
                        at as int,
                        (section.title@, value),
                    )) by {
                        assert forall|k: int| 0 <= k < schemas@.len() implies schema_models(
                            schemas@,
                        )[k] == before.update(at as int, (section.title@, value))[k] by {
                            if k != at {
                                assert(schemas@[k] == old_schemas[k]);
                            }
                        }
                    }
                }
            },
            None => {
                proof {
                    assert forall|k: int| 0 <= k < before.len() implies (#[trigger] before[k]).0
                        != section.title@ by {
                        assert(index_of_schemas(schemas@)[k].0 == before[k].0);
                    }
                    assert(first_named(before, section.title@, 0) == before.len());
                }
                schemas.push(NamedSchema { name: section.title.clone(), schema });
                index_insert(&mut index, section.title.clone(), count);
                proof {
                    assert(index_of_schemas(schemas@) == index_of_schemas(old_schemas).push(
                        (section.title@, count),
                    ));
                    assert(schema_models(schemas@) == before.push((section.title@, value)));
                }
            },
        }
        n += 1;
    }
    assert(sections@.take(sections.len() as int) == sections@);
    schemas
}

} // verus!
