//! The JSON artifact: the exported types and values of a program by name,
//! and the arena of descriptors that they point into.

use vstd::prelude::*;

use crate::ast::PrimitiveKind;
use crate::structures::texts;
use crate::type_structs::{arena_view, DescrView, Field, Handle, TypeDescr};

verus! {

/// The JSON string literal for a text: the text between double quotes,
/// with the escapes that JSON asks for.
pub uninterp spec fn json_quoted(s: Seq<char>) -> Seq<char>;

/// `serde_json`'s compact rendering of `serde_json::Value::String`: the
/// JSON string literal for `s`. Nothing more is claimed of the result than
/// that it is this rendering.
#[verifier::external_body]
pub(crate) fn quote(s: &str) -> (r: String)
    ensures
        r@ == json_quoted(s@),
{
    serde_json::Value::String(s.to_owned()).to_string()
}

/// The decimal digit for `d`.
pub open spec fn digit(d: nat) -> Seq<char> {
    if d == 0 {
        "0"@
    } else if d == 1 {
        "1"@
    } else if d == 2 {
        "2"@
    } else if d == 3 {
        "3"@
    } else if d == 4 {
        "4"@
    } else if d == 5 {
        "5"@
    } else if d == 6 {
        "6"@
    } else if d == 7 {
        "7"@
    } else if d == 8 {
        "8"@
    } else {
        "9"@
    }
}

/// The decimal numeral for `n`.
pub open spec fn decimal(n: nat) -> Seq<char>
    decreases n,
{
    if n < 10 {
        digit(n)
    } else {
        decimal(n / 10) + digit(n % 10)
    }
}

/// The decimal digit for `d`.
fn digit_text(d: u64) -> (r: &'static str)
    requires
        d < 10,
    ensures
        r@ == digit(d as nat),
{
    if d == 0 {
        "0"
    } else if d == 1 {
        "1"
    } else if d == 2 {
        "2"
    } else if d == 3 {
        "3"
    } else if d == 4 {
        "4"
    } else if d == 5 {
        "5"
    } else if d == 6 {
        "6"
    } else if d == 7 {
        "7"
    } else if d == 8 {
        "8"
    } else {
        "9"
    }
}

/// The decimal numeral for `n`.
pub fn decimal_text(n: u64) -> (r: String)
    ensures
        r@ == decimal(n as nat),
    decreases n,
{
    if n < 10 {
        String::from_str(digit_text(n))
    } else {
        let mut s = decimal_text(n / 10);
        s.append(digit_text(n % 10));
        s
    }
}

/// The first `n` of `parts`, with commas between them.
pub open spec fn joined(parts: Seq<Seq<char>>, n: int) -> Seq<char>
    decreases n,
{
    if n <= 0 {
        Seq::empty()
    } else if n == 1 {
        parts[0]
    } else {
        joined(parts, n - 1) + ","@ + parts[n - 1]
    }
}

/// All of `parts`, with commas between them.
pub open spec fn list_text(parts: Seq<Seq<char>>) -> Seq<char> {
    joined(parts, parts.len() as int)
}

/// `parts`, with commas between them.
pub fn join(parts: &Vec<String>) -> (r: String)
    ensures
        r@ == list_text(texts(parts@)),
{
    let mut out = String::new();
    let mut i: usize = 0;
    while i < parts.len()
        invariant
            i <= parts@.len(),
            out@ == joined(texts(parts@), i as int),
        decreases parts@.len() - i,
    {
        if i > 0 {
            out.append(",");
            out.append(parts[i].as_str());
        } else {
            out.append(parts[i].as_str());
            assert(out@ =~= parts@[0]@);
        }
        i += 1;
    }
    out
}

/// The numerals of `hs`.
pub open spec fn numerals(hs: Seq<Handle>) -> Seq<Seq<char>> {
    Seq::new(hs.len(), |i: int| decimal(hs[i] as nat))
}

/// The numerals of `hs`, with commas between them.
pub fn render_handles(hs: &Vec<Handle>) -> (r: String)
    ensures
        r@ == list_text(numerals(hs@)),
{
    let mut parts: Vec<String> = Vec::new();
    let mut i: usize = 0;
    while i < hs.len()
        invariant
            i <= hs@.len(),
            parts@.len() == i,
            forall|j: int| 0 <= j < i ==> (#[trigger] parts@[j])@ == decimal(hs@[j] as nat),
        decreases hs@.len() - i,
    {
        parts.push(decimal_text(hs[i] as u64));
        i += 1;
    }
    assert(texts(parts@) =~= numerals(hs@));
    join(&parts)
}

/// A member of a JSON object: a name, already a JSON string, and the
/// position of a descriptor.
pub open spec fn member_text(quoted_name: Seq<char>, ty: Handle) -> Seq<char> {
    quoted_name + ":"@ + decimal(ty as nat)
}

/// A member of a JSON object, from a name that is a JSON string already.
pub fn member_of(quoted_name: &str, ty: Handle) -> (r: String)
    ensures
        r@ == member_text(quoted_name@, ty),
{
    let mut member = String::from_str(quoted_name);
    member.append(":");
    member.append(decimal_text(ty as u64).as_str());
    member
}

/// The JSON object with the members `members`.
pub open spec fn braced(members: Seq<Seq<char>>) -> Seq<char> {
    "{"@ + list_text(members) + "}"@
}

/// The JSON object with the members `members`.
pub fn object_of(members: &Vec<String>) -> (r: String)
    ensures
        r@ == braced(texts(members@)),
{
    let mut out = String::from_str("{");
    out.append(join(members).as_str());
    out.append("}");
    out
}

/// The members for `fields`: each name as a JSON string, with the
/// position of the type.
pub open spec fn members(fields: Seq<Field>) -> Seq<Seq<char>> {
    Seq::new(fields.len(), |i: int| member_text(json_quoted(fields[i].name@), fields[i].ty))
}

/// The JSON object from the names of `fields` to the positions of their
/// types.
pub open spec fn object_text(fields: Seq<Field>) -> Seq<char> {
    braced(members(fields))
}

/// The JSON object from the names of `fields` to the positions of their
/// types.
pub fn render_object(fields: &Vec<Field>) -> (r: String)
    ensures
        r@ == object_text(fields@),
{
    let mut parts: Vec<String> = Vec::new();
    let mut i: usize = 0;
    while i < fields.len()
        invariant
            i <= fields@.len(),
            parts@.len() == i,
            forall|j: int|
                0 <= j < i ==> (#[trigger] parts@[j])@ == member_text(
                    json_quoted(fields@[j].name@),
                    fields@[j].ty,
                ),
        decreases fields@.len() - i,
    {
        let name = quote(fields[i].name.as_str());
        parts.push(member_of(name.as_str(), fields[i].ty));
        i += 1;
    }
    assert(texts(parts@) =~= members(fields@));
    object_of(&parts)
}

/// The name of a built-in type, as a JSON string.
pub open spec fn primitive_name(kind: PrimitiveKind) -> Seq<char> {
    match kind {
        PrimitiveKind::Boolean => "\"boolean\""@,
        PrimitiveKind::Number => "\"number\""@,
        PrimitiveKind::String => "\"string\""@,
        PrimitiveKind::Void => "\"void\""@,
        PrimitiveKind::Object => "\"object\""@,
        PrimitiveKind::Any => "\"any\""@,
        PrimitiveKind::Never => "\"never\""@,
    }
}

/// The name of a built-in type, as a JSON string.
fn render_primitive(kind: PrimitiveKind) -> (r: &'static str)
    ensures
        r@ == primitive_name(kind),
{
    match kind {
        PrimitiveKind::Boolean => "\"boolean\"",
        PrimitiveKind::Number => "\"number\"",
        PrimitiveKind::String => "\"string\"",
        PrimitiveKind::Void => "\"void\"",
        PrimitiveKind::Object => "\"object\"",
        PrimitiveKind::Any => "\"any\"",
        PrimitiveKind::Never => "\"never\"",
    }
}

/// The position of a return type, or `null`.
pub open spec fn ret_text(ret: Option<Handle>) -> Seq<char> {
    match ret {
        Some(r) => decimal(r as nat),
        None => "null"@,
    }
}

/// The JSON object for a built-in type.
pub open spec fn primitive_text(kind: PrimitiveKind) -> Seq<char> {
    "{\"kind\":\"primitive\",\"name\":"@ + primitive_name(kind) + "}"@
}

/// The JSON object for an array type.
pub open spec fn array_text(elem: Handle, rank: u64) -> Seq<char> {
    "{\"kind\":\"array\",\"elem\":"@ + decimal(elem as nat) + ",\"rank\":"@ + decimal(rank as nat)
        + "}"@
}

/// The JSON object for a function, from its module as a JSON string.
pub open spec fn fn_text(quoted_origin: Seq<char>, params: Seq<Handle>, ret: Option<Handle>)
    -> Seq<char> {
    "{\"kind\":\"fn\",\"origin\":"@ + quoted_origin + ",\"params\":["@ + list_text(
        numerals(params),
    ) + "],\"ret\":"@ + ret_text(ret) + "}"@
}

/// The JSON object for a class, from its name and its module as JSON
/// strings and from the JSON object of its members.
pub open spec fn class_text(
    quoted_name: Seq<char>,
    quoted_origin: Seq<char>,
    constructor: Handle,
    fields_object: Seq<char>,
) -> Seq<char> {
    "{\"kind\":\"class\",\"name\":"@ + quoted_name + ",\"origin\":"@ + quoted_origin
        + ",\"constructor\":"@ + decimal(constructor as nat) + ",\"fields\":"@ + fields_object
        + "}"@
}

/// The JSON object for an interface, from its module as a JSON string and
/// from the JSON object of its members.
pub open spec fn interface_text(quoted_origin: Seq<char>, fields_object: Seq<char>) -> Seq<char> {
    "{\"kind\":\"interface\",\"origin\":"@ + quoted_origin + ",\"fields\":"@ + fields_object
        + "}"@
}

/// The JSON object for a descriptor: its kind under `"kind"`, then what
/// the kind holds, other descriptors by their positions.
pub open spec fn descr_text(d: DescrView) -> Seq<char> {
    match d {
        DescrView::Primitive(kind) => primitive_text(kind),
        DescrView::Array { elem, rank } => array_text(elem, rank),
        DescrView::Fn { origin, params, ret } => fn_text(json_quoted(origin@), params, ret),
        DescrView::Class { name, origin, constructor, fields } => class_text(
            json_quoted(name@),
            json_quoted(origin@),
            constructor,
            object_text(fields),
        ),
        DescrView::Interface { origin, fields } => interface_text(
            json_quoted(origin@),
            object_text(fields),
        ),
    }
}

/// The JSON object for a function, from its module as a JSON string.
pub fn fn_object(quoted_origin: &str, params: &Vec<Handle>, ret: &Option<Handle>) -> (r: String)
    ensures
        r@ == fn_text(quoted_origin@, params@, *ret),
{
    let mut out = String::from_str("{\"kind\":\"fn\",\"origin\":");
    out.append(quoted_origin);
    out.append(",\"params\":[");
    out.append(render_handles(params).as_str());
    out.append("],\"ret\":");
    match ret {
        Some(r) => {
            out.append(decimal_text(*r as u64).as_str());
        },
        None => {
            out.append("null");
        },
    }
    out.append("}");
    out
}

/// The JSON object for a class, from its name and its module as JSON
/// strings and from the JSON object of its members.
pub fn class_object(
    quoted_name: &str,
    quoted_origin: &str,
    constructor: Handle,
    fields_object: &str,
) -> (r: String)
    ensures
        r@ == class_text(quoted_name@, quoted_origin@, constructor, fields_object@),
{
    let mut out = String::from_str("{\"kind\":\"class\",\"name\":");
    out.append(quoted_name);
    out.append(",\"origin\":");
    out.append(quoted_origin);
    out.append(",\"constructor\":");
    out.append(decimal_text(constructor as u64).as_str());
    out.append(",\"fields\":");
    out.append(fields_object);
    out.append("}");
    out
}

/// The JSON object for an interface, from its module as a JSON string and
/// from the JSON object of its members.
pub fn interface_object(quoted_origin: &str, fields_object: &str) -> (r: String)
    ensures
        r@ == interface_text(quoted_origin@, fields_object@),
{
    let mut out = String::from_str("{\"kind\":\"interface\",\"origin\":");
    out.append(quoted_origin);
    out.append(",\"fields\":");
    out.append(fields_object);
    out.append("}");
    out
}

/// The JSON object for a descriptor.
pub fn render_descr(d: &TypeDescr) -> (r: String)
    ensures
        r@ == descr_text(d@),
{
    match d {
        TypeDescr::Primitive(kind) => {
            let mut out = String::from_str("{\"kind\":\"primitive\",\"name\":");
            out.append(render_primitive(*kind));
            out.append("}");
            out
        },
        TypeDescr::Array { elem, rank } => {
            let mut out = String::from_str("{\"kind\":\"array\",\"elem\":");
            out.append(decimal_text(*elem as u64).as_str());
            out.append(",\"rank\":");
            out.append(decimal_text(*rank).as_str());
            out.append("}");
            out
        },
        TypeDescr::Fn { origin, params, ret } => fn_object(
            quote(origin.as_path()).as_str(),
            params,
            ret,
        ),
        TypeDescr::Class { name, origin, constructor, fields } => class_object(
            quote(name.as_str()).as_str(),
            quote(origin.as_path()).as_str(),
            *constructor,
            render_object(fields).as_str(),
        ),
        TypeDescr::Interface { origin, fields } => interface_object(
            quote(origin.as_path()).as_str(),
            render_object(fields).as_str(),
        ),
    }
}

/// The JSON objects for the descriptors of an arena.
pub open spec fn descriptors(arena: Seq<DescrView>) -> Seq<Seq<char>> {
    Seq::new(arena.len(), |i: int| descr_text(arena[i]))
}

/// The JSON document with the objects of the exported types and values
/// and with the JSON objects `descriptors`.
pub open spec fn document(
    types_object: Seq<char>,
    values_object: Seq<char>,
    descriptors: Seq<Seq<char>>,
) -> Seq<char> {
    "{\"types\":"@ + types_object + ",\"values\":"@ + values_object + ",\"descriptors\":["@
        + list_text(descriptors) + "]}"@
}

/// The JSON document: under `"types"` and `"values"` the exports by name,
/// each with the position of its descriptor; under `"descriptors"` the
/// arena.
pub open spec fn document_text(types: Seq<Field>, values: Seq<Field>, arena: Seq<DescrView>)
    -> Seq<char> {
    document(object_text(types), object_text(values), descriptors(arena))
}

/// The JSON document with the objects of the exported types and values
/// and with the JSON objects `descriptors`.
pub fn document_of(types_object: &str, values_object: &str, descriptors: &Vec<String>) -> (r:
    String)
    ensures
        r@ == document(types_object@, values_object@, texts(descriptors@)),
{
    let mut out = String::from_str("{\"types\":");
    out.append(types_object);
    out.append(",\"values\":");
    out.append(values_object);
    out.append(",\"descriptors\":[");
    out.append(join(descriptors).as_str());
    out.append("]}");
    out
}

/// Whether one of `fields` has the name `name`.
pub open spec fn has_export(fields: Seq<Field>, name: Seq<char>) -> bool {
    exists|i: int| 0 <= i < fields.len() && (#[trigger] fields[i]).name@ == name
}

/// `fields`, with `f` added unless a field of that name is there already:
/// of two exports of one name the first is kept.
pub open spec fn with_export(fields: Seq<Field>, f: Field) -> Seq<Field> {
    if has_export(fields, f.name@) {
        fields
    } else {
        fields.push(f)
    }
}

/// What a JSON artifact holds so far.
pub struct JsonView {
    pub types: Seq<Field>,
    pub values: Seq<Field>,
}

/// The JSON artifact in the making.
#[derive(Debug, PartialEq, Eq)]
pub struct JsonOutput {
    pub types: Vec<Field>,
    pub values: Vec<Field>,
}

impl View for JsonOutput {
    type V = JsonView;

    open spec fn view(&self) -> JsonView {
        JsonView { types: self.types@, values: self.values@ }
    }
}

/// Adds `f` unless a field of that name is there already.
fn add_export(fields: &mut Vec<Field>, f: Field)
    ensures
        final(fields)@ == with_export(old(fields)@, f),
{
    let mut i: usize = 0;
    while i < fields.len()
        invariant
            i <= fields@.len(),
            fields@ == old(fields)@,
            forall|j: int| 0 <= j < i ==> (#[trigger] fields@[j]).name@ != f.name@,
        decreases fields@.len() - i,
    {
        if fields[i].name == f.name {
            return ;
        }
        i += 1;
    }
    fields.push(f);
}

impl JsonOutput {
    /// An artifact without exports.
    pub fn new() -> (r: Self)
        ensures
            r@.types == Seq::<Field>::empty(),
            r@.values == Seq::<Field>::empty(),
    {
        JsonOutput { types: Vec::new(), values: Vec::new() }
    }

    /// Records the type exported as `key`, unless a type of that name is
    /// recorded already.
    pub fn export_type(&mut self, key: &String, typ: Handle)
        ensures
            final(self)@.types == with_export(old(self)@.types, Field { name: *key, ty: typ }),
            final(self)@.values == old(self)@.values,
    {
        add_export(&mut self.types, Field { name: key.clone(), ty: typ });
    }

    /// Records the value exported as `key`, unless a value of that name is
    /// recorded already.
    pub fn export_value(&mut self, key: &String, typ: Handle)
        ensures
            final(self)@.values == with_export(old(self)@.values, Field { name: *key, ty: typ }),
            final(self)@.types == old(self)@.types,
    {
        add_export(&mut self.values, Field { name: key.clone(), ty: typ });
    }

    /// The text of the artifact, over the arena that the recorded
    /// positions point into.
    pub fn finalize(&self, arena: &Vec<TypeDescr>) -> (r: String)
        ensures
            r@ == document_text(self@.types, self@.values, arena_view(arena@)),
    {
        let mut parts: Vec<String> = Vec::new();
        let mut i: usize = 0;
        while i < arena.len()
            invariant
                i <= arena@.len(),
                parts@.len() == i,
                forall|j: int| 0 <= j < i ==> (#[trigger] parts@[j])@ == descr_text(arena@[j]@),
            decreases arena@.len() - i,
        {
            parts.push(render_descr(&arena[i]));
            i += 1;
        }
        assert(texts(parts@) =~= descriptors(arena_view(arena@)));
        document_of(
            render_object(&self.types).as_str(),
            render_object(&self.values).as_str(),
            &parts,
        )
    }
}

} // verus!
