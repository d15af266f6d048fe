//! Renderers: pure functions from a finished schema to a textual type
//! declaration body in one notation. A renderer only formats what the
//! builder decided; it never re-derives a type or an optionality.

use vstd::prelude::*;
use vstd::string::StringExecFns;

use crate::schema::FieldState;
use crate::schema::Schema;
use crate::value::TypeTag;

verus! {

/// The type token of the struct-like notation for each declared type.
pub open spec fn rust_token(t: TypeTag) -> Seq<char> {
    match t {
        TypeTag::Str => "String"@,
        TypeTag::SignedInt => "i64"@,
        TypeTag::UnsignedInt => "u64"@,
        TypeTag::Float => "f64"@,
        TypeTag::Boolean => "bool"@,
        TypeTag::ArrayOfUnknown => "Vec<Value>"@,
        TypeTag::ObjectMap => "HashMap<String, Value>"@,
        TypeTag::AnyOrNull => "Value"@,
    }
}

/// The type token of the interface-like notation for each declared type.
pub open spec fn ts_token(t: TypeTag) -> Seq<char> {
    match t {
        TypeTag::Str => "string"@,
        TypeTag::SignedInt => "number"@,
        TypeTag::UnsignedInt => "number"@,
        TypeTag::Float => "number"@,
        TypeTag::Boolean => "boolean"@,
        TypeTag::ArrayOfUnknown => "Array"@,
        TypeTag::ObjectMap => "Record<string, unknown>"@,
        TypeTag::AnyOrNull => "null"@,
    }
}

/// One field line of the struct-like notation: an optional field is wrapped
/// in the explicit optional wrapper.
pub open spec fn rust_field_line(name: Seq<char>, st: FieldState) -> Seq<char> {
    "    "@ + name + ": "@ + (if st.optional {
        "Option<"@ + rust_token(st.tag) + ">"@
    } else {
        rust_token(st.tag)
    }) + ",\n"@
}

/// One field line of the interface-like notation: an optional field carries
/// the optional-suffix marker after its name.
pub open spec fn ts_field_line(name: Seq<char>, st: FieldState) -> Seq<char> {
    "    "@ + name + (if st.optional {
        "?"@
    } else {
        Seq::<char>::empty()
    }) + ": "@ + ts_token(st.tag) + ";\n"@
}

/// The struct-like rendering of a whole field list, in order.
pub open spec fn render_rust_fields(fs: Seq<(Seq<char>, FieldState)>) -> Seq<char>
    decreases fs.len(),
{
    if fs.len() == 0 {
        Seq::<char>::empty()
    } else {
        render_rust_fields(fs.drop_last()) + rust_field_line(fs.last().0, fs.last().1)
    }
}

/// The interface-like rendering of a whole field list, in order.
pub open spec fn render_ts_fields(fs: Seq<(Seq<char>, FieldState)>) -> Seq<char>
    decreases fs.len(),
{
    if fs.len() == 0 {
        Seq::<char>::empty()
    } else {
        render_ts_fields(fs.drop_last()) + ts_field_line(fs.last().0, fs.last().1)
    }
}

/// The struct-like type token.
fn rust_token_str(t: TypeTag) -> (r: &'static str)
    ensures
        r@ == rust_token(t),
{
    match t {
        TypeTag::Str => "String",
        TypeTag::SignedInt => "i64",
        TypeTag::UnsignedInt => "u64",
        TypeTag::Float => "f64",
        TypeTag::Boolean => "bool",
        TypeTag::ArrayOfUnknown => "Vec<Value>",
        TypeTag::ObjectMap => "HashMap<String, Value>",
        TypeTag::AnyOrNull => "Value",
    }
}

/// The interface-like type token.
fn ts_token_str(t: TypeTag) -> (r: &'static str)
    ensures
        r@ == ts_token(t),
{
    match t {
        TypeTag::Str => "string",
        TypeTag::SignedInt => "number",
        TypeTag::UnsignedInt => "number",
        TypeTag::Float => "number",
        TypeTag::Boolean => "boolean",
        TypeTag::ArrayOfUnknown => "Array",
        TypeTag::ObjectMap => "Record<string, unknown>",
        TypeTag::AnyOrNull => "null",
    }
}

/// Renders the schema in the struct-like notation.
pub fn render_rust(schema: &Schema) -> (r: String)
    ensures
        r@ == render_rust_fields(schema.field_seq()),
{
    let ghost fs = schema.field_seq();
    let mut out = String::new();
    let mut i: usize = 0;
    proof {
        assert(fs.take(0) =~= Seq::<(Seq<char>, FieldState)>::empty());
    }
    while i < schema.fields.len()
        invariant
            i <= schema.fields.len(),
            fs == schema.field_seq(),
            out@ == render_rust_fields(fs.take(i as int)),
        decreases schema.fields.len() - i,
    {
        let entry = &schema.fields[i];
        out.append("    ");
        out.append(entry.0.as_str());
        out.append(": ");
        if entry.1.optional {
            out.append("Option<");
        }
        out.append(rust_token_str(entry.1.tag));
        if entry.1.optional {
            out.append(">");
        }
        out.append(",\n");
        proof {
            assert(fs.take(i as int + 1).drop_last() =~= fs.take(i as int));
            assert(fs.take(i as int + 1).last() == fs[i as int]);
            assert(fs[i as int].0 == entry.0@ && fs[i as int].1 == entry.1);
            assert(out@ =~= render_rust_fields(fs.take(i as int + 1)));
        }
        i = i + 1;
    }
    proof {
        assert(fs.take(schema.fields@.len() as int) =~= fs);
    }
    out
}

/// Renders the schema in the interface-like notation.
pub fn render_typescript(schema: &Schema) -> (r: String)
    ensures
        r@ == render_ts_fields(schema.field_seq()),
{
    let ghost fs = schema.field_seq();
    let mut out = String::new();
    let mut i: usize = 0;
    proof {
        assert(fs.take(0) =~= Seq::<(Seq<char>, FieldState)>::empty());
    }
    while i < schema.fields.len()
        invariant
            i <= schema.fields.len(),
            fs == schema.field_seq(),
            out@ == render_ts_fields(fs.take(i as int)),
        decreases schema.fields.len() - i,
    {
        let entry = &schema.fields[i];
        out.append("    ");
        out.append(entry.0.as_str());
        if entry.1.optional {
            out.append("?");
        }
        out.append(": ");
        out.append(ts_token_str(entry.1.tag));
        out.append(";\n");
        proof {
            assert(fs.take(i as int + 1).drop_last() =~= fs.take(i as int));
            assert(fs.take(i as int + 1).last() == fs[i as int]);
            assert(fs[i as int].0 == entry.0@ && fs[i as int].1 == entry.1);
            assert(out@ =~= render_ts_fields(fs.take(i as int + 1)));
        }
        i = i + 1;
    }
    proof {
        assert(fs.take(schema.fields@.len() as int) =~= fs);
    }
    out
}

/// Rendering is a function of the schema alone: two struct-like renderings
/// of the same schema are character-for-character identical.
pub proof fn lemma_render_rust_deterministic(s: Schema, r1: Seq<char>, r2: Seq<char>)
    requires
        r1 == render_rust_fields(s.field_seq()),
        r2 == render_rust_fields(s.field_seq()),
    ensures
        r1 == r2,
{
}

/// Rendering is a function of the schema alone: two interface-like
/// renderings of the same schema are character-for-character identical.
pub proof fn lemma_render_typescript_deterministic(s: Schema, r1: Seq<char>, r2: Seq<char>)
    requires
        r1 == render_ts_fields(s.field_seq()),
        r2 == render_ts_fields(s.field_seq()),
    ensures
        r1 == r2,
{
}

} // verus!
