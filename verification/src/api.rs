//! The top-level operations: infer a schema from a record array and render
//! it, or do both for a whole parsed input under a caller-chosen notation.

use vstd::prelude::*;
use vstd::string::StringExecFns;

use crate::order::compare_str;
use crate::order::KeyOrder;
use crate::render::render_rust;
use crate::render::render_rust_fields;
use crate::render::render_ts_fields;
use crate::render::render_typescript;
use crate::schema::build;
use crate::schema::build_records;
use crate::schema::canonical_fields;
use crate::schema::input_elems;
use crate::schema::input_wf;
use crate::schema::lemma_schema_canonical;
use crate::schema::records_wf;
use crate::schema::SchemaError;
use crate::value::Value;

verus! {

/// Infers the schema of the record array and renders its field lines in the
/// struct-like notation.
pub fn print_rust_struct(values: &Vec<Value>) -> (r: String)
    requires
        records_wf(values@),
    ensures
        r@ == render_rust_fields(canonical_fields(values@)),
{
    let s = build_records(values);
    proof {
        lemma_schema_canonical(values@, s.field_seq());
    }
    render_rust(&s)
}

/// Infers the schema of the record array and renders its field lines in the
/// interface-like notation.
pub fn print_typescript_interface(values: &Vec<Value>) -> (r: String)
    requires
        records_wf(values@),
    ensures
        r@ == render_ts_fields(canonical_fields(values@)),
{
    let s = build_records(values);
    proof {
        lemma_schema_canonical(values@, s.field_seq());
    }
    render_typescript(&s)
}

/// Infers and renders a complete declaration for a whole parsed input. The
/// notation must be one of the supported set — anything else fails, never
/// falling back to a default — and the input must be an array of records.
pub fn generate(input: &Value, notation: &str) -> (r: Result<String, SchemaError>)
    requires
        input_wf(*input),
    ensures
        notation@ != "rust"@ && notation@ != "typescript"@ ==> r == Result::<
            String,
            SchemaError,
        >::Err(SchemaError::UnknownNotation),
        (notation@ == "rust"@ || notation@ == "typescript"@) && !(*input is Array) ==> r
            == Result::<String, SchemaError>::Err(SchemaError::InputShape),
        notation@ == "rust"@ && *input is Array ==> (r matches Ok(text) && text@ == "struct Data {\n"@
            + render_rust_fields(canonical_fields(input_elems(*input))) + "}"@),
        notation@ == "typescript"@ && *input is Array ==> (r matches Ok(text) && text@
            == "interface Data {\n"@ + render_ts_fields(canonical_fields(input_elems(*input)))
            + "}"@),
{
    proof {
        reveal_strlit("rust");
        reveal_strlit("typescript");
    }
    let is_rust = match compare_str(notation, "rust") {
        KeyOrder::Equal => true,
        _ => false,
    };
    let is_ts = match compare_str(notation, "typescript") {
        KeyOrder::Equal => true,
        _ => false,
    };
    if !is_rust && !is_ts {
        return Err(SchemaError::UnknownNotation);
    }
    match build(input) {
        Ok(s) => {
            proof {
                lemma_schema_canonical(input_elems(*input), s.field_seq());
            }
            let mut out = String::new();
            if is_rust {
                out.append("struct Data {\n");
                let body = render_rust(&s);
                out.append(body.as_str());
            } else {
                out.append("interface Data {\n");
                let body = render_typescript(&s);
                out.append(body.as_str());
            }
            out.append("}");
            Ok(out)
        },
        Err(e) => Err(e),
    }
}

} // verus!
