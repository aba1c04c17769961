//! The `schema` command: a short JSON schema for a job, a target or an
//! envelope.

use vstd::prelude::*;

verus! {

/// The arguments of `schema`.
#[derive(Debug)]
pub struct SchemaArgs {
    pub schema_type: SchemaType,
}

/// Which schema to print.
#[derive(Clone, Copy, Debug, PartialEq, Eq, Structural)]
pub enum SchemaType {
    Job,
    Target,
    Envelope,
}

/// The schema printed: its kind, whether it was generated, and the schema
/// as JSON text.
#[derive(Debug)]
pub struct SchemaData {
    pub kind: String,
    pub generated: bool,
    pub schema: String,
}

/// The kind name and JSON text of each schema.
pub open spec fn schema_for(t: SchemaType) -> (Seq<char>, Seq<char>) {
    match t {
        SchemaType::Job => (
            "job"@,
            "{\"title\":\"docli core job\",\"description\":\"Top-level job object with operation list\",\"required\":[\"operations\"],\"properties\":{\"operations\":{\"type\":\"array\",\"items\":{\"type\":\"object\"}}}}"@,
        ),
        SchemaType::Target => (
            "target"@,
            "{\"title\":\"docli selector target\",\"description\":\"Target description used by edit and review commands\",\"type\":\"object\"}"@,
        ),
        SchemaType::Envelope => (
            "envelope"@,
            "{\"title\":\"docli envelope\",\"oneOf\":[{\"type\":\"object\",\"required\":[\"ok\"]},{\"type\":\"object\",\"required\":[\"error\"]}]}"@,
        ),
    }
}

/// The schema that `args` asks for; never generated.
pub fn run(args: &SchemaArgs) -> (r: SchemaData)
    ensures
        (r.kind@, r.schema@) == schema_for(args.schema_type),
        !r.generated,
{
    let (kind, schema) = match args.schema_type {
        SchemaType::Job => (
            "job",
            "{\"title\":\"docli core job\",\"description\":\"Top-level job object with operation list\",\"required\":[\"operations\"],\"properties\":{\"operations\":{\"type\":\"array\",\"items\":{\"type\":\"object\"}}}}",
        ),
        SchemaType::Target => (
            "target",
            "{\"title\":\"docli selector target\",\"description\":\"Target description used by edit and review commands\",\"type\":\"object\"}",
        ),
        SchemaType::Envelope => (
            "envelope",
            "{\"title\":\"docli envelope\",\"oneOf\":[{\"type\":\"object\",\"required\":[\"ok\"]},{\"type\":\"object\",\"required\":[\"error\"]}]}",
        ),
    };
    SchemaData { kind: String::from_str(kind), generated: false, schema: String::from_str(schema) }
}

} // verus!
