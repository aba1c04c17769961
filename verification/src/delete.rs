//! Removing a byte span from a part.

use vstd::prelude::*;

use crate::bytes::extend_range;
use crate::comments::err_pair;
use crate::error::{DocliError, ErrorCode};
use crate::markup::{decimal, push_decimal};
use crate::part_graph::PartGraph;
use crate::text::{chars_of, concat_message, push_str_chars, string_from_chars};

verus! {

/// Deletes the bytes `[byte_offset, byte_end)` of the XML part at `part_path`.
pub fn delete_content(graph: &mut PartGraph, part_path: &str, byte_offset: usize, byte_end: usize) -> (r:
    Result<(), DocliError>)
    ensures
        ({
            let g = old(graph);
            match g.xml(part_path@) {
                None => err_pair(r) == Some((ErrorCode::InvalidDocx, "part not found: "@ + part_path@))
                    && forall|p: Seq<char>| #[trigger] final(graph).part(p) == g.part(p),
                Some(x) => if byte_offset > byte_end {
                    err_pair(r) == Some(
                        (
                            ErrorCode::InvalidOperation,
                            "byte_offset ("@ + decimal(byte_offset as nat) + ") > byte_end ("@ + decimal(
                                byte_end as nat,
                            ) + ")"@,
                        ),
                    ) && forall|p: Seq<char>| #[trigger] final(graph).part(p) == g.part(p)
                } else if byte_end > x.len() {
                    err_pair(r) == Some(
                        (
                            ErrorCode::InvalidOperation,
                            "byte_end ("@ + decimal(byte_end as nat) + ") exceeds part length ("@
                                + decimal(x.len()) + ")"@,
                        ),
                    ) && forall|p: Seq<char>| #[trigger] final(graph).part(p) == g.part(p)
                } else {
                    &&& r is Ok
                    &&& final(graph).xml(part_path@) == Some(
                        x.subrange(0, byte_offset as int) + x.subrange(byte_end as int, x.len() as int),
                    )
                    &&& forall|p: Seq<char>| p != part_path@ ==> #[trigger] final(graph).part(p) == g.part(p)
                },
            }
        }),
{
    let xml = match graph.xml_bytes(part_path) {
        Some(x) => x,
        None => {
            return Err(
                DocliError::InvalidDocx { message: concat_message("part not found: ", &chars_of(part_path)) },
            );
        },
    };
    if byte_offset > byte_end {
        let mut msg: Vec<char> = Vec::new();
        push_str_chars(&mut msg, "byte_offset (");
        push_decimal(&mut msg, byte_offset as u64);
        push_str_chars(&mut msg, ") > byte_end (");
        push_decimal(&mut msg, byte_end as u64);
        push_str_chars(&mut msg, ")");
        assert(msg@ =~= "byte_offset ("@ + decimal(byte_offset as nat) + ") > byte_end ("@ + decimal(
            byte_end as nat,
        ) + ")"@);
        return Err(DocliError::InvalidOperation { message: string_from_chars(&msg) });
    }
    if byte_end > xml.len() {
        let mut msg: Vec<char> = Vec::new();
        push_str_chars(&mut msg, "byte_end (");
        push_decimal(&mut msg, byte_end as u64);
        push_str_chars(&mut msg, ") exceeds part length (");
        push_decimal(&mut msg, xml.len() as u64);
        push_str_chars(&mut msg, ")");
        assert(msg@ =~= "byte_end ("@ + decimal(byte_end as nat) + ") exceeds part length ("@
            + decimal(xml@.len()) + ")"@);
        return Err(DocliError::InvalidOperation { message: string_from_chars(&msg) });
    }
    let mut result: Vec<u8> = Vec::new();
    extend_range(&mut result, xml, 0, byte_offset);
    extend_range(&mut result, xml, byte_end, xml.len());
    graph.set_xml(part_path, result);
    Ok(())
}

} // verus!
