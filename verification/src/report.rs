//! What the host shows for one frame: the format literal and the value.

use crate::parser::Packet;
use crate::printer::Piece;
use crate::printer::RenderError;
use crate::printer::Rendering;
use crate::printer::as_glyphs;
use crate::printer::flatten;
use crate::printer::put_all;
use crate::printer::put_text;
use crate::printers::TypePrinters;
use crate::printers::printed;
use crate::symbols::Res;
use crate::symbols::texts;
use crate::types::TypeModel;
use std::collections::HashMap;
use vstd::prelude::*;

verus! {

broadcast use vstd::std_specs::hash::group_hash_axioms;

/// What stands in the place of a text that a table lacks.
pub open spec fn missing_text() -> Seq<char> {
    "String not found in hashmap?!?!?!"@
}

/// The text under `key`, or the placeholder where the table has none.
pub open spec fn text_at(table: Map<usize, Seq<char>>, key: usize) -> Seq<char> {
    if table.contains_key(key) {
        table[key]
    } else {
        missing_text()
    }
}

/// The line for a frame with the keys `string_loc` and `type_loc` and the
/// payload `buffer`: the format literal, and the value as the catalogue
/// prints it under the name of its type. A key that its table lacks gives
/// the placeholder in the place of the literal or of the value.
pub open spec fn described(
    strings: Map<usize, Seq<char>>,
    types: Map<usize, Seq<char>>,
    catalogue: Seq<TypeModel>,
    string_loc: usize,
    type_loc: usize,
    buffer: Seq<u8>,
) -> Result<Rendering, RenderError> {
    let value = if types.contains_key(type_loc) {
        printed(catalogue, types[type_loc], buffer)
    } else {
        Ok(as_glyphs(missing_text()))
    };
    match value {
        Ok(v) => Ok(
            as_glyphs("String: '"@) + as_glyphs(text_at(strings, string_loc)) + as_glyphs(
                "', Value: "@,
            ) + v,
        ),
        Err(e) => Err(e),
    }
}

/// The text under `key`.
pub fn lookup<'a>(table: &'a HashMap<usize, String>, key: usize) -> (r: Option<&'a String>)
    ensures
        match r {
            Some(s) => texts(table@).contains_key(key) && texts(table@)[key] == s@,
            None => !texts(table@).contains_key(key),
        },
{
    table.get(&key)
}

/// Appends the line for `packet` to `w`.
pub fn describe(res: &Res, printers: &TypePrinters, packet: &Packet, w: &mut Vec<Piece>) -> (r:
    Result<(), RenderError>)
    ensures
        match described(
            texts(res.map_strings@),
            texts(res.map_types@),
            printers@,
            packet.string_loc,
            packet.type_loc,
            packet.buffer@,
        ) {
            Ok(text) => r is Ok && flatten(final(w)@) == flatten(old(w)@) + text,
            Err(e) => r == Err::<(), RenderError>(e) && final(w)@ == old(w)@,
        },
{
    let mut out: Vec<Piece> = Vec::new();
    assert(flatten(out@) =~= Rendering::empty());
    put_text(&mut out, "String: '");
    match lookup(&res.map_strings, packet.string_loc) {
        Some(literal) => put_text(&mut out, literal.as_str()),
        None => put_text(&mut out, "String not found in hashmap?!?!?!"),
    }
    put_text(&mut out, "', Value: ");
    let ghost head = flatten(out@);
    match lookup(&res.map_types, packet.type_loc) {
        Some(name) => {
            match printers.print(&mut out, name.as_str(), packet.buffer.as_slice()) {
                Ok(()) => {},
                Err(e) => {
                    return Err(e);
                },
            }
        },
        None => {
            put_text(&mut out, "String not found in hashmap?!?!?!");
        },
    }
    proof {
        let text = described(
            texts(res.map_strings@),
            texts(res.map_types@),
            printers@,
            packet.string_loc,
            packet.type_loc,
            packet.buffer@,
        )->Ok_0;
        assert(head =~= as_glyphs("String: '"@) + as_glyphs(
            text_at(texts(res.map_strings@), packet.string_loc),
        ) + as_glyphs("', Value: "@));
        assert(flatten(out@) =~= text);
    }
    put_all(w, out);
    Ok(())
}

} // verus!
