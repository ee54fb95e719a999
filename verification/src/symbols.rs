//! The string tables of a target executable: format literals and type names
//! by the address at which the target holds them, and where its ring lies.

use std::collections::HashMap;
use vstd::prelude::*;
use vstd::slice::slice_subrange;
use vstd::utf8::decode_utf8;
use vstd::utf8::valid_utf8;

verus! {

broadcast use vstd::std_specs::hash::group_hash_axioms;

/// Section indices from here on are reserved and name no section.
pub const SHN_LORESERVE: u16 = 0xff00;

/// One section of the executable as its header describes it.
#[derive(Debug)]
pub struct SectionHeader {
    /// The section's name, where the executable gives one.
    pub name: Option<String>,
    pub address: u64,
    pub size: u64,
    /// The section's bytes in the file.
    pub bytes: Vec<u8>,
}

/// A section that the target loads at a 32-bit address.
#[derive(Debug)]
pub struct Section {
    pub address: u32,
    pub bytes: Vec<u8>,
    pub name: String,
}

/// One entry of the symbol table.
#[derive(Debug)]
pub struct Symbol {
    /// The symbol's name, where the executable gives one.
    pub name: Option<String>,
    pub value: u32,
    pub size: u32,
    /// The index of the section that the symbol lives in.
    pub shndx: u16,
    /// The name of that section, where there is such a section and it has
    /// a name.
    pub section: Option<String>,
}

/// What the host needs to know of the executable before it attaches.
pub struct Res {
    /// Format literals by address.
    pub map_strings: HashMap<usize, String>,
    /// Type names by address.
    pub map_types: HashMap<usize, String>,
    pub cursor_address: u32,
    pub buffer_address: u32,
    pub buffer_size: usize,
}

/// Why the executable cannot be used.
#[derive(Debug, Clone, Copy, PartialEq, Eq, Structural)]
pub enum ExtractError {
    /// No symbol names the cursors.
    MissingCursorAddress,
    /// No symbol names the buffer.
    MissingBufferAddress,
}

/// A loaded section as a mathematical value.
pub struct SectionModel {
    pub address: u32,
    pub bytes: Seq<u8>,
    pub name: Seq<char>,
}

impl View for Section {
    type V = SectionModel;

    open spec fn view(&self) -> SectionModel {
        SectionModel { address: self.address, bytes: self.bytes@, name: self.name@ }
    }
}

/// The sections of a list as mathematical values.
pub open spec fn sections_model(sections: Seq<Section>) -> Seq<SectionModel> {
    Seq::new(sections.len(), |i: int| sections[i]@)
}

/// Whether the section is kept: it has bytes and a name, lies within the
/// 32-bit address space and starts at a multiple of four.
pub open spec fn keeps(h: SectionHeader) -> bool {
    &&& h.size != 0
    &&& h.name is Some
    &&& h.address <= u32::MAX
    &&& h.address + h.size <= u32::MAX
    &&& h.address % 4 == 0
}

/// The sections that are kept of the first `k` headers, in their order.
pub open spec fn kept(headers: Seq<SectionHeader>, k: nat) -> Seq<SectionModel>
    decreases k,
{
    if k == 0 || k > headers.len() {
        Seq::empty()
    } else {
        let h = headers[k - 1];
        let before = kept(headers, (k - 1) as nat);
        if keeps(h) {
            before.push(
                SectionModel { address: h.address as u32, bytes: h.bytes@, name: h.name->Some_0@ },
            )
        } else {
            before
        }
    }
}

/// The position, from `k` on, of the first section called `name`.
pub open spec fn section_position(sections: Seq<SectionModel>, name: Seq<char>, k: int) -> Option<
    int,
>
    decreases sections.len() - k,
{
    if k < 0 || k >= sections.len() {
        None
    } else if sections[k].name == name {
        Some(k)
    } else {
        section_position(sections, name, k + 1)
    }
}

/// The text that the symbol names in the section called `wanted`: the
/// symbol has a name, lives in a section of that name, and its bytes lie
/// within the first kept section of that name and are valid UTF-8.
pub open spec fn literal_of(sections: Seq<SectionModel>, wanted: Seq<char>, sym: Symbol) -> Option<
    Seq<char>,
> {
    if sym.name is Some && sym.shndx < SHN_LORESERVE && sym.section is Some
        && sym.section->Some_0@ == wanted {
        match section_position(sections, wanted, 0) {
            Some(i) => {
                let cs = sections[i];
                if sym.value >= cs.address && (sym.value - cs.address) + sym.size
                    <= cs.bytes.len() {
                    let text = cs.bytes.subrange(
                        sym.value - cs.address,
                        (sym.value - cs.address) + sym.size,
                    );
                    if valid_utf8(text) {
                        Some(decode_utf8(text))
                    } else {
                        None
                    }
                } else {
                    None
                }
            },
            None => None,
        }
    } else {
        None
    }
}

/// The texts that the first `k` symbols name in the section called
/// `wanted`, by address; of two symbols at one address the later one
/// counts.
pub open spec fn table(
    symbols: Seq<Symbol>,
    sections: Seq<SectionModel>,
    wanted: Seq<char>,
    k: nat,
) -> Map<usize, Seq<char>>
    decreases k,
{
    if k == 0 || k > symbols.len() {
        Map::empty()
    } else {
        let before = table(symbols, sections, wanted, (k - 1) as nat);
        match literal_of(sections, wanted, symbols[k - 1]) {
            Some(text) => before.insert(symbols[k - 1].value as usize, text),
            None => before,
        }
    }
}

/// The last of the first `k` symbols that is called `name`.
pub open spec fn last_named(symbols: Seq<Symbol>, name: Seq<char>, k: nat) -> Option<int>
    decreases k,
{
    if k == 0 || k > symbols.len() {
        None
    } else if symbols[k - 1].name is Some && symbols[k - 1].name->Some_0@ == name {
        Some(k - 1)
    } else {
        last_named(symbols, name, (k - 1) as nat)
    }
}

/// The texts of a table.
pub open spec fn texts(m: Map<usize, String>) -> Map<usize, Seq<char>> {
    Map::new(|k: usize| m.contains_key(k), |k: usize| m[k]@)
}

/// `std::str::from_utf8`, with the text copied into a `String`: there is a
/// text exactly where the bytes are valid UTF-8, and it is what they
/// encode.
#[verifier::external_body]
fn utf8_text(bytes: &[u8]) -> (r: Option<String>)
    ensures
        r is Some <==> valid_utf8(bytes@),
        r matches Some(s) ==> s@ == decode_utf8(bytes@),
{
    match std::str::from_utf8(bytes) {
        Ok(s) => Some(s.to_string()),
        Err(_) => None,
    }
}

/// The sections that the target loads: those that are kept, in their
/// order.
pub fn get_sections(headers: &Vec<SectionHeader>) -> (sections: Vec<Section>)
    ensures
        sections_model(sections@) == kept(headers@, headers@.len()),
{
    let mut sections: Vec<Section> = Vec::new();
    let mut k: usize = 0;
    assert(sections_model(sections@) =~= Seq::empty());
    while k < headers.len()
        invariant
            k <= headers@.len(),
            sections_model(sections@) == kept(headers@, k as nat),
        decreases headers@.len() - k,
    {
        let sect = &headers[k];
        k += 1;
        if sect.size != 0 && sect.address <= 0xffff_ffff && sect.size <= 0xffff_ffff - sect.address
            && sect.address % 4 == 0 {
            match &sect.name {
                Some(name) => {
                    let ghost before = sections@;
                    let section = Section {
                        address: sect.address as u32,
                        bytes: copy_bytes(&sect.bytes),
                        name: name.clone(),
                    };
                    sections.push(section);
                    assert(sections_model(sections@) =~= sections_model(before).push(section@));
                },
                None => {},
            }
        }
    }
    sections
}

/// A copy of the bytes.
pub fn copy_bytes(bytes: &Vec<u8>) -> (r: Vec<u8>)
    ensures
        r@ == bytes@,
{
    let mut r: Vec<u8> = Vec::new();
    let mut i: usize = 0;
    while i < bytes.len()
        invariant
            i <= bytes@.len(),
            r@ == bytes@.take(i as int),
        decreases bytes@.len() - i,
    {
        r.push(bytes[i]);
        assert(r@ =~= bytes@.take(i + 1));
        i += 1;
    }
    assert(bytes@.take(bytes@.len() as int) =~= bytes@);
    r
}

/// The first section called `name`.
pub fn find_section(sections: &Vec<Section>, name: &str) -> (r: Option<usize>)
    ensures
        section_position(sections_model(sections@), name@, 0) == (match r {
            Some(i) => Some(i as int),
            None => None,
        }),
        r matches Some(i) ==> i < sections@.len(),
{
    let wanted = String::from_str(name);
    let ghost models = sections_model(sections@);
    let mut i: usize = 0;
    while i < sections.len()
        invariant
            i <= sections@.len(),
            wanted@ == name@,
            models == sections_model(sections@),
            section_position(models, name@, 0) == section_position(models, name@, i as int),
        decreases sections@.len() - i,
    {
        if sections[i].name == wanted {
            return Some(i);
        }
        i += 1;
    }
    None
}

/// Whether the name is there and is `wanted`.
pub fn is_named(name: &Option<String>, wanted: &str) -> (r: bool)
    ensures
        r == (name is Some && name->Some_0@ == wanted@),
{
    match name {
        Some(n) => {
            let w = String::from_str(wanted);
            *n == w
        },
        None => false,
    }
}

/// The text that the symbol names in the section called `wanted`.
pub fn read_literal(sections: &Vec<Section>, wanted: &str, sym: &Symbol) -> (r: Option<String>)
    ensures
        match literal_of(sections_model(sections@), wanted@, *sym) {
            Some(text) => r is Some && r->Some_0@ == text,
            None => r is None,
        },
{
    if sym.name.is_none() || sym.shndx >= SHN_LORESERVE || !is_named(&sym.section, wanted) {
        return None;
    }
    match find_section(sections, wanted) {
        Some(i) => {
            let cs = &sections[i];
            assert(sections_model(sections@)[i as int] == cs@);
            if sym.value < cs.address {
                return None;
            }
            // offset for byte array
            let ev_off: usize = (sym.value - cs.address) as usize;
            let es: usize = sym.size as usize;
            if ev_off > cs.bytes.len() || es > cs.bytes.len() - ev_off {
                return None;
            }
            utf8_text(slice_subrange(cs.bytes.as_slice(), ev_off, ev_off + es))
        },
        None => None,
    }
}

/// Reads the string tables and the place of the ring out of the symbol
/// table and the sections of an executable.
pub fn extract_format_and_type_strings(symbols: &Vec<Symbol>, headers: &Vec<SectionHeader>) -> (r:
    Result<Res, ExtractError>)
    ensures
        match r {
            Ok(res) => {
                let cursors = last_named(symbols@, "LOG0_CURSORS"@, symbols@.len());
                let buffer = last_named(symbols@, "LOG0_BUFFER"@, symbols@.len());
                &&& cursors is Some
                &&& buffer is Some
                &&& res.cursor_address == symbols@[cursors->Some_0].value
                &&& res.buffer_address == symbols@[buffer->Some_0].value
                &&& res.buffer_size == symbols@[buffer->Some_0].size
                &&& texts(res.map_strings@) == table(
                    symbols@,
                    kept(headers@, headers@.len()),
                    ".fasthosting"@,
                    symbols@.len(),
                )
                &&& texts(res.map_types@) == table(
                    symbols@,
                    kept(headers@, headers@.len()),
                    ".rodata"@,
                    symbols@.len(),
                )
            },
            Err(ExtractError::MissingCursorAddress) => last_named(
                symbols@,
                "LOG0_CURSORS"@,
                symbols@.len(),
            ) is None,
            Err(ExtractError::MissingBufferAddress) => last_named(
                symbols@,
                "LOG0_CURSORS"@,
                symbols@.len(),
            ) is Some && last_named(symbols@, "LOG0_BUFFER"@, symbols@.len()) is None,
        },
{
    let mut cursor_address: Option<u32> = None;
    let mut buf_address: Option<(u32, usize)> = None;

    let sections = get_sections(headers);
    let ghost loaded = sections_model(sections@);

    let mut map_strings: HashMap<usize, String> = HashMap::new();
    let mut map_types: HashMap<usize, String> = HashMap::new();
    assert(texts(map_strings@) =~= Map::empty());
    assert(texts(map_types@) =~= Map::empty());

    let mut k: usize = 0;
    while k < symbols.len()
        invariant
            k <= symbols@.len(),
            loaded == sections_model(sections@),
            texts(map_strings@) == table(symbols@, loaded, ".fasthosting"@, k as nat),
            texts(map_types@) == table(symbols@, loaded, ".rodata"@, k as nat),
            match last_named(symbols@, "LOG0_CURSORS"@, k as nat) {
                Some(i) => cursor_address == Some(symbols@[i].value),
                None => cursor_address is None,
            },
            match last_named(symbols@, "LOG0_BUFFER"@, k as nat) {
                Some(i) => buf_address == Some((symbols@[i].value, symbols@[i].size as usize)),
                None => buf_address is None,
            },
        decreases symbols@.len() - k,
    {
        let entry = &symbols[k];
        k += 1;
        let ghost strings_before = map_strings@;
        let ghost types_before = map_types@;
        match read_literal(&sections, ".fasthosting", entry) {
            Some(s) => {
                map_strings.insert(entry.value as usize, s);
                assert(texts(map_strings@) =~= texts(strings_before).insert(
                    entry.value as usize,
                    s@,
                ));
            },
            None => {},
        }
        match read_literal(&sections, ".rodata", entry) {
            Some(s) => {
                map_types.insert(entry.value as usize, s);
                assert(texts(map_types@) =~= texts(types_before).insert(entry.value as usize, s@));
            },
            None => {},
        }
        if is_named(&entry.name, "LOG0_CURSORS") {
            cursor_address = Some(entry.value);
        }
        if is_named(&entry.name, "LOG0_BUFFER") {
            buf_address = Some((entry.value, entry.size as usize));
        }
    }

    match (cursor_address, buf_address) {
        (None, _) => Err(ExtractError::MissingCursorAddress),
        (Some(_), None) => Err(ExtractError::MissingBufferAddress),
        (Some(cursor_address), Some((buffer_address, buffer_size))) => Ok(
            Res { map_strings, map_types, cursor_address, buffer_address, buffer_size },
        ),
    }
}

} // verus!
