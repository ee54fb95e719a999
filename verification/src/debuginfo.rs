//! Reads the debugging information entries of a target executable into
//! plain values.

use crate::catalogue::CatalogueError;
use crate::catalogue::MAX_DEPTH;
use crate::catalogue::catalogue_of;
use crate::catalogue::namespace_types;
use crate::dwarf::Attr;
use crate::dwarf::AttrValue;
use crate::dwarf::Entry;
use crate::dwarf::UnitImage;
use crate::extract::listed;
use crate::extract::walk_namespace;
use crate::printers::TypePrinters;
use crate::printers::printers_of;
use crate::tree::kids;
use crate::tree::lemma_kids_bounds;
use crate::tree::link;
use crate::types::Type;
use object::Object;
use object::ObjectSection;
use vstd::prelude::*;

verus! {

/// The sections that debugging information is read from.
pub const SECTION_COUNT: usize = 25;

/// The names of the sections that debugging information is read from.
pub open spec fn section_names() -> Seq<Seq<char>> {
    seq![
        ".debug_abbrev"@,
        ".debug_addr"@,
        ".debug_aranges"@,
        ".debug_cu_index"@,
        ".debug_frame"@,
        ".eh_frame"@,
        ".eh_frame_hdr"@,
        ".debug_gnu_pubnames"@,
        ".debug_gnu_pubtypes"@,
        ".debug_info"@,
        ".debug_line"@,
        ".debug_line_str"@,
        ".debug_loc"@,
        ".debug_loclists"@,
        ".debug_macinfo"@,
        ".debug_macro"@,
        ".debug_names"@,
        ".debug_pubnames"@,
        ".debug_pubtypes"@,
        ".debug_ranges"@,
        ".debug_rnglists"@,
        ".debug_str"@,
        ".debug_str_offsets"@,
        ".debug_tu_index"@,
        ".debug_types"@,
    ]
}

/// The name of the section at position `i` of those that debugging
/// information is read from.
pub fn section_name(i: usize) -> (name: &'static str)
    requires
        i < SECTION_COUNT,
    ensures
        name@ == section_names()[i as int],
{
    if i == 0 {
        ".debug_abbrev"
    } else if i == 1 {
        ".debug_addr"
    } else if i == 2 {
        ".debug_aranges"
    } else if i == 3 {
        ".debug_cu_index"
    } else if i == 4 {
        ".debug_frame"
    } else if i == 5 {
        ".eh_frame"
    } else if i == 6 {
        ".eh_frame_hdr"
    } else if i == 7 {
        ".debug_gnu_pubnames"
    } else if i == 8 {
        ".debug_gnu_pubtypes"
    } else if i == 9 {
        ".debug_info"
    } else if i == 10 {
        ".debug_line"
    } else if i == 11 {
        ".debug_line_str"
    } else if i == 12 {
        ".debug_loc"
    } else if i == 13 {
        ".debug_loclists"
    } else if i == 14 {
        ".debug_macinfo"
    } else if i == 15 {
        ".debug_macro"
    } else if i == 16 {
        ".debug_names"
    } else if i == 17 {
        ".debug_pubnames"
    } else if i == 18 {
        ".debug_pubtypes"
    } else if i == 19 {
        ".debug_ranges"
    } else if i == 20 {
        ".debug_rnglists"
    } else if i == 21 {
        ".debug_str"
    } else if i == 22 {
        ".debug_str_offsets"
    } else if i == 23 {
        ".debug_tu_index"
    } else {
        ".debug_types"
    }
}

/// A section of the executable that was read for its debugging
/// information.
pub struct LoadedSection {
    pub name: String,
    pub bytes: Vec<u8>,
}

/// Whether the bytes are an object file that can be read.
pub uninterp spec fn object_parses(data: Seq<u8>) -> bool;

/// The bytes of the first section of the object file `data` that is called
/// `name`, uncompressed; none where there is no such section or it cannot be
/// uncompressed.
pub uninterp spec fn section_bytes(data: Seq<u8>, name: Seq<char>) -> Seq<u8>;

/// `object::File::parse`: whether the bytes parse as an object file. That
/// depends on the bytes alone: it is what `object_parses` names.
#[verifier::external_body]
fn is_object(data: &[u8]) -> (r: bool)
    ensures
        r == object_parses(data@),
{
    object::File::parse(data).is_ok()
}

/// `object::File::parse`, `Object::section_by_name` and
/// `ObjectSection::uncompressed_data`: the bytes of the section called
/// `name`. The result is empty where any of the three fails. It depends on
/// the file's bytes and the name alone: it is what `section_bytes` names.
#[verifier::external_body]
fn read_section(data: &[u8], name: &str) -> (r: Vec<u8>)
    ensures
        r@ == section_bytes(data@, name@),
{
    match object::File::parse(data) {
        Ok(file) => match file.section_by_name(name) {
            Some(section) => match section.uncompressed_data() {
                Ok(bytes) => bytes.into_owned(),
                Err(_) => Vec::new(),
            },
            None => Vec::new(),
        },
        Err(_) => Vec::new(),
    }
}

/// The bytes of the first of the sections from position `k` on that is
/// called `name`; none where there is no such section.
pub open spec fn picked(sections: Seq<LoadedSection>, name: Seq<char>, k: int) -> Seq<u8>
    decreases sections.len() - k,
{
    if k < 0 || k >= sections.len() {
        Seq::empty()
    } else if sections[k].name@ == name {
        sections[k].bytes@
    } else {
        picked(sections, name, k + 1)
    }
}

/// The bytes of the first of the sections that is called `name`; none
/// where there is no such section.
pub fn pick<'a>(sections: &'a Vec<LoadedSection>, name: &str) -> (r: &'a [u8])
    ensures
        r@ == picked(sections@, name@, 0),
{
    let wanted = String::from_str(name);
    let mut i: usize = 0;
    while i < sections.len()
        invariant
            i <= sections@.len(),
            wanted@ == name@,
            picked(sections@, name@, 0) == picked(sections@, name@, i as int),
        decreases sections@.len() - i,
    {
        if sections[i].name == wanted {
            return sections[i].bytes.as_slice();
        }
        i += 1;
    }
    let none: &'static [u8] = &[];
    none
}

/// Reads the sections that debugging information is read from out of the
/// object file `data`, each under its name.
pub fn load_sections(data: &[u8]) -> (sections: Vec<LoadedSection>)
    ensures
        sections@.len() == SECTION_COUNT,
        forall|i: int|
            0 <= i < SECTION_COUNT ==> (#[trigger] sections@[i]).name@ == section_names()[i]
                && sections@[i].bytes@ == section_bytes(data@, section_names()[i]),
{
    let mut sections: Vec<LoadedSection> = Vec::new();
    let mut i: usize = 0;
    while i < SECTION_COUNT
        invariant
            i <= SECTION_COUNT,
            sections@.len() == i,
            forall|j: int|
                0 <= j < i ==> (#[trigger] sections@[j]).name@ == section_names()[j]
                    && sections@[j].bytes@ == section_bytes(data@, section_names()[j]),
        decreases SECTION_COUNT - i,
    {
        let name = section_name(i);
        sections.push(LoadedSection { name: String::from_str(name), bytes: read_section(data, name) });
        i += 1;
    }
    sections
}

/// This struct contains all the necessary debug info we might need during our traversal.
///
/// It holds a `gimli::Dwarf` over reference-counted little-endian readers.
/// Nothing is known of what is in it: the functions that read it say what
/// holds of whatever they find.
#[verifier::external_body]
pub struct DebugInfo {
    dwarf: gimli::Dwarf<gimli::EndianReader<gimli::LittleEndian, std::rc::Rc<[u8]>>>,
}

/// One compilation unit of the debugging information.
///
/// It holds a `gimli::Unit`. Nothing is known of what is in it.
#[verifier::external_body]
pub struct UnitInfo {
    unit: gimli::Unit<gimli::EndianReader<gimli::LittleEndian, std::rc::Rc<[u8]>>>,
}

/// What stands at a position of the list of units.
pub enum UnitStep {
    /// A unit that could be read.
    Unit(UnitInfo),
    /// A unit whose header could be read and whose entries could not.
    Skipped,
    /// No unit: the list ends here, or its next header cannot be read.
    End,
}

/// What an entry is, short of its attributes.
#[derive(Debug, Clone, Copy)]
pub struct EntryHead {
    pub tag: u16,
    pub has_children: bool,
    pub attr_count: usize,
}

/// The value of an attribute as it stands in the entry: a string of the
/// string section by its offset.
#[derive(Debug)]
pub enum RawValue {
    Udata(u64),
    Data1(u8),
    UnitRef(usize),
    Encoding(u8),
    DebugStrRef(usize),
    Inline(String),
    Other,
}

/// One attribute as it stands in the entry.
#[derive(Debug)]
pub struct RawAttr {
    pub name: u16,
    pub value: RawValue,
}

/// The names of the sections.
pub open spec fn names_of(sections: Seq<LoadedSection>) -> Seq<Seq<char>> {
    Seq::new(sections.len(), |i: int| sections[i].name@)
}

/// The bytes of the sections.
pub open spec fn bytes_of(sections: Seq<LoadedSection>) -> Seq<Seq<u8>> {
    Seq::new(sections.len(), |i: int| sections[i].bytes@)
}

/// The debugging information that the reader makes of sections with these
/// names and bytes.
pub uninterp spec fn assembled(names: Seq<Seq<char>>, bytes: Seq<Seq<u8>>) -> Option<DebugInfo>;

/// What stands at position `k` of the list of units.
pub uninterp spec fn info_unit(info: DebugInfo, k: usize) -> UnitStep;

/// The bytes of the sections that debugging information is read from, in
/// the order of their names.
pub open spec fn loaded_bytes(data: Seq<u8>) -> Seq<Seq<u8>> {
    Seq::new(SECTION_COUNT as nat, |i: int| section_bytes(data, section_names()[i]))
}

/// The debugging information of the object file `data`; none where the
/// bytes are no object file.
pub open spec fn debug_info_of(data: Seq<u8>) -> Option<DebugInfo> {
    if object_parses(data) {
        assembled(section_names(), loaded_bytes(data))
    } else {
        None
    }
}

/// The units from position `k` of the list on that can be read: a unit
/// whose entries cannot be read is passed over, and the list ends where a
/// header cannot be read.
pub open spec fn units_from(info: DebugInfo, k: usize) -> Seq<UnitInfo>
    decreases usize::MAX - k,
{
    if k >= usize::MAX {
        Seq::empty()
    } else {
        match info_unit(info, k) {
            UnitStep::Unit(unit) => seq![unit] + units_from(info, (k + 1) as usize),
            UnitStep::Skipped => units_from(info, (k + 1) as usize),
            UnitStep::End => Seq::empty(),
        }
    }
}

/// The position after the first unit from position `k` on that can be
/// read; where there is none, the position at which the list ends.
pub open spec fn position_after(info: DebugInfo, k: usize) -> usize
    decreases usize::MAX - k,
{
    if k >= usize::MAX {
        k
    } else {
        match info_unit(info, k) {
            UnitStep::Unit(unit) => (k + 1) as usize,
            UnitStep::Skipped => position_after(info, (k + 1) as usize),
            UnitStep::End => k,
        }
    }
}

/// Passing over a unit that was read leaves the units after it.
pub proof fn lemma_units_after(info: DebugInfo, k: usize)
    ensures
        position_after(info, k) >= k,
        units_from(info, k).len() > 0 ==> position_after(info, k) > k && units_from(
            info,
            position_after(info, k),
        ) == units_from(info, k).skip(1),
    decreases usize::MAX - k,
{
    if k < usize::MAX {
        match info_unit(info, k) {
            UnitStep::Unit(unit) => {
                assert((seq![unit] + units_from(info, (k + 1) as usize)).skip(1) =~= units_from(
                    info,
                    (k + 1) as usize,
                ));
            },
            UnitStep::Skipped => {
                lemma_units_after(info, (k + 1) as usize);
            },
            UnitStep::End => {},
        }
    }
}

/// `gimli::Dwarf::load`, with a loader that hands out the bytes that `pick`
/// finds under the section's name, as a little-endian reader: what comes of
/// it depends on the names and the bytes of the sections alone.
#[verifier::external_body]
fn assemble(sections: &Vec<LoadedSection>) -> (r: Option<DebugInfo>)
    ensures
        r == assembled(names_of(sections@), bytes_of(sections@)),
{
    let load = |id: gimli::SectionId| -> Result<_, gimli::Error> {
        Ok(gimli::EndianReader::new(std::rc::Rc::from(pick(sections, id.name())), gimli::LittleEndian))
    };
    match gimli::Dwarf::load(load) {
        Ok(dwarf) => Some(DebugInfo { dwarf }),
        Err(_) => None,
    }
}

/// What stands in the map under the key, if anything does.
pub open spec fn found_in<K, V>(m: Map<K, V>, k: K) -> Option<V> {
    if m.contains_key(k) {
        Some(m[k])
    } else {
        None
    }
}

/// The strings of the string section by their offsets, as far as they can
/// be read.
pub uninterp spec fn info_strings(info: DebugInfo) -> Map<usize, String>;

/// Where the unit's first entry stands.
pub uninterp spec fn unit_root(unit: UnitInfo) -> usize;

/// The entries of the unit by their offsets, as far as they can be read.
pub uninterp spec fn unit_heads(unit: UnitInfo) -> Map<usize, EntryHead>;

/// The attributes of the unit's entries, by the entry's offset and the
/// attribute's position in it.
pub uninterp spec fn unit_attrs(unit: UnitInfo) -> Map<(usize, usize), RawAttr>;

/// For the entries of the unit that have one, by their offsets: the offset
/// of the entry that follows, and how many levels it stands below.
pub uninterp spec fn unit_after(unit: UnitInfo) -> Map<usize, (usize, isize)>;

impl DebugInfo {
    /// Parse debug information directly from a buffer containing an ELF file.
    /// There is none where the bytes are no object file; else it is what
    /// the reader makes of the sections that `load_sections` gives.
    pub fn from_raw(data: &[u8]) -> (r: Option<Self>)
        ensures
            r == debug_info_of(data@),
    {
        if !is_object(data) {
            return None;
        }
        let sections = load_sections(data);
        proof {
            assert(section_names().len() == SECTION_COUNT);
            assert(names_of(sections@) =~= section_names());
            assert(bytes_of(sections@) =~= loaded_bytes(data@));
        }
        assemble(&sections)
    }

    /// `gimli::Dwarf::units`, the iterator's `nth` and `gimli::Dwarf::unit`:
    /// the unit at position `k` of the list of units. What stands there
    /// depends on the debugging information and the position alone: it is
    /// what `info_unit` names.
    #[verifier::external_body]
    fn unit_at(&self, k: usize) -> (r: UnitStep)
        ensures
            r == info_unit(*self, k),
    {
        match self.dwarf.units().nth(k) {
            Some(Ok(header)) => match self.dwarf.unit(header) {
                Ok(unit) => UnitStep::Unit(UnitInfo { unit }),
                Err(_) => UnitStep::Skipped,
            },
            _ => UnitStep::End,
        }
    }

    /// `gimli::Dwarf::string` and `Reader::to_string_lossy`: the string at
    /// `offset` of the string section, bytes that are no UTF-8 replaced.
    /// The string depends on the debugging information and the offset
    /// alone: it is what `info_strings` holds under the offset.
    #[verifier::external_body]
    fn string_at(&self, offset: usize) -> (r: Option<String>)
        ensures
            r == found_in(info_strings(*self), offset),
    {
        match self.dwarf.string(gimli::DebugStrOffset(offset)) {
            Ok(bytes) => match gimli::Reader::to_string_lossy(&bytes) {
                Ok(text) => Some(text.into_owned()),
                Err(_) => None,
            },
            Err(_) => None,
        }
    }

    /// Get the next unit from position `from` on that can be read, and
    /// move `from` past it.
    pub fn get_next_unit_info(&self, from: &mut usize) -> (r: Option<UnitInfo>)
        ensures
            *final(from) == position_after(*self, *old(from)),
            match r {
                Some(unit) => units_from(*self, *old(from)).len() > 0 && unit == units_from(
                    *self,
                    *old(from),
                )[0],
                None => units_from(*self, *old(from)).len() == 0,
            },
    {
        while *from < usize::MAX
            invariant
                *from >= *old(from),
                units_from(*self, *from) == units_from(*self, *old(from)),
                position_after(*self, *from) == position_after(*self, *old(from)),
            decreases usize::MAX - *from,
        {
            let step = self.unit_at(*from);
            match step {
                UnitStep::Unit(unit) => {
                    *from = *from + 1;
                    return Some(unit);
                },
                UnitStep::Skipped => {
                    *from = *from + 1;
                },
                UnitStep::End => {
                    return None;
                },
            }
        }
        None
    }
}

impl UnitInfo {
    /// `gimli::UnitHeader::root_offset`: where the unit's first entry
    /// stands. It depends on the unit alone: it is what `unit_root` names.
    #[verifier::external_body]
    fn root_offset(&self) -> (r: usize)
        ensures
            r == unit_root(*self),
    {
        self.unit.header.root_offset().0
    }

    /// `gimli::Unit::entry`: tag, children flag and number of attributes of
    /// the entry at `offset`; none where no entry can be read there. What
    /// is read depends on the unit and the offset alone: it is what
    /// `unit_heads` holds under the offset.
    #[verifier::external_body]
    fn entry_at(&self, offset: usize) -> (r: Option<EntryHead>)
        ensures
            r == found_in(unit_heads(*self), offset),
    {
        match self.unit.entry(gimli::UnitOffset(offset)) {
            Ok(entry) => Some(
                EntryHead {
                    tag: entry.tag.0,
                    has_children: entry.has_children,
                    attr_count: entry.attrs.len(),
                },
            ),
            Err(_) => None,
        }
    }

    /// `gimli::Unit::entry` and `gimli::Attribute::value`: name and value of
    /// attribute `i` of the entry at `offset`, the value's variant told
    /// apart and an inline string's bytes that are no UTF-8 replaced; none
    /// where there is no such entry or attribute. What is read depends on
    /// the unit, the offset and the position alone: it is what `unit_attrs`
    /// holds under the two.
    #[verifier::external_body]
    fn attr_at(&self, offset: usize, i: usize) -> (r: Option<RawAttr>)
        ensures
            r == found_in(unit_attrs(*self), (offset, i)),
    {
        let entry = self.unit.entry(gimli::UnitOffset(offset)).ok()?;
        let attr = entry.attrs.get(i)?;
        let value = match attr.value() {
            gimli::AttributeValue::Udata(v) => RawValue::Udata(v),
            gimli::AttributeValue::Data1(v) => RawValue::Data1(v),
            gimli::AttributeValue::UnitRef(v) => RawValue::UnitRef(v.0),
            gimli::AttributeValue::Encoding(v) => RawValue::Encoding(v.0),
            gimli::AttributeValue::DebugStrRef(v) => RawValue::DebugStrRef(v.0),
            gimli::AttributeValue::String(v) => RawValue::Inline(String::from_utf8_lossy(&v).into_owned()),
            _ => RawValue::Other,
        };
        Some(RawAttr { name: attr.name().0, value })
    }

    /// `gimli::Unit::entries_at_offset` and `EntriesCursor::next_dfs`: the
    /// offset of the entry that follows the one at `offset` in the unit, and
    /// how much deeper than that one it stands in the tree; none where
    /// nothing follows or it cannot be read. What is read depends on the
    /// unit and the offset alone: it is what `unit_after` holds under the
    /// offset.
    #[verifier::external_body]
    fn offset_after(&self, offset: usize) -> (r: Option<(usize, isize)>)
        ensures
            r == found_in(unit_after(*self), offset),
    {
        let mut cursor = self.unit.entries_at_offset(gimli::UnitOffset(offset)).ok()?;
        cursor.next_dfs().ok()??;
        let next = cursor.next_dfs().ok()??;
        Some((next.offset.0, next.depth))
    }

    /// Reads the entries of the unit in the order in which they stand in
    /// it: each with its attributes and without children, and beside it how
    /// many levels it stands below the entry before it. Reading ends where
    /// no entry can be read or the offsets do not rise.
    pub fn scan(&self, info: &DebugInfo) -> (r: (Vec<Entry>, Vec<isize>))
        ensures
            scanned_as(scanned_from(*self, *info, unit_root(*self), 0), r.0@, r.1@),
    {
        let mut entries: Vec<Entry> = Vec::new();
        let mut steps: Vec<isize> = Vec::new();
        let mut offset: usize = self.root_offset();
        let mut step: isize = 0;
        let ghost whole = scanned_from(*self, *info, unit_root(*self), 0);
        let ghost mut done: Seq<Scanned> = Seq::empty();
        proof {
            assert(done + whole =~= whole);
        }
        loop
            invariant_except_break
                whole == done + scanned_from(*self, *info, offset, step),
            invariant
                scanned_as(done, entries@, steps@),
            ensures
                whole == done,
            decreases usize::MAX - offset,
        {
            let head = match self.entry_at(offset) {
                Some(head) => head,
                None => {
                    proof {
                        assert(done + Seq::<Scanned>::empty() =~= done);
                    }
                    break ;
                },
            };
            let attrs = self.read_attrs(info, offset, head.attr_count);
            let ghost here = Scanned { offset, head, attrs: attrs@, step };
            let ghost rest = scanned_from(*self, *info, offset, step).skip(1);
            entries.push(
                Entry {
                    offset,
                    tag: head.tag,
                    has_children: head.has_children,
                    attrs,
                    children: Vec::new(),
                },
            );
            steps.push(step);
            proof {
                assert(scanned_from(*self, *info, offset, step) =~= seq![here] + rest);
                assert(done + (seq![here] + rest) =~= done.push(here) + rest);
                done = done.push(here);
            }
            let (next, depth) = match self.offset_after(offset) {
                Some(after) => after,
                None => {
                    proof {
                        assert(rest =~= Seq::<Scanned>::empty());
                        assert(done + rest =~= done);
                    }
                    break ;
                },
            };
            if next <= offset {
                proof {
                    assert(rest =~= Seq::<Scanned>::empty());
                    assert(done + rest =~= done);
                }
                break ;
            }
            proof {
                assert(rest =~= scanned_from(*self, *info, next, depth));
            }
            offset = next;
            step = depth;
        }
        (entries, steps)
    }

    /// Reads the entries of the unit and gives each its place in the tree.
    pub fn read(&self, info: &DebugInfo) -> (image: UnitImage)
        ensures
            image.wf(),
            reads_as(*self, *info, image),
    {
        let (mut entries, steps) = self.scan(info);
        let ghost scanned = entries@;
        link(&mut entries, &steps);
        let count: usize = entries.len();
        proof {
            assert forall|i: int| 0 <= i < count implies (#[trigger] entries@[i]).children@ == kids(
                steps@,
                i,
                count as int,
            ) by {
                assert(scanned[i].children@.len() == 0);
                assert(entries@[i].children@ =~= kids(steps@, i, count as int));
            }
            assert forall|i: int, j: int|
                0 <= i < entries@.len() && 0 <= j < entries@[i].children@.len() implies i
                < #[trigger] entries@[i].children@[j] < entries@.len() by {
                lemma_kids_bounds(steps@, i, count as int);
            }
            let items = scanned_from(*self, *info, unit_root(*self), 0);
            assert forall|i: int| 0 <= i < items.len() implies steps@[i] == items[i].step by {
                assert(scanned[i].offset == items[i].offset);
            }
            assert(steps@ =~= steps_of(items));
        }
        UnitImage { entries }
    }

    /// The descriptors of the structures of the unit, namespace by
    /// namespace.
    pub fn list_types(&self, info: &DebugInfo) -> (r: Result<Vec<Type>, CatalogueError>)
        ensures
            exists|image: UnitImage|
                reads_as(*self, *info, image) && #[trigger] listed(
                    namespace_types(image.entries@, 0, Seq::empty(), MAX_DEPTH as nat),
                    r,
                ),
    {
        let image = self.read(info);
        let namespace: Vec<String> = Vec::new();
        assert(crate::types::names_model(namespace@) =~= Seq::empty());
        walk_namespace(&image, 0, &namespace, MAX_DEPTH)
    }

    /// The attributes of the entry at `offset`, strings looked up.
    pub fn read_attrs(&self, info: &DebugInfo, offset: usize, count: usize) -> (attrs: Vec<Attr>)
        ensures
            attrs@ == attrs_from(*self, *info, offset, 0, count as int),
    {
        let mut attrs: Vec<Attr> = Vec::new();
        let mut i: usize = 0;
        let ghost whole = attrs_from(*self, *info, offset, 0, count as int);
        proof {
            assert(attrs@ + whole =~= whole);
        }
        while i < count
            invariant
                i <= count,
                whole == attrs@ + attrs_from(*self, *info, offset, i as int, count as int),
            decreases count - i,
        {
            let ghost before = attrs@;
            let ghost rest = attrs_from(*self, *info, offset, i + 1, count as int);
            match self.attr_at(offset, i) {
                Some(raw) => {
                    let value = match raw.value {
                        RawValue::Udata(v) => AttrValue::Udata(v),
                        RawValue::Data1(v) => AttrValue::Data1(v),
                        RawValue::UnitRef(v) => AttrValue::UnitRef(v),
                        RawValue::Encoding(v) => AttrValue::Encoding(v),
                        RawValue::DebugStrRef(at) => match info.string_at(at) {
                            Some(text) => AttrValue::DebugStrRef(text),
                            None => AttrValue::Other,
                        },
                        RawValue::Inline(text) => AttrValue::Inline(text),
                        RawValue::Other => AttrValue::Other,
                    };
                    let attr = Attr { name: raw.name, value };
                    proof {
                        assert(attr == cooked(raw, info_strings(*info)));
                        assert(before.push(attr) + rest =~= before + (seq![attr] + rest));
                    }
                    attrs.push(attr);
                },
                None => {},
            }
            i += 1;
        }
        proof {
            assert(attrs@ + Seq::<Attr>::empty() =~= attrs@);
        }
        attrs
    }
}

/// An attribute with its string looked up: a string of the string section
/// that cannot be read leaves a value of another form.
pub open spec fn cooked(raw: RawAttr, strings: Map<usize, String>) -> Attr {
    Attr {
        name: raw.name,
        value: match raw.value {
            RawValue::Udata(v) => AttrValue::Udata(v),
            RawValue::Data1(v) => AttrValue::Data1(v),
            RawValue::UnitRef(v) => AttrValue::UnitRef(v),
            RawValue::Encoding(v) => AttrValue::Encoding(v),
            RawValue::DebugStrRef(at) => if strings.contains_key(at) {
                AttrValue::DebugStrRef(strings[at])
            } else {
                AttrValue::Other
            },
            RawValue::Inline(text) => AttrValue::Inline(text),
            RawValue::Other => AttrValue::Other,
        },
    }
}

/// The attributes from position `i` up to `count` of the entry at `offset`,
/// as far as they can be read, strings looked up.
pub open spec fn attrs_from(unit: UnitInfo, info: DebugInfo, offset: usize, i: int, count: int) -> Seq<
    Attr,
>
    decreases count - i,
{
    if i >= count {
        Seq::empty()
    } else {
        let rest = attrs_from(unit, info, offset, i + 1, count);
        if 0 <= i <= usize::MAX && unit_attrs(unit).contains_key((offset, i as usize)) {
            seq![cooked(unit_attrs(unit)[(offset, i as usize)], info_strings(info))] + rest
        } else {
            rest
        }
    }
}

/// One entry as it was read, before it has its place in the tree.
pub struct Scanned {
    pub offset: usize,
    pub head: EntryHead,
    pub attrs: Seq<Attr>,
    /// How many levels the entry stands below the entry before it.
    pub step: isize,
}

/// The entries of the unit from the one at `offset` on, in the order in
/// which they follow one another, while the offsets rise; the first stands
/// `step` levels below the entry before it.
pub open spec fn scanned_from(unit: UnitInfo, info: DebugInfo, offset: usize, step: isize) -> Seq<
    Scanned,
>
    decreases usize::MAX - offset,
{
    if !unit_heads(unit).contains_key(offset) {
        Seq::empty()
    } else {
        let head = unit_heads(unit)[offset];
        let here = Scanned {
            offset,
            head,
            attrs: attrs_from(unit, info, offset, 0, head.attr_count as int),
            step,
        };
        if unit_after(unit).contains_key(offset) && unit_after(unit)[offset].0 > offset {
            seq![here] + scanned_from(
                unit,
                info,
                unit_after(unit)[offset].0,
                unit_after(unit)[offset].1,
            )
        } else {
            seq![here]
        }
    }
}

/// The steps of the entries that were read.
pub open spec fn steps_of(items: Seq<Scanned>) -> Seq<isize> {
    Seq::new(items.len(), |i: int| items[i].step)
}

/// Whether `entries` and `steps` hold what was read: each entry without
/// children, and its step beside it.
pub open spec fn scanned_as(items: Seq<Scanned>, entries: Seq<Entry>, steps: Seq<isize>) -> bool {
    &&& entries.len() == items.len()
    &&& steps.len() == items.len()
    &&& forall|i: int|
        0 <= i < items.len() ==> {
            &&& (#[trigger] entries[i]).offset == items[i].offset
            &&& entries[i].tag == items[i].head.tag
            &&& entries[i].has_children == items[i].head.has_children
            &&& entries[i].attrs@ == items[i].attrs
            &&& entries[i].children@.len() == 0
            &&& steps[i] == items[i].step
        }
}

/// Whether `image` is the unit as it reads: the entries that form a tree
/// under the first one, in the order in which they stand in the unit, each
/// with its attributes and with its children in their order.
pub open spec fn reads_as(unit: UnitInfo, info: DebugInfo, image: UnitImage) -> bool {
    let items = scanned_from(unit, info, unit_root(unit), 0);
    let steps = steps_of(items);
    &&& image.entries@.len() == crate::tree::tree_len(steps, items.len() as int)
    &&& image.entries@.len() <= items.len()
    &&& forall|i: int|
        0 <= i < image.entries@.len() ==> {
            &&& (#[trigger] image.entries@[i]).offset == items[i].offset
            &&& image.entries@[i].tag == items[i].head.tag
            &&& image.entries@[i].has_children == items[i].head.has_children
            &&& image.entries@[i].attrs@ == items[i].attrs
            &&& image.entries@[i].children@ == kids(steps, i, image.entries@.len() as int)
        }
}

/// Whether `images` are the units of `info` as they read, one for each
/// unit that can be read, in their order.
pub open spec fn units_read_as(info: DebugInfo, images: Seq<UnitImage>) -> bool {
    &&& images.len() == units_from(info, 0).len()
    &&& forall|i: int|
        0 <= i < images.len() ==> (#[trigger] images[i]).wf() && reads_as(
            units_from(info, 0)[i],
            info,
            images[i],
        )
}

/// Reads every unit of the executable that can be read.
pub fn read_units(elf: &[u8]) -> (r: Option<Vec<UnitImage>>)
    ensures
        match debug_info_of(elf@) {
            Some(info) => r is Some && units_read_as(info, r->Some_0@),
            None => r is None,
        },
{
    let debug_info = match DebugInfo::from_raw(elf) {
        Some(debug_info) => debug_info,
        None => {
            return None;
        },
    };
    let ghost all = units_from(debug_info, 0);
    let mut units: Vec<UnitImage> = Vec::new();
    let mut from: usize = 0;
    loop
        invariant
            debug_info_of(elf@) == Some(debug_info),
            all == units_from(debug_info, 0),
            units@.len() <= all.len(),
            units_from(debug_info, from) == all.skip(units@.len() as int),
            forall|i: int|
                0 <= i < units@.len() ==> (#[trigger] units@[i]).wf() && reads_as(
                    all[i],
                    debug_info,
                    units@[i],
                ),
        decreases usize::MAX - from,
    {
        proof {
            lemma_units_after(debug_info, from);
        }
        let ghost before = from;
        match debug_info.get_next_unit_info(&mut from) {
            Some(unit_info) => {
                let image = unit_info.read(&debug_info);
                proof {
                    assert(all.skip(units@.len() as int)[0] == all[units@.len() as int]);
                    assert(all.skip(units@.len() as int).skip(1) =~= all.skip(units@.len() as int + 1));
                }
                units.push(image);
            },
            None => {
                return Some(units);
            },
        }
    }
}

/// Builds the catalogue of an executable: reads its units and takes the
/// descriptors of each unit's structures, by name. What the catalogue of
/// given units is, `printers_of` says.
pub fn generate_printers(elf: &[u8]) -> (r: Result<TypePrinters, CatalogueError>)
    ensures
        match debug_info_of(elf@) {
            None => r == Err::<TypePrinters, CatalogueError>(CatalogueError::NoDebugInfo),
            Some(info) => exists|images: Seq<UnitImage>|
                units_read_as(info, images) && #[trigger] catalogued(
                    catalogue_of(images, 0, Seq::empty()),
                    r,
                ),
        },
{
    match read_units(elf) {
        None => Err(CatalogueError::NoDebugInfo),
        Some(units) => {
            let r = printers_of(&units);
            assert(catalogued(catalogue_of(units@, 0, Seq::empty()), r));
            r
        },
    }
}

/// Whether `got` holds the catalogue, or the error, that `want` names.
pub open spec fn catalogued(
    want: Result<Seq<crate::types::TypeModel>, CatalogueError>,
    got: Result<TypePrinters, CatalogueError>,
) -> bool {
    match want {
        Ok(types) => got is Ok && got->Ok_0@ == types,
        Err(e) => got is Err && got->Err_0 == e,
    }
}

} // verus!
