use gimli::write::{AttributeValue, DwarfUnit, EndianVec, Sections, UnitEntryId};
use log0::catalogue::CatalogueError;
use log0::debuginfo::{generate_printers, read_units, DebugInfo};
use log0::dwarf::{
    AttrValue, DW_AT_BYTE_SIZE, DW_AT_DATA_MEMBER_LOCATION, DW_AT_ENCODING, DW_AT_NAME, DW_AT_TYPE,
    DW_TAG_BASE_TYPE, DW_TAG_MEMBER, DW_TAG_NAMESPACE, DW_TAG_STRUCTURE_TYPE,
};
use log0::printer::Piece;

fn show(pieces: &[Piece]) -> String {
    let mut out = String::new();
    for p in pieces {
        match p {
            Piece::Text(s) => out.push_str(s),
            Piece::Float32(bits) => out.push_str(&format!("{}", f32::from_bits(*bits))),
            Piece::Float64(bits) => out.push_str(&format!("{}", f64::from_bits(*bits))),
        }
    }
    out
}

fn put16(out: &mut [u8], at: usize, v: u16) {
    out[at..at + 2].copy_from_slice(&v.to_le_bytes());
}

fn put32(out: &mut [u8], at: usize, v: u32) {
    out[at..at + 4].copy_from_slice(&v.to_le_bytes());
}

/// A 32-bit little-endian ELF file that holds the sections and nothing else.
fn elf(sections: &[(String, Vec<u8>)]) -> Vec<u8> {
    let mut names = vec![0u8];
    let mut out = vec![0u8; 52];
    // (name, type, offset, size)
    let mut headers: Vec<(u32, u32, u32, u32)> = vec![(0, 0, 0, 0)];
    for (name, data) in sections {
        while out.len() % 4 != 0 {
            out.push(0);
        }
        headers.push((names.len() as u32, 1, out.len() as u32, data.len() as u32));
        names.extend(name.bytes());
        names.push(0);
        out.extend(data.iter());
    }
    let own = names.len() as u32;
    names.extend(b".shstrtab\0");
    while out.len() % 4 != 0 {
        out.push(0);
    }
    headers.push((own, 3, out.len() as u32, names.len() as u32));
    out.extend(names.iter());
    while out.len() % 4 != 0 {
        out.push(0);
    }
    let shoff = out.len();
    for (name, kind, offset, size) in headers.iter() {
        let mut h = [0u8; 40];
        put32(&mut h, 0, *name);
        put32(&mut h, 4, *kind);
        put32(&mut h, 16, *offset);
        put32(&mut h, 20, *size);
        put32(&mut h, 32, 1);
        out.extend(h.iter());
    }
    out[..7].copy_from_slice(&[0x7f, b'E', b'L', b'F', 1, 1, 1]);
    put16(&mut out, 16, 2);
    put16(&mut out, 18, 40);
    put32(&mut out, 20, 1);
    put32(&mut out, 32, shoff as u32);
    put16(&mut out, 40, 52);
    put16(&mut out, 46, 40);
    put16(&mut out, 48, headers.len() as u16);
    put16(&mut out, 50, (headers.len() - 1) as u16);
    out
}

fn encoding() -> gimli::Encoding {
    gimli::Encoding { format: gimli::Format::Dwarf32, version: 4, address_size: 4 }
}

fn sections_of(dwarf: &mut DwarfUnit) -> Vec<(String, Vec<u8>)> {
    let mut sections = Sections::new(EndianVec::new(gimli::LittleEndian));
    dwarf.write(&mut sections).unwrap();
    let mut found = Vec::new();
    sections
        .for_each(|id, data| -> Result<(), ()> {
            if !data.slice().is_empty() {
                found.push((id.name().to_string(), data.slice().to_vec()));
            }
            Ok(())
        })
        .unwrap();
    found
}

fn named(dwarf: &mut DwarfUnit, parent: UnitEntryId, tag: gimli::DwTag, name: &str) -> UnitEntryId {
    let id = dwarf.unit.add(parent, tag);
    let name = dwarf.strings.add(name);
    dwarf.unit.get_mut(id).set(gimli::DW_AT_name, AttributeValue::StringRef(name));
    id
}

fn base(dwarf: &mut DwarfUnit, name: &str, ate: gimli::DwAte, size: u64) -> UnitEntryId {
    let root = dwarf.unit.root();
    let id = named(dwarf, root, gimli::DW_TAG_base_type, name);
    dwarf.unit.get_mut(id).set(gimli::DW_AT_encoding, AttributeValue::Encoding(ate));
    dwarf.unit.get_mut(id).set(gimli::DW_AT_byte_size, AttributeValue::Udata(size));
    id
}

fn member(dwarf: &mut DwarfUnit, parent: UnitEntryId, name: &str, typ: UnitEntryId, at: u64) {
    let id = named(dwarf, parent, gimli::DW_TAG_member, name);
    dwarf.unit.get_mut(id).set(gimli::DW_AT_type, AttributeValue::UnitRef(typ));
    dwarf.unit.get_mut(id).set(gimli::DW_AT_data_member_location, AttributeValue::Udata(at));
}

/// The executable of a small program with two structures in a namespace.
fn program() -> Vec<u8> {
    let mut dwarf = DwarfUnit::new(encoding());
    let root = dwarf.unit.root();
    let i32_ = base(&mut dwarf, "i32", gimli::DW_ATE_signed, 4);
    let u32_ = base(&mut dwarf, "u32", gimli::DW_ATE_unsigned, 4);
    let mod1 = named(&mut dwarf, root, gimli::DW_TAG_namespace, "mod1");
    let inner = named(&mut dwarf, mod1, gimli::DW_TAG_structure_type, "MyStruct2");
    member(&mut dwarf, inner, "a", i32_, 0);
    member(&mut dwarf, inner, "c", u32_, 4);
    let outer = named(&mut dwarf, mod1, gimli::DW_TAG_structure_type, "MyStruct");
    member(&mut dwarf, outer, "b", i32_, 0);
    member(&mut dwarf, outer, "d", inner, 4);
    let tuple = named(&mut dwarf, root, gimli::DW_TAG_structure_type, "MyStruct3");
    let first = dwarf.unit.add(tuple, gimli::DW_TAG_member);
    dwarf.unit.get_mut(first).set(gimli::DW_AT_name, AttributeValue::String(b"__0".to_vec()));
    dwarf.unit.get_mut(first).set(gimli::DW_AT_type, AttributeValue::UnitRef(u32_));
    dwarf.unit.get_mut(first).set(gimli::DW_AT_data_member_location, AttributeValue::Udata(0));
    elf(&sections_of(&mut dwarf))
}

#[test]
fn catalogue_of_an_executable() {
    let printers = generate_printers(&program()).unwrap();
    let mut names: Vec<&str> = printers.0.iter().map(|t| t.name()).collect();
    names.sort();
    assert_eq!(names, vec!["MyStruct", "MyStruct2", "MyStruct3", "i32", "u32"]);
    assert_eq!(printers.get("mod1::MyStruct").unwrap().namespace, vec!["mod1".to_string()]);
    assert!(printers.get("MyStruct3").unwrap().namespace.is_empty());

    let mut buf = Vec::new();
    buf.extend(2i32.to_le_bytes());
    buf.extend(1i32.to_le_bytes());
    buf.extend(3u32.to_le_bytes());
    let mut out = Vec::new();
    assert_eq!(printers.print(&mut out, "mod1::MyStruct", &buf), Ok(()));
    assert_eq!(show(&out), "mod1::MyStruct\nMyStruct: { b: 2, d: MyStruct2: { a: 1, c: 3 } }");
    let mut out = Vec::new();
    assert_eq!(printers.print(&mut out, "MyStruct3", &7u32.to_le_bytes()), Ok(()));
    assert_eq!(show(&out), "MyStruct3\nMyStruct3: ( 7 )");
}

#[test]
fn entries_of_an_executable() {
    let units = read_units(&program()).unwrap();
    assert_eq!(units.len(), 1);
    let unit = &units[0];
    // root, two base types, a namespace, two structures with two members each,
    // a structure with one
    assert_eq!(unit.entries.len(), 12);
    let root = &unit.entries[0];
    assert_eq!(root.tag, 0x11);
    assert_eq!(root.children.len(), 4);
    let tags: Vec<u16> = root.children.iter().map(|c| unit.entries[*c].tag).collect();
    assert_eq!(tags, vec![DW_TAG_BASE_TYPE, DW_TAG_BASE_TYPE, DW_TAG_NAMESPACE, DW_TAG_STRUCTURE_TYPE]);

    let i32_ = &unit.entries[root.children[0]];
    assert!(!i32_.has_children);
    assert!(i32_.children.is_empty());
    let mut seen = Vec::new();
    for a in i32_.attrs.iter() {
        match (&a.value, a.name) {
            (AttrValue::DebugStrRef(s), DW_AT_NAME) => seen.push(format!("name {}", s)),
            (AttrValue::Encoding(e), DW_AT_ENCODING) => seen.push(format!("encoding {}", e)),
            (AttrValue::Udata(v), DW_AT_BYTE_SIZE) => seen.push(format!("size {}", v)),
            other => panic!("unexpected attribute {:?}", other),
        }
    }
    seen.sort();
    assert_eq!(seen, vec!["encoding 5", "name i32", "size 4"]);

    let namespace = &unit.entries[root.children[2]];
    assert!(namespace.has_children);
    assert_eq!(namespace.children.len(), 2);
    let outer = &unit.entries[namespace.children[1]];
    assert_eq!(outer.tag, DW_TAG_STRUCTURE_TYPE);
    assert_eq!(outer.children.len(), 2);
    let d = &unit.entries[outer.children[1]];
    assert_eq!(d.tag, DW_TAG_MEMBER);
    let inner = &unit.entries[namespace.children[0]];
    for a in d.attrs.iter() {
        match (&a.value, a.name) {
            (AttrValue::DebugStrRef(s), DW_AT_NAME) => assert_eq!(s, "d"),
            (AttrValue::UnitRef(offset), DW_AT_TYPE) => assert_eq!(*offset, inner.offset),
            (AttrValue::Udata(v), DW_AT_DATA_MEMBER_LOCATION) => assert_eq!(*v, 4),
            other => panic!("unexpected attribute {:?}", other),
        }
    }

    let tuple = &unit.entries[root.children[3]];
    let first = &unit.entries[tuple.children[0]];
    assert!(first
        .attrs
        .iter()
        .any(|a| a.name == DW_AT_NAME && matches!(&a.value, AttrValue::Inline(s) if s == "__0")));

    // Every entry but the root is the child of exactly one entry before it,
    // and offsets rise.
    for (at, entry) in unit.entries.iter().enumerate().skip(1) {
        let parents: Vec<usize> =
            (0..unit.entries.len()).filter(|p| unit.entries[*p].children.contains(&at)).collect();
        assert_eq!(parents.len(), 1);
        assert!(parents[0] < at);
        assert!(entry.offset > unit.entries[at - 1].offset);
    }
}

#[test]
fn bytes_that_are_no_object_file() {
    assert_eq!(generate_printers(b"not an executable").err(), Some(CatalogueError::NoDebugInfo));
    assert_eq!(generate_printers(&[]).err(), Some(CatalogueError::NoDebugInfo));
    assert!(read_units(&[0x7f, b'E', b'L', b'F']).is_none());
    assert!(DebugInfo::from_raw(&[1, 2, 3]).is_none());
}

#[test]
fn executable_without_debugging_information() {
    let bare = elf(&[(".text".to_string(), vec![0; 16])]);
    assert!(DebugInfo::from_raw(&bare).is_some());
    assert_eq!(read_units(&bare).unwrap().len(), 0);
    assert_eq!(generate_printers(&bare).unwrap().0.len(), 0);
}

#[test]
fn float_of_an_odd_size_in_an_executable() {
    let mut dwarf = DwarfUnit::new(encoding());
    let root = dwarf.unit.root();
    let half = base(&mut dwarf, "f16", gimli::DW_ATE_float, 2);
    let s = named(&mut dwarf, root, gimli::DW_TAG_structure_type, "S");
    member(&mut dwarf, s, "h", half, 0);
    let file = elf(&sections_of(&mut dwarf));
    assert_eq!(generate_printers(&file).err(), Some(CatalogueError::FloatSize));
}

#[test]
fn units_are_read_one_after_the_other() {
    let mut dwarf = gimli::write::Dwarf::new();
    for name in ["First", "Second", "Third"] {
        let id = dwarf.units.add(gimli::write::Unit::new(encoding(), gimli::write::LineProgram::none()));
        let text = dwarf.strings.add(name);
        let unit = dwarf.units.get_mut(id);
        let root = unit.root();
        let s = unit.add(root, gimli::DW_TAG_structure_type);
        unit.get_mut(s).set(gimli::DW_AT_name, AttributeValue::StringRef(text));
    }
    let mut sections = Sections::new(EndianVec::new(gimli::LittleEndian));
    dwarf.write(&mut sections).unwrap();
    let mut found = Vec::new();
    sections
        .for_each(|id, data| -> Result<(), ()> {
            if !data.slice().is_empty() {
                found.push((id.name().to_string(), data.slice().to_vec()));
            }
            Ok(())
        })
        .unwrap();
    let file = elf(&found);
    let units = read_units(&file).unwrap();
    assert_eq!(units.len(), 3);
    let printers = generate_printers(&file).unwrap();
    let names: Vec<&str> = printers.0.iter().map(|t| t.name()).collect();
    assert_eq!(names, vec!["First", "Second", "Third"]);
}

#[test]
fn types_of_one_unit() {
    let file = program();
    let info = DebugInfo::from_raw(&file).unwrap();
    let mut from = 0;
    let unit = info.get_next_unit_info(&mut from).unwrap();
    assert_eq!(from, 1);
    let types = unit.list_types(&info).unwrap();
    let names: Vec<&str> = types.iter().map(|t| t.name()).collect();
    assert_eq!(names, vec!["i32", "u32", "MyStruct3", "MyStruct2", "MyStruct"]);
    let (entries, steps) = unit.scan(&info);
    assert_eq!(entries.len(), 12);
    assert_eq!(steps, vec![0, 1, 0, 0, 1, 1, 0, -1, 1, 0, -2, 1]);
    assert!(entries.iter().all(|e| e.children.is_empty()));
    assert!(info.get_next_unit_info(&mut from).is_none());
    assert_eq!(from, 1);
}
