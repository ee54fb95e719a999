use log0::catalogue::{is_base_type, is_complex_type, CatalogueError, MAX_DEPTH};
use log0::dwarf::{
    AttrValue, Attr, Entry, UnitImage, DW_ATE_ADDRESS, DW_ATE_BOOLEAN, DW_ATE_FLOAT, DW_ATE_SIGNED,
    DW_ATE_UNSIGNED, DW_ATE_UTF, DW_AT_BYTE_SIZE, DW_AT_DATA_MEMBER_LOCATION, DW_AT_DISCR,
    DW_AT_DISCR_VALUE, DW_AT_ENCODING, DW_AT_NAME, DW_AT_TYPE, DW_TAG_ARRAY_TYPE, DW_TAG_BASE_TYPE,
    DW_TAG_MEMBER, DW_TAG_NAMESPACE, DW_TAG_POINTER_TYPE, DW_TAG_REFERENCE_TYPE,
    DW_TAG_STRUCTURE_TYPE, DW_TAG_VARIABLE, DW_TAG_VARIANT, DW_TAG_VARIANT_PART,
};
use log0::extract::{
    extract_member_of, extract_type_of, get_base_type_info, get_types, parse_tuple_index,
    walk_namespace,
};
use log0::printer::{BaseType, Piece, RenderError};
use log0::printers::{get_variables, printers_of, TypePrinters};
use log0::tree::link;
use log0::types::{Type, TypeKind};

fn show(pieces: &[Piece]) -> String {
    let mut out = String::new();
    for p in pieces {
        match p {
            Piece::Text(s) => out.push_str(s),
            Piece::Float32(bits) => out.push_str(&format!("{}", f32::from_bits(*bits))),
            Piece::Float64(bits) => out.push_str(&format!("{}", f64::from_bits(*bits))),
        }
    }
    out
}

fn render(t: &Type, buf: &[u8]) -> Result<String, RenderError> {
    let mut out = Vec::new();
    t.write(&mut out, buf)?;
    Ok(show(&out))
}

fn name(s: &str) -> Attr {
    Attr { name: DW_AT_NAME, value: AttrValue::DebugStrRef(s.to_string()) }
}

fn attr(name: u16, value: AttrValue) -> Attr {
    Attr { name, value }
}

/// Builds a unit entry by entry; an entry's offset is ten times its position.
struct Builder {
    entries: Vec<Entry>,
}

impl Builder {
    fn new() -> Self {
        let root = Entry { offset: 0, tag: 0x11, has_children: true, attrs: vec![], children: vec![] };
        Builder { entries: vec![root] }
    }

    fn add(&mut self, parent: usize, tag: u16, attrs: Vec<Attr>) -> usize {
        let at = self.entries.len();
        self.entries.push(Entry { offset: at * 10, tag, has_children: false, attrs, children: vec![] });
        self.entries[parent].children.push(at);
        self.entries[parent].has_children = true;
        at
    }

    fn base(&mut self, n: &str, ate: u8, size: u64) -> usize {
        self.add(
            0,
            DW_TAG_BASE_TYPE,
            vec![
                name(n),
                attr(DW_AT_ENCODING, AttrValue::Encoding(ate)),
                attr(DW_AT_BYTE_SIZE, AttrValue::Udata(size)),
            ],
        )
    }

    fn member(&mut self, parent: usize, n: &str, typ: usize, location: u64) -> usize {
        self.add(
            parent,
            DW_TAG_MEMBER,
            vec![
                name(n),
                attr(DW_AT_TYPE, AttrValue::UnitRef(typ * 10)),
                attr(DW_AT_DATA_MEMBER_LOCATION, AttrValue::Udata(location)),
            ],
        )
    }

    fn unit(self) -> UnitImage {
        UnitImage { entries: self.entries }
    }
}

/// The types of a small program: two nested structures in a namespace, a
/// tuple structure and a tagged union.
fn program() -> (UnitImage, usize, usize, usize) {
    let mut b = Builder::new();
    let i32_ = b.base("i32", DW_ATE_SIGNED, 4);
    let u32_ = b.base("u32", DW_ATE_UNSIGNED, 4);
    let u8_ = b.base("u8", DW_ATE_UNSIGNED, 1);
    let f32_ = b.base("f32", DW_ATE_FLOAT, 4);
    let mod1 = b.add(0, DW_TAG_NAMESPACE, vec![name("mod1")]);
    let mod2 = b.add(mod1, DW_TAG_NAMESPACE, vec![name("mod2")]);
    let my_struct2 = b.add(mod2, DW_TAG_STRUCTURE_TYPE, vec![name("MyStruct2")]);
    b.member(my_struct2, "a", i32_, 0);
    b.member(my_struct2, "c", u32_, 4);
    let my_struct = b.add(mod2, DW_TAG_STRUCTURE_TYPE, vec![name("MyStruct")]);
    b.member(my_struct, "b", i32_, 0);
    b.member(my_struct, "d", my_struct2, 4);
    let my_struct3 = b.add(mod2, DW_TAG_STRUCTURE_TYPE, vec![name("MyStruct3")]);
    b.member(my_struct3, "__0", u8_, 0);

    // enum MyEnum { Var1, Var2((u8, f32)), Var3 }
    let pair = b.add(0, DW_TAG_STRUCTURE_TYPE, vec![name("(u8, f32)")]);
    b.member(pair, "__0", u8_, 4);
    b.member(pair, "__1", f32_, 0);
    let my_enum = b.add(0, DW_TAG_STRUCTURE_TYPE, vec![name("MyEnum")]);
    let part = b.add(my_enum, DW_TAG_VARIANT_PART, vec![]);
    let discr = b.add(
        part,
        DW_TAG_MEMBER,
        vec![
            attr(DW_AT_TYPE, AttrValue::UnitRef(u8_ * 10)),
            attr(DW_AT_DATA_MEMBER_LOCATION, AttrValue::Udata(8)),
        ],
    );
    b.entries[part].attrs.push(attr(DW_AT_DISCR, AttrValue::UnitRef(discr * 10)));
    let var1 = b.add(my_enum, DW_TAG_STRUCTURE_TYPE, vec![name("Var1")]);
    let var2 = b.add(my_enum, DW_TAG_STRUCTURE_TYPE, vec![name("Var2")]);
    b.member(var2, "__0", pair, 0);
    let var3 = b.add(my_enum, DW_TAG_STRUCTURE_TYPE, vec![name("Var3")]);
    for (value, (n, typ)) in [("Var1", var1), ("Var2", var2), ("Var3", var3)].into_iter().enumerate() {
        let v = b.add(part, DW_TAG_VARIANT, vec![attr(DW_AT_DISCR_VALUE, AttrValue::Data1(value as u8))]);
        b.member(v, n, typ, 0);
    }
    (b.unit(), my_struct, my_struct3, my_enum)
}

#[test]
fn named_aggregate_with_a_nested_one() {
    let (unit, my_struct, _, _) = program();
    let ns = vec!["mod1".to_string(), "mod2".to_string()];
    let t = extract_type_of(&unit, my_struct, &ns, 0, MAX_DEPTH).unwrap().unwrap();
    assert_eq!(t.name(), "MyStruct");
    assert_eq!(t.namespace, ns);
    assert_eq!(t.offset, 0);
    match &t.kind {
        TypeKind::Struct(s) => {
            assert_eq!(s.named_children.len(), 2);
            assert_eq!(s.named_children[0].name, "b");
            assert_eq!(s.named_children[1].name, "d");
            assert_eq!(s.named_children[1].typ.name(), "MyStruct2");
            assert_eq!(s.named_children[1].typ.offset, 4);
            assert!(s.indexed_children.is_empty());
        }
        other => panic!("not an aggregate: {:?}", other),
    }
    let mut buf = Vec::new();
    buf.extend(2i32.to_le_bytes());
    buf.extend((-1i32).to_le_bytes());
    buf.extend(3u32.to_le_bytes());
    assert_eq!(render(&t, &buf), Ok("MyStruct: { b: 2, d: MyStruct2: { a: -1, c: 3 } }".to_string()));
}

#[test]
fn tuple_like_structure() {
    let (unit, _, my_struct3, _) = program();
    let t = extract_type_of(&unit, my_struct3, &vec![], 0, MAX_DEPTH).unwrap().unwrap();
    match &t.kind {
        TypeKind::Struct(s) => {
            assert!(s.named_children.is_empty());
            assert_eq!(s.indexed_children.len(), 1);
            assert_eq!(s.indexed_children[0].name(), "u8");
        }
        other => panic!("not a tuple: {:?}", other),
    }
    assert_eq!(render(&t, &[42]), Ok("MyStruct3: ( 42 )".to_string()));
}

#[test]
fn tagged_union_from_a_variant_part() {
    let (unit, _, _, my_enum) = program();
    let t = extract_type_of(&unit, my_enum, &vec![], 0, MAX_DEPTH).unwrap().unwrap();
    match &t.kind {
        TypeKind::Enum(e) => {
            assert_eq!(e.discriminant_offset, 8);
            let names: Vec<&str> = e.variants.iter().map(|v| v.name.as_str()).collect();
            assert_eq!(names, vec!["Var1", "Var2", "Var3"]);
            let values: Vec<usize> = e.variants.iter().map(|v| v.typ.variant_value).collect();
            assert_eq!(values, vec![0, 1, 2]);
            assert!(matches!(e.variants[0].typ.kind, TypeKind::PlainVariant));
            assert!(matches!(e.variants[1].typ.kind, TypeKind::Struct(_)));
        }
        other => panic!("not a tagged union: {:?}", other),
    }
    let mut buf = Vec::new();
    buf.extend(2.0f32.to_le_bytes());
    buf.extend([1u8, 0, 0, 0]);
    buf.push(1);
    assert_eq!(render(&t, &buf), Ok("MyEnum::Var2 { Var2: ( (u8, f32): ( 1, 2 ) ) }".to_string()));
    buf[8] = 0;
    assert_eq!(render(&t, &buf), Ok("MyEnum::Var1".to_string()));
    buf[8] = 2;
    assert_eq!(render(&t, &buf), Ok("MyEnum::Var3".to_string()));
    buf[8] = 3;
    assert_eq!(render(&t, &buf), Err(RenderError::UnknownDiscriminant));
}

#[test]
fn structure_without_children_is_a_plain_variant() {
    let mut b = Builder::new();
    let s = b.add(0, DW_TAG_STRUCTURE_TYPE, vec![name("UnitImage")]);
    let unit = b.unit();
    let t = extract_type_of(&unit, s, &vec![], 7, MAX_DEPTH).unwrap().unwrap();
    assert!(matches!(t.kind, TypeKind::PlainVariant));
    assert_eq!(t.name(), "UnitImage");
    assert_eq!(t.offset, 7);
}

#[test]
fn structure_whose_children_give_nothing_is_a_plain_variant() {
    let mut b = Builder::new();
    let s = b.add(0, DW_TAG_STRUCTURE_TYPE, vec![name("Odd")]);
    b.add(s, DW_TAG_VARIABLE, vec![name("v")]);
    let unit = b.unit();
    let t = extract_type_of(&unit, s, &vec![], 0, MAX_DEPTH).unwrap().unwrap();
    assert!(matches!(t.kind, TypeKind::PlainVariant));
}

#[test]
fn unnamed_structure_gets_a_label() {
    let mut b = Builder::new();
    let s = b.add(0, DW_TAG_STRUCTURE_TYPE, vec![]);
    let odd = b.add(0, DW_TAG_STRUCTURE_TYPE, vec![attr(DW_AT_NAME, AttrValue::Udata(3))]);
    let unit = b.unit();
    assert_eq!(extract_type_of(&unit, s, &vec![], 0, 4).unwrap().unwrap().name(), "<unnamed type>");
    assert_eq!(extract_type_of(&unit, odd, &vec![], 0, 4).unwrap().unwrap().name(), "<unnamed type>");
}

fn base_kind(ate: u8, size: u64) -> Result<Option<Type>, CatalogueError> {
    let mut b = Builder::new();
    let t = b.base("t", ate, size);
    extract_type_of(&b.unit(), t, &vec![], 0, MAX_DEPTH)
}

fn printer_of(t: Type) -> (BaseType, std::ops::Range<usize>) {
    match t.kind {
        TypeKind::Scalar(s) => (s.printer.printer, s.printer.range),
        other => panic!("not a scalar: {:?}", other),
    }
}

#[test]
fn base_types_by_encoding() {
    let (p, r) = printer_of(base_kind(DW_ATE_BOOLEAN, 1).unwrap().unwrap());
    assert!(matches!(p, BaseType::Bool));
    assert_eq!(r, 0..1);
    let (p, r) = printer_of(base_kind(DW_ATE_FLOAT, 4).unwrap().unwrap());
    assert!(matches!(p, BaseType::F32));
    assert_eq!(r, 0..4);
    assert!(matches!(printer_of(base_kind(DW_ATE_FLOAT, 8).unwrap().unwrap()).0, BaseType::F64));
    assert!(matches!(printer_of(base_kind(DW_ATE_SIGNED, 2).unwrap().unwrap()).0, BaseType::Signed(2)));
    assert!(matches!(printer_of(base_kind(0x06, 1).unwrap().unwrap()).0, BaseType::Signed(1)));
    assert!(matches!(printer_of(base_kind(DW_ATE_UNSIGNED, 8).unwrap().unwrap()).0, BaseType::Unsigned(8)));
    assert!(matches!(printer_of(base_kind(0x08, 1).unwrap().unwrap()).0, BaseType::Unsigned(1)));
    assert!(matches!(printer_of(base_kind(DW_ATE_ADDRESS, 4).unwrap().unwrap()).0, BaseType::Unsigned(4)));
    assert!(matches!(printer_of(base_kind(DW_ATE_UTF, 4).unwrap().unwrap()).0, BaseType::Unimplemented));
    assert!(matches!(printer_of(base_kind(0x12, 1).unwrap().unwrap()).0, BaseType::Unimplemented));
    assert!(matches!(printer_of(base_kind(0x7f, 1).unwrap().unwrap()).0, BaseType::Unimplemented));
}

#[test]
fn base_type_without_bytes_carries_its_name() {
    let (p, r) = printer_of(base_kind(DW_ATE_UNSIGNED, 0).unwrap().unwrap());
    match p {
        BaseType::Zero(s) => assert_eq!(s, "t"),
        other => panic!("not zero sized: {:?}", other),
    }
    assert_eq!(r, 0..0);
    assert!(matches!(printer_of(base_kind(DW_ATE_FLOAT, 0).unwrap().unwrap()).0, BaseType::Zero(_)));
    let t = base_kind(DW_ATE_UNSIGNED, 0).unwrap().unwrap();
    assert_eq!(render(&t, &[]), Ok("t".to_string()));
}

#[test]
fn float_of_another_size_is_an_error() {
    assert_eq!(base_kind(DW_ATE_FLOAT, 2).err(), Some(CatalogueError::FloatSize));
    assert_eq!(base_kind(DW_ATE_FLOAT, 16).err(), Some(CatalogueError::FloatSize));
    // The error comes up through the structure that has such a member.
    let mut b = Builder::new();
    let half = b.base("f16", DW_ATE_FLOAT, 2);
    let s = b.add(0, DW_TAG_STRUCTURE_TYPE, vec![name("S")]);
    b.member(s, "h", half, 0);
    let unit = b.unit();
    assert_eq!(extract_type_of(&unit, s, &vec![], 0, MAX_DEPTH).err(), Some(CatalogueError::FloatSize));
    assert_eq!(walk_namespace(&unit, 0, &vec![], MAX_DEPTH).err(), Some(CatalogueError::FloatSize));
    assert_eq!(printers_of(&vec![unit]).err(), Some(CatalogueError::FloatSize));
}

#[test]
fn base_type_that_lacks_an_attribute_is_discarded() {
    let mut b = Builder::new();
    let no_size = b.add(
        0,
        DW_TAG_BASE_TYPE,
        vec![name("x"), attr(DW_AT_ENCODING, AttrValue::Encoding(DW_ATE_SIGNED))],
    );
    let no_encoding =
        b.add(0, DW_TAG_BASE_TYPE, vec![name("x"), attr(DW_AT_BYTE_SIZE, AttrValue::Udata(4))]);
    let inline_name = b.add(
        0,
        DW_TAG_BASE_TYPE,
        vec![
            attr(DW_AT_NAME, AttrValue::Inline("x".to_string())),
            attr(DW_AT_ENCODING, AttrValue::Encoding(DW_ATE_SIGNED)),
            attr(DW_AT_BYTE_SIZE, AttrValue::Udata(4)),
        ],
    );
    let unit = b.unit();
    for at in [no_size, no_encoding, inline_name] {
        assert!(extract_type_of(&unit, at, &vec![], 0, MAX_DEPTH).unwrap().is_none());
        assert!(get_base_type_info(&unit.entries[at].attrs).is_none());
    }
    let mut b = Builder::new();
    let whole = b.base("i64", DW_ATE_SIGNED, 8);
    let unit = b.unit();
    assert_eq!(
        get_base_type_info(&unit.entries[whole].attrs),
        Some(("i64".to_string(), DW_ATE_SIGNED, 8))
    );
}

#[test]
fn references_point_at_their_pointee() {
    let mut b = Builder::new();
    let u8_ = b.base("u8", DW_ATE_UNSIGNED, 1);
    let ptr = b.add(0, DW_TAG_POINTER_TYPE, vec![name("*const u8"), attr(DW_AT_TYPE, AttrValue::UnitRef(u8_ * 10))]);
    let reference = b.add(0, DW_TAG_REFERENCE_TYPE, vec![name("&u8"), attr(DW_AT_TYPE, AttrValue::UnitRef(u8_ * 10))]);
    let void = b.add(0, DW_TAG_POINTER_TYPE, vec![name("*const ()")]);
    let unit = b.unit();
    for at in [ptr, reference] {
        let t = extract_type_of(&unit, at, &vec![], 0, MAX_DEPTH).unwrap().unwrap();
        match &t.kind {
            TypeKind::Pointer(p) => assert_eq!(p.name(), "u8"),
            other => panic!("not a reference: {:?}", other),
        }
        assert_eq!(render(&t, &[9]), Ok("*9".to_string()));
    }
    let t = extract_type_of(&unit, void, &vec![], 0, MAX_DEPTH).unwrap().unwrap();
    match &t.kind {
        TypeKind::Pointer(p) => {
            assert!(matches!(p.kind, TypeKind::Unknown));
            assert_eq!(p.name(), "<unnamed type>");
        }
        other => panic!("not a reference: {:?}", other),
    }
}

#[test]
fn a_list_node_that_points_at_itself_is_cut_off() {
    let mut b = Builder::new();
    let u8_ = b.base("u8", DW_ATE_UNSIGNED, 1);
    let node = b.add(0, DW_TAG_STRUCTURE_TYPE, vec![name("Node")]);
    let next = b.add(0, DW_TAG_POINTER_TYPE, vec![name("*Node"), attr(DW_AT_TYPE, AttrValue::UnitRef(node * 10))]);
    b.member(node, "value", u8_, 0);
    b.member(node, "next", next, 4);
    let unit = b.unit();
    let t = extract_type_of(&unit, node, &vec![], 0, MAX_DEPTH).unwrap().unwrap();
    let text = render(&t, &[5, 0, 0, 0, 0, 0, 0, 0]).unwrap();
    assert!(text.starts_with("Node: { value: 5, next: *Node: { value: 5, next: *"));
    assert!(text.contains("Unimplemented type"));
    // No budget, no descriptor.
    assert!(extract_type_of(&unit, node, &vec![], 0, 0).unwrap().is_none());
    // A budget of one reaches the structure, and no further.
    let shallow = extract_type_of(&unit, node, &vec![], 0, 1).unwrap().unwrap();
    match &shallow.kind {
        TypeKind::Struct(s) => {
            assert!(matches!(s.named_children[0].typ.kind, TypeKind::Unknown));
            assert_eq!(s.named_children[0].typ.name(), "value");
        }
        other => panic!("not an aggregate: {:?}", other),
    }
}

#[test]
fn unrecognised_tag_is_opaque() {
    let mut b = Builder::new();
    let array = b.add(0, DW_TAG_ARRAY_TYPE, vec![name("[u8; 13]")]);
    let s = b.add(0, DW_TAG_STRUCTURE_TYPE, vec![name("S")]);
    b.member(s, "bytes", array, 0);
    let unit = b.unit();
    let t = extract_type_of(&unit, array, &vec![], 0, MAX_DEPTH).unwrap().unwrap();
    assert!(matches!(t.kind, TypeKind::Unknown));
    assert_eq!(t.name(), "[u8; 13]");
    let t = extract_type_of(&unit, s, &vec![], 0, MAX_DEPTH).unwrap().unwrap();
    assert_eq!(render(&t, &[0; 13]), Ok("S: { bytes: Unimplemented type }".to_string()));
}

#[test]
fn tuple_index_needs_two_underscores_and_digits() {
    assert_eq!(parse_tuple_index("__0"), Some(0));
    assert_eq!(parse_tuple_index("__12"), Some(12));
    assert_eq!(parse_tuple_index("__007"), Some(7));
    assert_eq!(parse_tuple_index("__"), None);
    assert_eq!(parse_tuple_index("_0"), None);
    assert_eq!(parse_tuple_index("__x"), None);
    assert_eq!(parse_tuple_index("__1x"), None);
    assert_eq!(parse_tuple_index("__+1"), None);
    assert_eq!(parse_tuple_index("a__1"), None);
    assert_eq!(parse_tuple_index(""), None);
    assert_eq!(parse_tuple_index(&format!("__{}", usize::MAX)), Some(usize::MAX));
    assert_eq!(parse_tuple_index(&format!("__{}0", usize::MAX)), None);
    assert_eq!(parse_tuple_index("__99999999999999999999999999999999"), None);
}

#[test]
fn members_named_like_an_index_but_not_one_are_named_members() {
    let mut b = Builder::new();
    let u8_ = b.base("u8", DW_ATE_UNSIGNED, 1);
    let s = b.add(0, DW_TAG_STRUCTURE_TYPE, vec![name("S")]);
    b.member(s, "__foo", u8_, 0);
    let unit = b.unit();
    let t = extract_type_of(&unit, s, &vec![], 0, MAX_DEPTH).unwrap().unwrap();
    assert_eq!(render(&t, &[3]), Ok("S: { __foo: 3 }".to_string()));
}

#[test]
fn positioned_members_go_where_their_index_says() {
    let mut b = Builder::new();
    let u8_ = b.base("u8", DW_ATE_UNSIGNED, 1);
    let s = b.add(0, DW_TAG_STRUCTURE_TYPE, vec![name("T")]);
    b.member(s, "__1", u8_, 1);
    b.member(s, "__0", u8_, 0);
    b.member(s, "__5", u8_, 2);
    let unit = b.unit();
    let t = extract_type_of(&unit, s, &vec![], 0, MAX_DEPTH).unwrap().unwrap();
    // `__1` comes first and finds no position 1 yet, `__0` goes before it, `__5` to the end.
    assert_eq!(render(&t, &[10, 11, 12]), Ok("T: ( 10, 11, 12 )".to_string()));
}

#[test]
fn a_member_of_the_same_name_replaces_the_earlier_one() {
    let mut b = Builder::new();
    let u8_ = b.base("u8", DW_ATE_UNSIGNED, 1);
    let s = b.add(0, DW_TAG_STRUCTURE_TYPE, vec![name("S")]);
    b.member(s, "x", u8_, 0);
    b.member(s, "y", u8_, 1);
    b.member(s, "x", u8_, 2);
    let unit = b.unit();
    let t = extract_type_of(&unit, s, &vec![], 0, MAX_DEPTH).unwrap().unwrap();
    assert_eq!(render(&t, &[1, 2, 3]), Ok("S: { x: 3, y: 2 }".to_string()));
}

#[test]
fn member_without_a_usable_type() {
    let mut b = Builder::new();
    let s = b.add(0, DW_TAG_STRUCTURE_TYPE, vec![name("S")]);
    let no_type = b.add(s, DW_TAG_MEMBER, vec![name("lost")]);
    let dangling = b.add(s, DW_TAG_MEMBER, vec![name("far"), attr(DW_AT_TYPE, AttrValue::UnitRef(9999))]);
    let odd = b.add(s, DW_TAG_MEMBER, vec![name("odd"), attr(DW_AT_TYPE, AttrValue::Udata(1))]);
    let unit = b.unit();
    let (n, t) = extract_member_of(&unit, no_type, &vec![], 0, MAX_DEPTH).unwrap();
    assert_eq!((n.as_str(), t.is_none()), ("lost", true));
    let (n, t) = extract_member_of(&unit, dangling, &vec![], 0, MAX_DEPTH).unwrap();
    assert_eq!((n.as_str(), t.is_none()), ("far", true));
    let (n, t) = extract_member_of(&unit, odd, &vec![], 0, MAX_DEPTH).unwrap();
    assert_eq!((n.as_str(), t.is_none()), ("", true));
    let t = extract_type_of(&unit, s, &vec![], 0, MAX_DEPTH).unwrap().unwrap();
    assert_eq!(
        render(&t, &[]),
        Ok("S: { lost: Unimplemented type, far: Unimplemented type, : Unimplemented type }".to_string())
    );
}

#[test]
fn member_location_overrides_the_inherited_offset() {
    let mut b = Builder::new();
    let u8_ = b.base("u8", DW_ATE_UNSIGNED, 1);
    let s = b.add(0, DW_TAG_STRUCTURE_TYPE, vec![name("S")]);
    let placed = b.member(s, "p", u8_, 6);
    let unplaced = b.add(s, DW_TAG_MEMBER, vec![name("q"), attr(DW_AT_TYPE, AttrValue::UnitRef(u8_ * 10))]);
    let unit = b.unit();
    let (_, t) = extract_member_of(&unit, placed, &vec![], 3, MAX_DEPTH).unwrap();
    assert_eq!(t.unwrap().offset, 6);
    let (_, t) = extract_member_of(&unit, unplaced, &vec![], 3, MAX_DEPTH).unwrap();
    assert_eq!(t.unwrap().offset, 3);
}

#[test]
fn namespaces_give_each_type_its_path() {
    let (unit, _, _, _) = program();
    let types = walk_namespace(&unit, 0, &vec![], MAX_DEPTH).unwrap();
    let found: Vec<(String, Vec<String>)> =
        types.iter().map(|t| (t.name().to_string(), t.namespace.clone())).collect();
    let path = vec!["mod1".to_string(), "mod2".to_string()];
    assert_eq!(
        found,
        vec![
            ("i32".to_string(), vec![]),
            ("u32".to_string(), vec![]),
            ("u8".to_string(), vec![]),
            ("f32".to_string(), vec![]),
            ("(u8, f32)".to_string(), vec![]),
            ("MyEnum".to_string(), vec![]),
            ("MyStruct2".to_string(), path.clone()),
            ("MyStruct".to_string(), path.clone()),
            ("MyStruct3".to_string(), path.clone()),
        ]
    );
}

#[test]
fn sibling_namespaces_do_not_nest() {
    let mut b = Builder::new();
    let first = b.add(0, DW_TAG_NAMESPACE, vec![name("first")]);
    b.add(first, DW_TAG_STRUCTURE_TYPE, vec![name("A")]);
    let second = b.add(0, DW_TAG_NAMESPACE, vec![name("second")]);
    b.add(second, DW_TAG_STRUCTURE_TYPE, vec![name("B")]);
    let unit = b.unit();
    let types = walk_namespace(&unit, 0, &vec![], MAX_DEPTH).unwrap();
    assert_eq!(types[0].namespace, vec!["first".to_string()]);
    assert_eq!(types[1].namespace, vec!["second".to_string()]);
}

#[test]
fn the_types_of_an_entry_are_listed() {
    let (unit, _, _, _) = program();
    let types = get_types(&unit, 0, &vec![], MAX_DEPTH).unwrap();
    let names: Vec<&str> = types.iter().map(|t| t.name()).collect();
    assert_eq!(names, vec!["i32", "u32", "u8", "f32", "(u8, f32)", "MyEnum"]);
}

#[test]
fn what_defines_no_type_is_not_listed() {
    let mut b = Builder::new();
    b.add(0, DW_TAG_VARIABLE, vec![name("v")]);
    b.add(0, DW_TAG_ARRAY_TYPE, vec![name("[u8; 4]")]);
    b.add(0, DW_TAG_MEMBER, vec![name("m")]);
    let p = b.add(0, DW_TAG_POINTER_TYPE, vec![name("*const ()")]);
    let r = b.add(0, DW_TAG_REFERENCE_TYPE, vec![name("&()")]);
    let unit = b.unit();
    let types = get_types(&unit, 0, &vec![], MAX_DEPTH).unwrap();
    let names: Vec<&str> = types.iter().map(|t| t.name()).collect();
    assert_eq!(names, vec!["*const ()", "&()"]);
    assert!(p < r);
}

#[test]
fn catalogue_by_type_name() {
    let (unit, _, _, _) = program();
    let printers = printers_of(&vec![unit]).unwrap();
    assert_eq!(printers.0.len(), 9);
    assert!(printers.get("mod1::mod2::MyStruct3").is_some());
    assert!(printers.get("MyStruct3").is_none());
    assert!(printers.get("mod2::MyStruct3").is_none());
    assert_eq!(printers.get("mod1::mod2::MyStruct3").unwrap().qualified_name(), "mod1::mod2::MyStruct3");
    assert_eq!(printers.get("u32").unwrap().qualified_name(), "u32");
    let mut out = Vec::new();
    assert_eq!(printers.print(&mut out, "mod1::mod2::MyStruct3", &[42]), Ok(()));
    assert_eq!(show(&out), "mod1::mod2::MyStruct3\nMyStruct3: ( 42 )");
    // a scalar that was logged by itself
    let mut out = Vec::new();
    assert_eq!(printers.print(&mut out, "u32", &[1, 0, 0, 0]), Ok(()));
    assert_eq!(show(&out), "u32\n1");
}

#[test]
fn a_type_that_the_catalogue_lacks_gets_a_placeholder() {
    let printers = TypePrinters::new();
    let mut out = Vec::new();
    assert_eq!(printers.print(&mut out, "app::Missing", &[1, 2, 3]), Ok(()));
    assert_eq!(show(&out), "app::Missing\n<unknown type>");
}

#[test]
fn a_failed_print_leaves_the_output_alone() {
    let (unit, _, _, _) = program();
    let printers = printers_of(&vec![unit]).unwrap();
    let mut out = vec![Piece::Text("kept".to_string())];
    assert_eq!(printers.print(&mut out, "mod1::mod2::MyStruct3", &[]), Err(RenderError::OutOfBounds));
    assert_eq!(out, vec![Piece::Text("kept".to_string())]);
}

#[test]
fn later_units_replace_types_of_the_same_name() {
    let mut b = Builder::new();
    let u8_ = b.base("u8", DW_ATE_UNSIGNED, 1);
    let s = b.add(0, DW_TAG_STRUCTURE_TYPE, vec![name("S")]);
    b.member(s, "old", u8_, 0);
    b.add(0, DW_TAG_STRUCTURE_TYPE, vec![name("T")]);
    let first = b.unit();
    let mut b = Builder::new();
    let u8_ = b.base("u8", DW_ATE_UNSIGNED, 1);
    let s = b.add(0, DW_TAG_STRUCTURE_TYPE, vec![name("S")]);
    b.member(s, "new", u8_, 0);
    let second = b.unit();
    let printers = printers_of(&vec![first, second]).unwrap();
    let names: Vec<&str> = printers.0.iter().map(|t| t.name()).collect();
    assert_eq!(names, vec!["u8", "S", "T"]);
    assert_eq!(render(printers.get("S").unwrap(), &[1]), Ok("S: { new: 1 }".to_string()));
}

#[test]
fn variables_by_name() {
    let mut b = Builder::new();
    b.add(0, DW_TAG_VARIABLE, vec![name("TEST1")]);
    b.add(0, DW_TAG_STRUCTURE_TYPE, vec![name("S")]);
    b.add(0, DW_TAG_VARIABLE, vec![attr(DW_AT_NAME, AttrValue::Udata(0))]);
    b.add(0, DW_TAG_VARIABLE, vec![]);
    let unit = b.unit();
    let vars = get_variables(&unit, 0);
    let names: Vec<&str> = vars.iter().map(|v| v.name.as_str()).collect();
    assert_eq!(names, vec!["TEST1", "<undefined>", ""]);
    assert!(vars.iter().all(|v| v.line == u64::MAX && v.value == 0 && v.file.is_empty()));
}

#[test]
fn tags_by_class() {
    assert!(is_base_type(DW_TAG_BASE_TYPE));
    assert!(!is_base_type(DW_TAG_STRUCTURE_TYPE));
    assert!(is_complex_type(DW_TAG_STRUCTURE_TYPE));
    assert!(is_complex_type(DW_TAG_REFERENCE_TYPE));
    assert!(is_complex_type(DW_TAG_ARRAY_TYPE));
    assert!(!is_complex_type(DW_TAG_BASE_TYPE));
    assert!(!is_complex_type(DW_TAG_POINTER_TYPE));
}

#[test]
fn discriminant_defaults() {
    // A variant part without a discriminant keeps offset zero; a variant
    // without a value is selected by zero.
    let mut b = Builder::new();
    let e = b.add(0, DW_TAG_STRUCTURE_TYPE, vec![name("E")]);
    let only = b.add(0, DW_TAG_STRUCTURE_TYPE, vec![name("Only")]);
    let part = b.add(e, DW_TAG_VARIANT_PART, vec![]);
    let v = b.add(part, DW_TAG_VARIANT, vec![]);
    b.member(v, "Only", only, 0);
    let unit = b.unit();
    let t = extract_type_of(&unit, e, &vec![], 0, MAX_DEPTH).unwrap().unwrap();
    assert_eq!(render(&t, &[0]), Ok("E::Only".to_string()));
    assert_eq!(render(&t, &[1]), Err(RenderError::UnknownDiscriminant));
}

fn bare(count: usize) -> Vec<Entry> {
    (0..count)
        .map(|i| Entry { offset: i, tag: 0, has_children: false, attrs: vec![], children: vec![] })
        .collect()
}

fn children(entries: &[Entry]) -> Vec<Vec<usize>> {
    entries.iter().map(|e| e.children.clone()).collect()
}

#[test]
fn entries_get_their_places_from_their_steps() {
    // 0 ─┬─ 1 ─┬─ 2
    //    │     └─ 3 ── 4
    //    ├─ 5
    //    └─ 6 ── 7
    let mut entries = bare(8);
    link(&mut entries, &vec![0, 1, 1, 0, 1, -2, 0, 1]);
    assert_eq!(
        children(&entries),
        vec![vec![1, 5, 6], vec![2, 3], vec![], vec![4], vec![], vec![], vec![7], vec![]]
    );
}

#[test]
fn the_tree_ends_where_an_entry_has_no_place() {
    // a second entry beside the first
    let mut entries = bare(3);
    link(&mut entries, &vec![0, 0, 1]);
    assert_eq!(children(&entries), vec![Vec::<usize>::new()]);
    // an entry above the first
    let mut entries = bare(4);
    link(&mut entries, &vec![0, 1, -2, 1]);
    assert_eq!(children(&entries), vec![vec![1], vec![]]);
    // an entry two levels down
    let mut entries = bare(4);
    link(&mut entries, &vec![0, 1, 2, 0]);
    assert_eq!(children(&entries), vec![vec![1], vec![]]);
    // fewer steps than entries
    let mut entries = bare(4);
    link(&mut entries, &vec![0, 1]);
    assert_eq!(children(&entries), vec![vec![1], vec![]]);
    // the first step does not count
    let mut entries = bare(2);
    link(&mut entries, &vec![-7, 1]);
    assert_eq!(children(&entries), vec![vec![1], vec![]]);
    let mut entries = bare(0);
    link(&mut entries, &vec![0, 1]);
    assert!(entries.is_empty());
    let mut entries = bare(1);
    link(&mut entries, &vec![]);
    assert_eq!(entries.len(), 1);
    let mut entries = bare(3);
    link(&mut entries, &vec![0, isize::MIN, 1]);
    assert_eq!(entries.len(), 1);
}

#[test]
fn children_are_added_to_those_an_entry_has() {
    let mut entries = bare(3);
    entries[0].children.push(9);
    link(&mut entries, &vec![0, 1, 0]);
    assert_eq!(children(&entries), vec![vec![9, 1, 2], vec![], vec![]]);
    assert_eq!(entries[2].offset, 2);
}

#[test]
fn types_of_one_name_in_two_namespaces_stand_side_by_side() {
    let mut b = Builder::new();
    let a = b.add(0, DW_TAG_NAMESPACE, vec![name("a")]);
    b.add(a, DW_TAG_STRUCTURE_TYPE, vec![name("S")]);
    let c = b.add(0, DW_TAG_NAMESPACE, vec![name("c")]);
    b.add(c, DW_TAG_STRUCTURE_TYPE, vec![name("S")]);
    let printers = printers_of(&vec![b.unit()]).unwrap();
    assert_eq!(printers.0.len(), 2);
    assert_eq!(printers.get("a::S").unwrap().namespace, vec!["a".to_string()]);
    assert_eq!(printers.get("c::S").unwrap().namespace, vec!["c".to_string()]);
    assert!(printers.get("S").is_none());
}
