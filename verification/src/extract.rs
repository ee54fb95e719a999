//! Walks the debugging information entries of a compilation unit and
//! builds the descriptors that the catalogue describes.

use crate::catalogue::CatalogueError;
use crate::catalogue::Parts;
use crate::catalogue::absorb;
use crate::catalogue::base_type_info;
use crate::catalogue::classify;
use crate::catalogue::digit_value;
use crate::catalogue::is_type_defining;
use crate::catalogue::discr_value_of;
use crate::catalogue::member_of;
use crate::catalogue::member_position;
use crate::catalogue::namespace_types;
use crate::catalogue::nested_types;
use crate::catalogue::number_of;
use crate::catalogue::opaque;
use crate::catalogue::parts_of;
use crate::catalogue::place;
use crate::catalogue::put_member;
use crate::catalogue::scalar_model;
use crate::catalogue::tuple_index;
use crate::catalogue::type_of;
use crate::catalogue::types_in;
use crate::catalogue::variant_members;
use crate::catalogue::variants_of;
use crate::dwarf::Attr;
use crate::dwarf::AttrValue;
use crate::dwarf::DW_ATE_ADDRESS;
use crate::dwarf::DW_ATE_BOOLEAN;
use crate::dwarf::DW_ATE_FLOAT;
use crate::dwarf::DW_ATE_SIGNED;
use crate::dwarf::DW_ATE_SIGNED_CHAR;
use crate::dwarf::DW_ATE_UNSIGNED;
use crate::dwarf::DW_ATE_UNSIGNED_CHAR;
use crate::dwarf::DW_AT_BYTE_SIZE;
use crate::dwarf::DW_AT_DATA_MEMBER_LOCATION;
use crate::dwarf::DW_AT_DISCR;
use crate::dwarf::DW_AT_DISCR_VALUE;
use crate::dwarf::DW_AT_ENCODING;
use crate::dwarf::DW_AT_NAME;
use crate::dwarf::DW_AT_TYPE;
use crate::dwarf::DW_TAG_BASE_TYPE;
use crate::dwarf::DW_TAG_MEMBER;
use crate::dwarf::DW_TAG_NAMESPACE;
use crate::dwarf::DW_TAG_POINTER_TYPE;
use crate::dwarf::DW_TAG_REFERENCE_TYPE;
use crate::dwarf::DW_TAG_STRUCTURE_TYPE;
use crate::dwarf::DW_TAG_VARIANT;
use crate::dwarf::DW_TAG_VARIANT_PART;
use crate::dwarf::UnitImage;
use crate::dwarf::ValueKind;
use crate::dwarf::find_last_attr;
use crate::dwarf::read_name;
use crate::dwarf::read_size;
use crate::dwarf::read_type_name;
use crate::printer::BaseType;
use crate::printer::PrinterModel;
use crate::printer::TypePrinter;
use crate::text::decimal;
use crate::text::push_decimal;
use crate::types::Enum;
use crate::types::KindModel;
use crate::types::Member;
use crate::types::Scalar;
use crate::types::Struct;
use crate::types::Type;
use crate::types::TypeKind;
use crate::types::TypeModel;
use crate::types::clone_names;
use crate::types::lemma_members_push;
use crate::types::lemma_members_update;
use crate::types::lemma_types_concat;
use crate::types::lemma_types_insert;
use crate::types::lemma_types_push;
use crate::types::members_model;
use crate::types::names_model;
use crate::types::types_model;
use vstd::prelude::*;

verus! {

/// Whether `got` holds the descriptor, or the error, that `want` names.
pub open spec fn found(
    want: Result<Option<TypeModel>, CatalogueError>,
    got: Result<Option<Type>, CatalogueError>,
) -> bool {
    match want {
        Ok(Some(m)) => got is Ok && got->Ok_0 is Some && got->Ok_0->Some_0@ == m,
        Ok(None) => got is Ok && got->Ok_0 is None,
        Err(e) => got is Err && got->Err_0 == e,
    }
}

/// Whether `got` holds the descriptors, or the error, that `want` names.
pub open spec fn listed(
    want: Result<Seq<TypeModel>, CatalogueError>,
    got: Result<Vec<Type>, CatalogueError>,
) -> bool {
    match want {
        Ok(types) => got is Ok && types_model(got->Ok_0@) == types,
        Err(e) => got is Err && got->Err_0 == e,
    }
}

impl BaseType {
    /// The kind of scalar that a base type with encoding `ate`, of `size`
    /// bytes and called `name`, is.
    pub fn from_base_type(ate: u8, name: &str, size: usize) -> (r: Self)
        requires
            scalar_model(ate, name@, size) is Ok,
        ensures
            r@ == scalar_model(ate, name@, size)->Ok_0,
    {
        if size == 0 {
            return BaseType::Zero(String::from_str(name));
        }
        if ate == DW_ATE_BOOLEAN {
            BaseType::Bool
        } else if ate == DW_ATE_FLOAT {
            if size == 4 {
                BaseType::F32
            } else {
                BaseType::F64
            }
        } else if ate == DW_ATE_SIGNED || ate == DW_ATE_SIGNED_CHAR {
            BaseType::Signed(size)
        } else if ate == DW_ATE_ADDRESS || ate == DW_ATE_UNSIGNED || ate == DW_ATE_UNSIGNED_CHAR {
            BaseType::Unsigned(size)
        } else {
            BaseType::Unimplemented
        }
    }
}

impl TypeKind {
    /// The scalar that a base type with encoding `ate`, of `size` bytes and
    /// called `name`, is: its bytes are the first `size` of its region.
    pub fn new_from_base_type(ate: u8, name: &str, size: usize) -> (r: Self)
        requires
            scalar_model(ate, name@, size) is Ok,
        ensures
            r@ == KindModel::Scalar(
                PrinterModel {
                    start: 0,
                    end: size as nat,
                    printer: scalar_model(ate, name@, size)->Ok_0,
                },
            ),
    {
        TypeKind::Scalar(
            Scalar {
                printer: TypePrinter { range: 0..size, printer: BaseType::from_base_type(ate, name, size) },
            },
        )
    }
}

/// Whether a base type with encoding `ate` and of `size` bytes is a scalar
/// that the catalogue knows.
pub fn is_known_scalar(ate: u8, size: usize) -> (r: bool)
    ensures
        forall|name: Seq<char>| r == (#[trigger] scalar_model(ate, name, size) is Ok),
{
    size == 0 || ate != DW_ATE_FLOAT || size == 4 || size == 8
}

/// The value of the decimal digit `c`.
pub fn digit_of(c: char) -> (r: Option<usize>)
    ensures
        r matches Some(d) ==> d < 10,
        digit_value(c) == (match r {
            Some(d) => Some(d as nat),
            None => None,
        }),
{
    if c == '0' {
        Some(0)
    } else if c == '1' {
        Some(1)
    } else if c == '2' {
        Some(2)
    } else if c == '3' {
        Some(3)
    } else if c == '4' {
        Some(4)
    } else if c == '5' {
        Some(5)
    } else if c == '6' {
        Some(6)
    } else if c == '7' {
        Some(7)
    } else if c == '8' {
        Some(8)
    } else if c == '9' {
        Some(9)
    } else {
        None
    }
}

/// Where a string spells a number, each of its prefixes spells one that is
/// no larger.
pub proof fn lemma_number_prefix(s: Seq<char>, j: int)
    requires
        0 <= j <= s.len(),
        number_of(s) is Some,
    ensures
        number_of(s.take(j)) is Some,
        number_of(s.take(j))->Some_0 <= number_of(s)->Some_0,
    decreases s.len(),
{
    if j == s.len() {
        assert(s.take(j) =~= s);
    } else {
        lemma_number_prefix(s.drop_last(), j);
        assert(s.drop_last().take(j) =~= s.take(j));
    }
}

/// The position that a member's name gives it in a tuple.
pub fn parse_tuple_index(name: &str) -> (r: Option<usize>)
    ensures
        r == tuple_index(name@),
{
    let n: usize = name.unicode_len();
    if n <= 2 {
        return None;
    }
    if name.get_char(0) != '_' || name.get_char(1) != '_' {
        return None;
    }
    let ghost digits = name@.skip(2);
    let mut v: usize = 0;
    let mut i: usize = 2;
    proof {
        assert(digits.take(0) =~= Seq::<char>::empty());
    }
    while i < n
        invariant
            2 <= i <= n == name@.len(),
            digits == name@.skip(2),
            number_of(digits.take(i - 2)) == Some(v as nat),
        decreases n - i,
    {
        let c = name.get_char(i);
        proof {
            assert(digits.take(i - 1).drop_last() =~= digits.take(i - 2));
            assert(digits.take(i - 1)[i - 2] == name@[i as int]);
            if number_of(digits) is Some {
                lemma_number_prefix(digits, i - 1);
            }
        }
        match digit_of(c) {
            None => {
                return None;
            },
            Some(d) => {
                if v > (usize::MAX - d) / 10 {
                    return None;
                }
                v = 10 * v + d;
            },
        }
        i += 1;
    }
    proof {
        assert(digits.take(n - 2) =~= digits);
    }
    Some(v)
}

/// Puts `m` among the members: in the place of the member of the same name,
/// where there is one, else at the end.
pub fn insert_member(members: &mut Vec<Member>, m: Member)
    ensures
        members_model(final(members)@) == put_member(members_model(old(members)@), m@),
{
    let ghost models = members_model(members@);
    let mut i: usize = 0;
    while i < members.len()
        invariant
            i <= members@.len(),
            members@ == old(members)@,
            models == members_model(members@),
            member_position(models, m@.name, 0) == member_position(models, m@.name, i as int),
        decreases members@.len() - i,
    {
        if members[i].name == m.name {
            proof {
                lemma_members_update(members@, i as int, m);
            }
            members.set(i, m);
            return ;
        }
        i += 1;
    }
    proof {
        lemma_members_push(members@, m);
    }
    members.push(m);
}

/// Puts `t` among the items at position `index`, or at the end where the
/// items do not reach that far.
pub fn insert_item(items: &mut Vec<Type>, index: usize, t: Type)
    ensures
        types_model(final(items)@) == place(types_model(old(items)@), index as nat, t@),
{
    if index <= items.len() {
        proof {
            lemma_types_insert(items@, index as int, t);
        }
        items.insert(index, t);
    } else {
        proof {
            lemma_types_push(items@, t);
        }
        items.push(t);
    }
}

/// Name, encoding and size of a base type, where its attributes give all
/// three.
pub fn get_base_type_info(attrs: &Vec<Attr>) -> (r: Option<(String, u8, usize)>)
    ensures
        match base_type_info(attrs@) {
            Some((name, ate, size)) => r is Some && r->Some_0.0@ == name && r->Some_0.1 == ate
                && r->Some_0.2 == size,
            None => r is None,
        },
{
    let name = find_last_attr(attrs, DW_AT_NAME, ValueKind::DebugStrRef);
    let encoding = find_last_attr(attrs, DW_AT_ENCODING, ValueKind::Encoding);
    let size = read_size(attrs, DW_AT_BYTE_SIZE);
    match (name, encoding, size) {
        (Some(n), Some(e), Some(size)) => {
            let name = match &attrs[n].value {
                AttrValue::DebugStrRef(s) => s.clone(),
                _ => String::new(),
            };
            let ate: u8 = match &attrs[e].value {
                AttrValue::Encoding(ate) => *ate,
                _ => 0,
            };
            Some((name, ate, size))
        },
        _ => None,
    }
}

/// A descriptor of which nothing is known but its name.
pub fn opaque_type(name: String, ns: &Vec<String>, offset: usize) -> (r: Type)
    ensures
        r@ == opaque(name@, names_model(ns@), offset as nat),
{
    Type::new(TypeKind::Unknown, name, clone_names(ns), offset)
}

/// What the children of a structure have given so far.
pub struct Gathered {
    pub named: Vec<Member>,
    pub indexed: Vec<Type>,
    pub variants: Vec<Member>,
    pub discriminant_offset: usize,
}

impl View for Gathered {
    type V = Parts;

    open spec fn view(&self) -> Parts {
        Parts {
            named: members_model(self.named@),
            indexed: types_model(self.indexed@),
            variants: members_model(self.variants@),
            discriminant_offset: self.discriminant_offset as nat,
        }
    }
}

/// Whether `got` holds the parts, or the error, that `want` names.
pub open spec fn gathered(
    want: Result<Parts, CatalogueError>,
    got: Result<Gathered, CatalogueError>,
) -> bool {
    match want {
        Ok(p) => got is Ok && got->Ok_0@ == p,
        Err(e) => got is Err && got->Err_0 == e,
    }
}

impl Gathered {
    /// Nothing yet.
    pub fn new() -> (r: Self)
        ensures
            r@ == (Parts {
                named: Seq::empty(),
                indexed: Seq::empty(),
                variants: Seq::empty(),
                discriminant_offset: 0,
            }),
    {
        let r = Gathered {
            named: Vec::new(),
            indexed: Vec::new(),
            variants: Vec::new(),
            discriminant_offset: 0,
        };
        assert(members_model(r.named@) =~= Seq::empty());
        assert(types_model(r.indexed@) =~= Seq::empty());
        assert(members_model(r.variants@) =~= Seq::empty());
        r
    }

    /// The kind of the structure whose children gave these parts.
    pub fn classify(self) -> (r: TypeKind)
        ensures
            r@ == classify(self@),
    {
        if self.variants.len() > 0 {
            TypeKind::Enum(
                Enum { variants: self.variants, discriminant_offset: self.discriminant_offset },
            )
        } else if self.indexed.len() > 0 || self.named.len() > 0 {
            TypeKind::Struct(
                Struct { named_children: self.named, indexed_children: self.indexed },
            )
        } else {
            TypeKind::PlainVariant
        }
    }
}

/// Returns the type that the entry at position `at` represents.
pub fn extract_type_of(
    unit: &UnitImage,
    at: usize,
    current_namespace: &Vec<String>,
    offset: usize,
    depth: usize,
) -> (r: Result<Option<Type>, CatalogueError>)
    ensures
        found(
            type_of(
                unit.entries@,
                at as int,
                names_model(current_namespace@),
                offset as nat,
                depth as nat,
            ),
            r,
        ),
    decreases depth, 5nat, 0nat,
{
    if depth == 0 || at >= unit.entries.len() {
        return Ok(None);
    }
    let entry = &unit.entries[at];
    let own_name = read_type_name(&entry.attrs);
    if entry.tag == DW_TAG_STRUCTURE_TYPE {
        if !entry.has_children {
            return Ok(
                Some(
                    Type::new(
                        TypeKind::PlainVariant,
                        own_name,
                        clone_names(current_namespace),
                        offset,
                    ),
                ),
            );
        }
        match collect_parts(
            unit,
            &entry.children,
            Gathered::new(),
            current_namespace,
            offset,
            depth,
        ) {
            Err(err) => Err(err),
            Ok(parts) => Ok(
                Some(
                    Type::new(
                        parts.classify(),
                        own_name,
                        clone_names(current_namespace),
                        offset,
                    ),
                ),
            ),
        }
    } else if entry.tag == DW_TAG_BASE_TYPE {
        match get_base_type_info(&entry.attrs) {
            None => Ok(None),
            Some((name, ate, size)) => {
                if !is_known_scalar(ate, size) {
                    return Err(CatalogueError::FloatSize);
                }
                let kind = TypeKind::new_from_base_type(ate, name.as_str(), size);
                Ok(Some(Type::new(kind, name, clone_names(current_namespace), offset)))
            },
        }
    } else if entry.tag == DW_TAG_POINTER_TYPE || entry.tag == DW_TAG_REFERENCE_TYPE {
        let pointee = match unit.read_ref(&entry.attrs, DW_AT_TYPE) {
            Some(target) => match extract_type_of(
                unit,
                target,
                current_namespace,
                0,
                depth - 1,
            ) {
                Err(err) => {
                    return Err(err);
                },
                Ok(t) => t,
            },
            None => None,
        };
        let inner = match pointee {
            Some(t) => t,
            None => opaque_type(String::from_str("<unnamed type>"), current_namespace, 0),
        };
        Ok(
            Some(
                Type::new(
                    TypeKind::Pointer(Box::new(inner)),
                    own_name,
                    clone_names(current_namespace),
                    offset,
                ),
            ),
        )
    } else {
        Ok(Some(opaque_type(own_name, current_namespace, offset)))
    }
}

/// Gathers what the children of a structure give.
#[verifier::loop_isolation(false)]
fn collect_parts(
    unit: &UnitImage,
    children: &Vec<usize>,
    start: Gathered,
    current_namespace: &Vec<String>,
    offset: usize,
    depth: usize,
) -> (r: Result<Gathered, CatalogueError>)
    ensures
        gathered(
            parts_of(
                unit.entries@,
                children@,
                0,
                start@,
                names_model(current_namespace@),
                offset as nat,
                depth as nat,
            ),
            r,
        ),
    decreases depth, 4nat, 0nat,
{
    let ghost whole = parts_of(
        unit.entries@,
        children@,
        0,
        start@,
        names_model(current_namespace@),
        offset as nat,
        depth as nat,
    );
    let mut acc = start;
    let mut k: usize = 0;
    while k < children.len()
        invariant
            k <= children@.len(),
            whole == parts_of(
                unit.entries@,
                children@,
                k as nat,
                acc@,
                names_model(current_namespace@),
                offset as nat,
                depth as nat,
            ),
        decreases children@.len() - k,
    {
        match absorb_child(unit, children[k], acc, current_namespace, offset, depth) {
            Err(err) => {
                return Err(err);
            },
            Ok(next) => {
                acc = next;
            },
        }
        k += 1;
    }
    Ok(acc)
}

/// Adds what one child of a structure gives.
fn absorb_child(
    unit: &UnitImage,
    at: usize,
    acc: Gathered,
    current_namespace: &Vec<String>,
    offset: usize,
    depth: usize,
) -> (r: Result<Gathered, CatalogueError>)
    ensures
        gathered(
            absorb(
                unit.entries@,
                at as int,
                acc@,
                names_model(current_namespace@),
                offset as nat,
                depth as nat,
            ),
            r,
        ),
    decreases depth, 3nat, 0nat,
{
    if at >= unit.entries.len() {
        return Ok(acc);
    }
    let entry = &unit.entries[at];
    let mut acc = acc;
    if entry.tag == DW_TAG_MEMBER {
        match extract_member_of(unit, at, current_namespace, offset, depth) {
            Err(err) => Err(err),
            Ok((name, typ)) => {
                match parse_tuple_index(name.as_str()) {
                    Some(index) => {
                        let item = match typ {
                            Some(t) => t,
                            None => {
                                let mut label = String::new();
                                push_decimal(&mut label, index as u128);
                                assert(label@ =~= decimal(index as nat));
                                opaque_type(label, current_namespace, offset)
                            },
                        };
                        insert_item(&mut acc.indexed, index, item);
                        Ok(acc)
                    },
                    None => {
                        let typ = match typ {
                            Some(t) => t,
                            None => opaque_type(name.clone(), current_namespace, offset),
                        };
                        insert_member(&mut acc.named, Member { name, typ });
                        Ok(acc)
                    },
                }
            },
        }
    } else if entry.tag == DW_TAG_VARIANT_PART {
        match unit.read_ref(&entry.attrs, DW_AT_DISCR) {
            Some(target) => match read_size(
                &unit.entries[target].attrs,
                DW_AT_DATA_MEMBER_LOCATION,
            ) {
                Some(location) => {
                    acc.discriminant_offset = location;
                },
                None => {},
            },
            None => {},
        }
        collect_variants(unit, &entry.children, acc, current_namespace, offset, depth)
    } else {
        Ok(acc)
    }
}

/// The discriminant that selects a variant.
pub fn read_discr_value(attrs: &Vec<Attr>) -> (r: usize)
    ensures
        r == discr_value_of(attrs@),
{
    match find_last_attr(attrs, DW_AT_DISCR_VALUE, ValueKind::Data1) {
        Some(i) => match &attrs[i].value {
            AttrValue::Data1(v) => *v as usize,
            _ => 0,
        },
        None => 0,
    }
}

/// Gathers the variants among the children of a variant part.
#[verifier::loop_isolation(false)]
fn collect_variants(
    unit: &UnitImage,
    children: &Vec<usize>,
    start: Gathered,
    current_namespace: &Vec<String>,
    offset: usize,
    depth: usize,
) -> (r: Result<Gathered, CatalogueError>)
    ensures
        gathered(
            variants_of(
                unit.entries@,
                children@,
                0,
                start@,
                names_model(current_namespace@),
                offset as nat,
                depth as nat,
            ),
            r,
        ),
    decreases depth, 2nat, 0nat,
{
    let ghost whole = variants_of(
        unit.entries@,
        children@,
        0,
        start@,
        names_model(current_namespace@),
        offset as nat,
        depth as nat,
    );
    let mut acc = start;
    let mut k: usize = 0;
    while k < children.len()
        invariant
            k <= children@.len(),
            whole == variants_of(
                unit.entries@,
                children@,
                k as nat,
                acc@,
                names_model(current_namespace@),
                offset as nat,
                depth as nat,
            ),
        decreases children@.len() - k,
    {
        let at: usize = children[k];
        if at < unit.entries.len() && unit.entries[at].tag == DW_TAG_VARIANT {
            let discriminant_value = read_discr_value(&unit.entries[at].attrs);
            match collect_variant_members(
                unit,
                &unit.entries[at].children,
                acc,
                discriminant_value,
                current_namespace,
                offset,
                depth,
            ) {
                Err(err) => {
                    return Err(err);
                },
                Ok(next) => {
                    acc = next;
                },
            }
        }
        k += 1;
    }
    Ok(acc)
}

/// Gathers the variants that the members among a variant's children give.
#[verifier::loop_isolation(false)]
fn collect_variant_members(
    unit: &UnitImage,
    children: &Vec<usize>,
    start: Gathered,
    discriminant_value: usize,
    current_namespace: &Vec<String>,
    offset: usize,
    depth: usize,
) -> (r: Result<Gathered, CatalogueError>)
    ensures
        gathered(
            variant_members(
                unit.entries@,
                children@,
                0,
                start@,
                discriminant_value as nat,
                names_model(current_namespace@),
                offset as nat,
                depth as nat,
            ),
            r,
        ),
    decreases depth, 1nat, 0nat,
{
    let ghost whole = variant_members(
        unit.entries@,
        children@,
        0,
        start@,
        discriminant_value as nat,
        names_model(current_namespace@),
        offset as nat,
        depth as nat,
    );
    let mut acc = start;
    let mut k: usize = 0;
    while k < children.len()
        invariant
            k <= children@.len(),
            whole == variant_members(
                unit.entries@,
                children@,
                k as nat,
                acc@,
                discriminant_value as nat,
                names_model(current_namespace@),
                offset as nat,
                depth as nat,
            ),
        decreases children@.len() - k,
    {
        let at: usize = children[k];
        if at < unit.entries.len() && unit.entries[at].tag == DW_TAG_MEMBER {
            let attrs = &unit.entries[at].attrs;
            if find_last_attr(attrs, DW_AT_TYPE, ValueKind::Any).is_some() {
                let name = read_name(attrs);
                let variant_offset: usize = match read_size(attrs, DW_AT_DATA_MEMBER_LOCATION) {
                    Some(location) => location,
                    None => 0,
                };
                let found = match unit.read_ref(attrs, DW_AT_TYPE) {
                    Some(target) => if depth > 0 {
                        match extract_type_of(
                            unit,
                            target,
                            current_namespace,
                            variant_offset,
                            depth - 1,
                        ) {
                            Err(err) => {
                                return Err(err);
                            },
                            Ok(t) => t,
                        }
                    } else {
                        None
                    },
                    None => None,
                };
                let typ = match found {
                    Some(t) => {
                        let mut t = t;
                        t.variant_value = discriminant_value;
                        t
                    },
                    None => opaque_type(name.clone(), current_namespace, offset),
                };
                insert_member(&mut acc.variants, Member { name, typ });
            }
        }
        k += 1;
    }
    Ok(acc)
}

/// Returns the member that the entry at position `at` represents.
pub fn extract_member_of(
    unit: &UnitImage,
    at: usize,
    current_namespace: &Vec<String>,
    offset: usize,
    depth: usize,
) -> (r: Result<(String, Option<Type>), CatalogueError>)
    ensures
        match member_of(
            unit.entries@,
            at as int,
            names_model(current_namespace@),
            offset as nat,
            depth as nat,
        ) {
            Ok((name, typ)) => r is Ok && r->Ok_0.0@ == name && found(
                Ok(typ),
                Ok(r->Ok_0.1),
            ),
            Err(e) => r is Err && r->Err_0 == e,
        },
    decreases depth, 0nat, 0nat,
{
    if at >= unit.entries.len() {
        return Ok((String::new(), None));
    }
    let attrs = &unit.entries[at].attrs;
    let name = read_name(attrs);
    let place: usize = match read_size(attrs, DW_AT_DATA_MEMBER_LOCATION) {
        Some(location) => location,
        None => offset,
    };
    match find_last_attr(attrs, DW_AT_TYPE, ValueKind::Any) {
        None => Ok((name, None)),
        Some(i) => match &attrs[i].value {
            AttrValue::UnitRef(target_offset) => match unit.find(*target_offset) {
                Some(target) => if depth > 0 {
                    match extract_type_of(unit, target, current_namespace, place, depth - 1) {
                        Err(err) => Err(err),
                        Ok(t) => Ok((name, t)),
                    }
                } else {
                    Ok((name, None))
                },
                None => Ok((name, None)),
            },
            _ => Ok((String::new(), None)),
        },
    }
}

/// Returns all the types in the entry at position `at`.
#[verifier::loop_isolation(false)]
pub fn get_types(unit: &UnitImage, at: usize, current_namespace: &Vec<String>, depth: usize) -> (r:
    Result<Vec<Type>, CatalogueError>)
    requires
        at < unit.entries@.len(),
    ensures
        listed(
            types_in(
                unit.entries@,
                unit.entries@[at as int].children@,
                0,
                names_model(current_namespace@),
                depth as nat,
            ),
            r,
        ),
    decreases depth, 6nat, 0nat,
{
    let children = &unit.entries[at].children;
    let ghost ns = names_model(current_namespace@);
    let ghost whole = types_in(unit.entries@, children@, 0, ns, depth as nat);
    let mut types: Vec<Type> = Vec::new();
    let mut k: usize = 0;
    proof {
        assert(types_model(types@) =~= Seq::empty());
        assert(Seq::<TypeModel>::empty() + whole->Ok_0 =~= whole->Ok_0);
    }
    while k < children.len()
        invariant
            k <= children@.len(),
            ns == names_model(current_namespace@),
            match types_in(unit.entries@, children@, k as nat, ns, depth as nat) {
                Ok(rest) => whole == Ok::<Seq<TypeModel>, CatalogueError>(
                    types_model(types@) + rest,
                ),
                Err(e) => whole == Err::<Seq<TypeModel>, CatalogueError>(e),
            },
        decreases children@.len() - k,
    {
        let current: usize = children[k];
        let ghost before = types_model(types@);
        let ghost next = types_in(unit.entries@, children@, (k + 1) as nat, ns, depth as nat);
        if current < unit.entries.len() && is_type_defining(unit.entries[current].tag) {
            match extract_type_of(unit, current, current_namespace, 0, depth) {
                Err(err) => {
                    return Err(err);
                },
                Ok(Some(typ)) => {
                    proof {
                        lemma_types_push(types@, typ);
                        if next is Ok {
                            assert(before.push(typ@) + next->Ok_0 =~= before + (seq![typ@]
                                + next->Ok_0));
                        }
                    }
                    types.push(typ);
                },
                Ok(None) => {
                    proof {
                        if next is Ok {
                            assert(Seq::<TypeModel>::empty() + next->Ok_0 =~= next->Ok_0);
                        }
                    }
                },
            }
        } else {
            proof {
                if next is Ok {
                    assert(Seq::<TypeModel>::empty() + next->Ok_0 =~= next->Ok_0);
                }
            }
        }
        k += 1;
    }
    proof {
        assert(types_model(types@) + Seq::<TypeModel>::empty() =~= types_model(types@));
    }
    Ok(types)
}

/// Returns the types in the entry at position `at` and in the namespaces
/// below it.
pub fn walk_namespace(
    unit: &UnitImage,
    at: usize,
    current_namespace: &Vec<String>,
    depth: usize,
) -> (r: Result<Vec<Type>, CatalogueError>)
    ensures
        listed(
            namespace_types(
                unit.entries@,
                at as int,
                names_model(current_namespace@),
                depth as nat,
            ),
            r,
        ),
    decreases depth, 8nat, 0nat,
{
    if depth == 0 || at >= unit.entries.len() {
        let types: Vec<Type> = Vec::new();
        assert(types_model(types@) =~= Seq::empty());
        return Ok(types);
    }
    let mut types = match get_types(unit, at, current_namespace, depth) {
        Err(err) => {
            return Err(err);
        },
        Ok(types) => types,
    };
    match walk_nested(unit, &unit.entries[at].children, current_namespace, depth) {
        Err(err) => Err(err),
        Ok(below) => {
            proof {
                lemma_types_concat(types@, below@);
            }
            let mut below = below;
            types.append(&mut below);
            Ok(types)
        },
    }
}

/// Returns the types in the namespaces among the children.
#[verifier::loop_isolation(false)]
fn walk_nested(
    unit: &UnitImage,
    children: &Vec<usize>,
    current_namespace: &Vec<String>,
    depth: usize,
) -> (r: Result<Vec<Type>, CatalogueError>)
    ensures
        listed(
            nested_types(
                unit.entries@,
                children@,
                0,
                names_model(current_namespace@),
                depth as nat,
            ),
            r,
        ),
    decreases depth, 7nat, 0nat,
{
    let ghost ns = names_model(current_namespace@);
    let ghost whole = nested_types(unit.entries@, children@, 0, ns, depth as nat);
    let mut types: Vec<Type> = Vec::new();
    let mut k: usize = 0;
    proof {
        assert(types_model(types@) =~= Seq::empty());
        assert(Seq::<TypeModel>::empty() + whole->Ok_0 =~= whole->Ok_0);
    }
    while k < children.len()
        invariant
            k <= children@.len(),
            ns == names_model(current_namespace@),
            match nested_types(unit.entries@, children@, k as nat, ns, depth as nat) {
                Ok(rest) => whole == Ok::<Seq<TypeModel>, CatalogueError>(
                    types_model(types@) + rest,
                ),
                Err(e) => whole == Err::<Seq<TypeModel>, CatalogueError>(e),
            },
        decreases children@.len() - k,
    {
        let child: usize = children[k];
        let ghost before = types_model(types@);
        let ghost next = nested_types(unit.entries@, children@, (k + 1) as nat, ns, depth as nat);
        if child < unit.entries.len() && unit.entries[child].tag == DW_TAG_NAMESPACE && depth > 0 {
            let mut path = clone_names(current_namespace);
            path.push(read_name(&unit.entries[child].attrs));
            proof {
                assert(names_model(path@) =~= ns.push(name_of_entry(unit, child)));
            }
            match walk_namespace(unit, child, &path, depth - 1) {
                Err(err) => {
                    return Err(err);
                },
                Ok(found) => {
                    proof {
                        lemma_types_concat(types@, found@);
                        if next is Ok {
                            assert((before + types_model(found@)) + next->Ok_0 =~= before + (
                            types_model(found@) + next->Ok_0));
                        }
                    }
                    let mut found = found;
                    types.append(&mut found);
                },
            }
        } else {
            proof {
                if next is Ok {
                    assert(Seq::<TypeModel>::empty() + next->Ok_0 =~= next->Ok_0);
                }
            }
        }
        k += 1;
    }
    proof {
        assert(types_model(types@) + Seq::<TypeModel>::empty() =~= types_model(types@));
    }
    Ok(types)
}

/// The name of the entry at position `at`.
pub open spec fn name_of_entry(unit: &UnitImage, at: usize) -> Seq<char> {
    crate::dwarf::name_of(unit.entries@[at as int].attrs@)
}

} // verus!
