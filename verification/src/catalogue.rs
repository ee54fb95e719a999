//! Builds type descriptors from the debugging information entries of a
//! compilation unit.

use crate::dwarf::Attr;
use crate::dwarf::AttrValue;
use crate::dwarf::DW_ATE_ADDRESS;
use crate::dwarf::DW_ATE_BOOLEAN;
use crate::dwarf::DW_ATE_FLOAT;
use crate::dwarf::DW_ATE_SIGNED;
use crate::dwarf::DW_ATE_SIGNED_CHAR;
use crate::dwarf::DW_ATE_UNSIGNED;
use crate::dwarf::DW_ATE_UNSIGNED_CHAR;
use crate::dwarf::DW_AT_BYTE_SIZE;
use crate::dwarf::DW_AT_DATA_MEMBER_LOCATION;
use crate::dwarf::DW_AT_DISCR;
use crate::dwarf::DW_AT_DISCR_VALUE;
use crate::dwarf::DW_AT_ENCODING;
use crate::dwarf::DW_AT_NAME;
use crate::dwarf::DW_AT_TYPE;
use crate::dwarf::DW_TAG_BASE_TYPE;
use crate::dwarf::DW_TAG_MEMBER;
use crate::dwarf::DW_TAG_NAMESPACE;
use crate::dwarf::DW_TAG_POINTER_TYPE;
use crate::dwarf::DW_TAG_REFERENCE_TYPE;
use crate::dwarf::DW_TAG_STRUCTURE_TYPE;
use crate::dwarf::DW_TAG_VARIANT;
use crate::dwarf::DW_TAG_VARIANT_PART;
use crate::dwarf::Entry;
use crate::dwarf::ValueKind;
use crate::dwarf::last_attr;
use crate::dwarf::name_of;
use crate::dwarf::position_of;
use crate::dwarf::ref_attr;
use crate::dwarf::size_attr;
use crate::dwarf::type_name_of;
use crate::printer::PrinterModel;
use crate::printer::ScalarModel;
use crate::text::decimal;
use crate::types::KindModel;
use crate::types::MemberModel;
use crate::types::TypeModel;
use vstd::prelude::*;

verus! {

/// Why no catalogue could be built.
#[derive(Debug, Clone, Copy, PartialEq, Eq, Structural)]
pub enum CatalogueError {
    /// A floating-point base type of a size other than 4 or 8 bytes.
    FloatSize,
    /// The executable cannot be read for its debugging information.
    NoDebugInfo,
}

/// How many references and nested namespaces the catalogue follows from a
/// unit's root before it gives a descriptor up.
pub const MAX_DEPTH: usize = 64;

/// The kind of scalar that a base type with encoding `ate`, of `size` bytes
/// and called `name`, is.
pub open spec fn scalar_model(ate: u8, name: Seq<char>, size: usize) -> Result<
    ScalarModel,
    CatalogueError,
> {
    if size == 0 {
        Ok(ScalarModel::Zero(name))
    } else if ate == DW_ATE_BOOLEAN {
        Ok(ScalarModel::Bool)
    } else if ate == DW_ATE_FLOAT {
        if size == 4 {
            Ok(ScalarModel::F32)
        } else if size == 8 {
            Ok(ScalarModel::F64)
        } else {
            Err(CatalogueError::FloatSize)
        }
    } else if ate == DW_ATE_SIGNED || ate == DW_ATE_SIGNED_CHAR {
        Ok(ScalarModel::Signed(size as nat))
    } else if ate == DW_ATE_ADDRESS || ate == DW_ATE_UNSIGNED || ate == DW_ATE_UNSIGNED_CHAR {
        Ok(ScalarModel::Unsigned(size as nat))
    } else {
        Ok(ScalarModel::Unimplemented)
    }
}

/// The value of the decimal digit `c`.
pub open spec fn digit_value(c: char) -> Option<nat> {
    if c == '0' {
        Some(0nat)
    } else if c == '1' {
        Some(1nat)
    } else if c == '2' {
        Some(2nat)
    } else if c == '3' {
        Some(3nat)
    } else if c == '4' {
        Some(4nat)
    } else if c == '5' {
        Some(5nat)
    } else if c == '6' {
        Some(6nat)
    } else if c == '7' {
        Some(7nat)
    } else if c == '8' {
        Some(8nat)
    } else if c == '9' {
        Some(9nat)
    } else {
        None
    }
}

/// The number that `s` spells in decimal digits, if it holds nothing else.
pub open spec fn number_of(s: Seq<char>) -> Option<nat>
    decreases s.len(),
{
    if s.len() == 0 {
        Some(0nat)
    } else {
        match (number_of(s.drop_last()), digit_value(s[s.len() - 1])) {
            (Some(v), Some(d)) => Some(10 * v + d),
            _ => None,
        }
    }
}

/// The position that a member's name gives it in a tuple: the number after
/// two underscores, where the name is two underscores and then decimal
/// digits, and the number fits a `usize`.
pub open spec fn tuple_index(name: Seq<char>) -> Option<usize> {
    if name.len() > 2 && name[0] == '_' && name[1] == '_' {
        match number_of(name.skip(2)) {
            Some(v) => if v <= usize::MAX {
                Some(v as usize)
            } else {
                None
            },
            None => None,
        }
    } else {
        None
    }
}

/// What the children of a structure have given so far.
pub struct Parts {
    pub named: Seq<MemberModel>,
    pub indexed: Seq<TypeModel>,
    pub variants: Seq<MemberModel>,
    pub discriminant_offset: nat,
}

/// The position, from `k` on, of the first member called `name`.
pub open spec fn member_position(members: Seq<MemberModel>, name: Seq<char>, k: int) -> Option<int>
    decreases members.len() - k,
{
    if k < 0 || k >= members.len() {
        None
    } else if members[k].name == name {
        Some(k)
    } else {
        member_position(members, name, k + 1)
    }
}

/// The members with `m` among them: in the place of the member of the same
/// name, where there is one, else at the end.
pub open spec fn put_member(members: Seq<MemberModel>, m: MemberModel) -> Seq<MemberModel> {
    match member_position(members, m.name, 0) {
        Some(i) => if 0 <= i < members.len() {
            members.update(i, m)
        } else {
            members
        },
        None => members.push(m),
    }
}

/// The items with `t` at position `index`, or at the end where the items
/// do not reach that far.
pub open spec fn place(items: Seq<TypeModel>, index: nat, t: TypeModel) -> Seq<TypeModel> {
    if index <= items.len() {
        items.insert(index as int, t)
    } else {
        items.push(t)
    }
}

/// A descriptor of which nothing is known but its name.
pub open spec fn opaque(name: Seq<char>, ns: Seq<Seq<char>>, offset: nat) -> TypeModel {
    TypeModel { offset, kind: KindModel::Unknown, name, namespace: ns, variant_value: 0 }
}

/// The descriptor that was found, or an opaque one called `name`.
pub open spec fn or_opaque(
    found: Option<TypeModel>,
    name: Seq<char>,
    ns: Seq<Seq<char>>,
    offset: nat,
) -> TypeModel {
    match found {
        Some(t) => t,
        None => opaque(name, ns, offset),
    }
}

/// The kind of a structure whose children gave `p`: a tagged union where
/// there is a variant, else a tuple where a member has a position, else an
/// aggregate where a member has a name, else a plain variant.
pub open spec fn classify(p: Parts) -> KindModel {
    if p.variants.len() > 0 {
        KindModel::Enum { variants: p.variants, discriminant_offset: p.discriminant_offset }
    } else if p.indexed.len() > 0 || p.named.len() > 0 {
        KindModel::Struct { named: p.named, indexed: p.indexed }
    } else {
        KindModel::PlainVariant
    }
}

/// Name, encoding and size of a base type, where its attributes give all
/// three: the name as a string of the string section.
pub open spec fn base_type_info(attrs: Seq<Attr>) -> Option<(Seq<char>, u8, usize)> {
    match (
        last_attr(attrs, DW_AT_NAME, ValueKind::DebugStrRef),
        last_attr(attrs, DW_AT_ENCODING, ValueKind::Encoding),
        size_attr(attrs, DW_AT_BYTE_SIZE),
    ) {
        (Some(n), Some(e), Some(size)) => Some(
            (attrs[n].value->DebugStrRef_0@, attrs[e].value->Encoding_0, size),
        ),
        _ => None,
    }
}

/// The fuel that is left after one step.
pub open spec fn less(fuel: nat) -> nat {
    if fuel > 0 {
        (fuel - 1) as nat
    } else {
        0
    }
}

/// The descriptor of the type at position `at` of `unit`, for a value that
/// lies at `offset` in what encloses it. With no fuel left, and for a base
/// type that lacks its name, encoding or size, there is none.
pub open spec fn type_of(
    unit: Seq<Entry>,
    at: int,
    ns: Seq<Seq<char>>,
    offset: nat,
    fuel: nat,
) -> Result<Option<TypeModel>, CatalogueError>
    decreases fuel, 5nat, 0nat,
{
    if fuel == 0 || !(0 <= at < unit.len()) {
        Ok(None)
    } else {
        let e = unit[at];
        let name = type_name_of(e.attrs@);
        if e.tag == DW_TAG_STRUCTURE_TYPE {
            if !e.has_children {
                Ok(
                    Some(
                        TypeModel {
                            offset,
                            kind: KindModel::PlainVariant,
                            name,
                            namespace: ns,
                            variant_value: 0,
                        },
                    ),
                )
            } else {
                let start = Parts {
                    named: Seq::empty(),
                    indexed: Seq::empty(),
                    variants: Seq::empty(),
                    discriminant_offset: 0,
                };
                match parts_of(unit, e.children@, 0, start, ns, offset, fuel) {
                    Err(err) => Err(err),
                    Ok(p) => Ok(
                        Some(
                            TypeModel {
                                offset,
                                kind: classify(p),
                                name,
                                namespace: ns,
                                variant_value: 0,
                            },
                        ),
                    ),
                }
            }
        } else if e.tag == DW_TAG_BASE_TYPE {
            match base_type_info(e.attrs@) {
                None => Ok(None),
                Some((base_name, ate, size)) => match scalar_model(ate, base_name, size) {
                    Err(err) => Err(err),
                    Ok(m) => Ok(
                        Some(
                            TypeModel {
                                offset,
                                kind: KindModel::Scalar(
                                    PrinterModel { start: 0, end: size as nat, printer: m },
                                ),
                                name: base_name,
                                namespace: ns,
                                variant_value: 0,
                            },
                        ),
                    ),
                },
            }
        } else if e.tag == DW_TAG_POINTER_TYPE || e.tag == DW_TAG_REFERENCE_TYPE {
            let pointee = match ref_attr(unit, e.attrs@, DW_AT_TYPE) {
                Some(target) => type_of(unit, target, ns, 0, less(fuel)),
                None => Ok(None),
            };
            match pointee {
                Err(err) => Err(err),
                Ok(p) => Ok(
                    Some(
                        TypeModel {
                            offset,
                            kind: KindModel::Pointer(
                                Box::new(or_opaque(p, "<unnamed type>"@, ns, 0)),
                            ),
                            name,
                            namespace: ns,
                            variant_value: 0,
                        },
                    ),
                ),
            }
        } else {
            Ok(Some(opaque(name, ns, offset)))
        }
    }
}

/// What the children from position `k` on add to `acc`.
pub open spec fn parts_of(
    unit: Seq<Entry>,
    children: Seq<usize>,
    k: nat,
    acc: Parts,
    ns: Seq<Seq<char>>,
    offset: nat,
    fuel: nat,
) -> Result<Parts, CatalogueError>
    decreases fuel, 4nat, children.len() - k,
{
    if k >= children.len() {
        Ok(acc)
    } else {
        match absorb(unit, children[k as int] as int, acc, ns, offset, fuel) {
            Err(err) => Err(err),
            Ok(next) => parts_of(unit, children, k + 1, next, ns, offset, fuel),
        }
    }
}

/// What the child at position `at` adds to `acc`: a member goes among the
/// positioned or the named members, a variant part sets the discriminant's
/// offset and gives its variants, and any other child gives nothing.
pub open spec fn absorb(
    unit: Seq<Entry>,
    at: int,
    acc: Parts,
    ns: Seq<Seq<char>>,
    offset: nat,
    fuel: nat,
) -> Result<Parts, CatalogueError>
    decreases fuel, 3nat, 0nat,
{
    if !(0 <= at < unit.len()) {
        Ok(acc)
    } else if unit[at].tag == DW_TAG_MEMBER {
        match member_of(unit, at, ns, offset, fuel) {
            Err(err) => Err(err),
            Ok((name, typ)) => match tuple_index(name) {
                Some(index) => Ok(
                    Parts {
                        indexed: place(
                            acc.indexed,
                            index as nat,
                            or_opaque(typ, decimal(index as nat), ns, offset),
                        ),
                        ..acc
                    },
                ),
                None => Ok(
                    Parts {
                        named: put_member(
                            acc.named,
                            MemberModel { name, typ: or_opaque(typ, name, ns, offset) },
                        ),
                        ..acc
                    },
                ),
            },
        }
    } else if unit[at].tag == DW_TAG_VARIANT_PART {
        let d = match ref_attr(unit, unit[at].attrs@, DW_AT_DISCR) {
            Some(target) => match size_attr(unit[target].attrs@, DW_AT_DATA_MEMBER_LOCATION) {
                Some(loc) => loc as nat,
                None => acc.discriminant_offset,
            },
            None => acc.discriminant_offset,
        };
        variants_of(
            unit,
            unit[at].children@,
            0,
            Parts { discriminant_offset: d, ..acc },
            ns,
            offset,
            fuel,
        )
    } else {
        Ok(acc)
    }
}

/// The discriminant that selects a variant: its last one-byte discriminant
/// value, and zero where it has none.
pub open spec fn discr_value_of(attrs: Seq<Attr>) -> nat {
    match last_attr(attrs, DW_AT_DISCR_VALUE, ValueKind::Data1) {
        Some(i) => attrs[i].value->Data1_0 as nat,
        None => 0,
    }
}

/// What the variants among the children from position `k` on add to `acc`.
pub open spec fn variants_of(
    unit: Seq<Entry>,
    children: Seq<usize>,
    k: nat,
    acc: Parts,
    ns: Seq<Seq<char>>,
    offset: nat,
    fuel: nat,
) -> Result<Parts, CatalogueError>
    decreases fuel, 2nat, children.len() - k,
{
    if k >= children.len() {
        Ok(acc)
    } else {
        let at = children[k as int] as int;
        if 0 <= at < unit.len() && unit[at].tag == DW_TAG_VARIANT {
            match variant_members(
                unit,
                unit[at].children@,
                0,
                acc,
                discr_value_of(unit[at].attrs@),
                ns,
                offset,
                fuel,
            ) {
                Err(err) => Err(err),
                Ok(next) => variants_of(unit, children, k + 1, next, ns, offset, fuel),
            }
        } else {
            variants_of(unit, children, k + 1, acc, ns, offset, fuel)
        }
    }
}

/// What the members among a variant's children from position `k` on add to
/// `acc`: each member that has a type attribute gives a variant under its
/// name, selected by `discr`; its data lie where the member says.
pub open spec fn variant_members(
    unit: Seq<Entry>,
    children: Seq<usize>,
    k: nat,
    acc: Parts,
    discr: nat,
    ns: Seq<Seq<char>>,
    offset: nat,
    fuel: nat,
) -> Result<Parts, CatalogueError>
    decreases fuel, 1nat, children.len() - k,
{
    if k >= children.len() {
        Ok(acc)
    } else {
        let at = children[k as int] as int;
        if 0 <= at < unit.len() && unit[at].tag == DW_TAG_MEMBER && last_attr(
            unit[at].attrs@,
            DW_AT_TYPE,
            ValueKind::Any,
        ) is Some {
            let attrs = unit[at].attrs@;
            let name = name_of(attrs);
            let place = match size_attr(attrs, DW_AT_DATA_MEMBER_LOCATION) {
                Some(loc) => loc as nat,
                None => 0,
            };
            let found = match ref_attr(unit, attrs, DW_AT_TYPE) {
                Some(target) => if fuel > 0 {
                    type_of(unit, target, ns, place, less(fuel))
                } else {
                    Ok(None)
                },
                None => Ok(None),
            };
            match found {
                Err(err) => Err(err),
                Ok(t) => {
                    let typ = match t {
                        Some(t) => TypeModel { variant_value: discr, ..t },
                        None => opaque(name, ns, offset),
                    };
                    variant_members(
                        unit,
                        children,
                        k + 1,
                        Parts { variants: put_member(acc.variants, MemberModel { name, typ }), ..acc },
                        discr,
                        ns,
                        offset,
                        fuel,
                    )
                },
            }
        } else {
            variant_members(unit, children, k + 1, acc, discr, ns, offset, fuel)
        }
    }
}

/// The name of the member at position `at` and the descriptor of its type.
/// The member's data lie where its location attribute says, or at `offset`
/// where it has none. A member without a type has no descriptor, and one
/// whose type attribute is no reference has no name either.
pub open spec fn member_of(
    unit: Seq<Entry>,
    at: int,
    ns: Seq<Seq<char>>,
    offset: nat,
    fuel: nat,
) -> Result<(Seq<char>, Option<TypeModel>), CatalogueError>
    decreases fuel, 0nat, 0nat,
{
    if !(0 <= at < unit.len()) {
        Ok((Seq::empty(), None))
    } else {
        let attrs = unit[at].attrs@;
        let name = name_of(attrs);
        let place = match size_attr(attrs, DW_AT_DATA_MEMBER_LOCATION) {
            Some(loc) => loc as nat,
            None => offset,
        };
        match last_attr(attrs, DW_AT_TYPE, ValueKind::Any) {
            None => Ok((name, None)),
            Some(i) => match attrs[i].value {
                AttrValue::UnitRef(target_offset) => match position_of(unit, target_offset, 0) {
                    Some(target) => if fuel > 0 {
                        match type_of(unit, target, ns, place, less(fuel)) {
                            Err(err) => Err(err),
                            Ok(t) => Ok((name, t)),
                        }
                    } else {
                        Ok((name, None))
                    },
                    None => Ok((name, None)),
                },
                _ => Ok((Seq::empty(), None)),
            },
        }
    }
}

/// The descriptor as one more item, or nothing.
pub open spec fn one_or_none(t: Option<TypeModel>) -> Seq<TypeModel> {
    match t {
        Some(t) => seq![t],
        None => Seq::empty(),
    }
}

/// Whether an entry with this tag defines a type that the catalogue
/// describes: a structure, a base type, a pointer or a reference.
pub open spec fn defines_type(tag: u16) -> bool {
    tag == DW_TAG_STRUCTURE_TYPE || tag == DW_TAG_BASE_TYPE || tag == DW_TAG_POINTER_TYPE || tag
        == DW_TAG_REFERENCE_TYPE
}

/// The descriptors of the types among the children from position `k` on.
pub open spec fn types_in(
    unit: Seq<Entry>,
    children: Seq<usize>,
    k: nat,
    ns: Seq<Seq<char>>,
    fuel: nat,
) -> Result<Seq<TypeModel>, CatalogueError>
    decreases fuel, 6nat, children.len() - k,
{
    if k >= children.len() {
        Ok(Seq::empty())
    } else {
        let at = children[k as int] as int;
        let first = if 0 <= at < unit.len() && defines_type(unit[at].tag) {
            type_of(unit, at, ns, 0, fuel)
        } else {
            Ok(None)
        };
        match first {
            Err(err) => Err(err),
            Ok(t) => match types_in(unit, children, k + 1, ns, fuel) {
                Err(err) => Err(err),
                Ok(rest) => Ok(one_or_none(t) + rest),
            },
        }
    }
}

/// The descriptors of the types that stand in the entry at position `at`
/// and in the namespaces below it: first its own, then those of each
/// namespace among its children, under the path `ns` and the namespace's
/// name.
pub open spec fn namespace_types(
    unit: Seq<Entry>,
    at: int,
    ns: Seq<Seq<char>>,
    fuel: nat,
) -> Result<Seq<TypeModel>, CatalogueError>
    decreases fuel, 8nat, 0nat,
{
    if fuel == 0 || !(0 <= at < unit.len()) {
        Ok(Seq::empty())
    } else {
        match types_in(unit, unit[at].children@, 0, ns, fuel) {
            Err(err) => Err(err),
            Ok(own) => match nested_types(unit, unit[at].children@, 0, ns, fuel) {
                Err(err) => Err(err),
                Ok(below) => Ok(own + below),
            },
        }
    }
}

/// The descriptors in the namespaces among the children from position `k`
/// on.
pub open spec fn nested_types(
    unit: Seq<Entry>,
    children: Seq<usize>,
    k: nat,
    ns: Seq<Seq<char>>,
    fuel: nat,
) -> Result<Seq<TypeModel>, CatalogueError>
    decreases fuel, 7nat, children.len() - k,
{
    if k >= children.len() {
        Ok(Seq::empty())
    } else {
        let at = children[k as int] as int;
        let first = if 0 <= at < unit.len() && unit[at].tag == DW_TAG_NAMESPACE && fuel > 0 {
            namespace_types(unit, at, ns.push(name_of(unit[at].attrs@)), less(fuel))
        } else {
            Ok(Seq::empty())
        };
        match first {
            Err(err) => Err(err),
            Ok(found) => match nested_types(unit, children, k + 1, ns, fuel) {
                Err(err) => Err(err),
                Ok(rest) => Ok(found + rest),
            },
        }
    }
}

/// The position, from `k` on, of the first descriptor whose fully qualified
/// name is `name`.
pub open spec fn type_position(types: Seq<TypeModel>, name: Seq<char>, k: int) -> Option<int>
    decreases types.len() - k,
{
    if k < 0 || k >= types.len() {
        None
    } else if types[k].qualified_name() == name {
        Some(k)
    } else {
        type_position(types, name, k + 1)
    }
}

/// The descriptors with `t` among them: in the place of the descriptor of
/// the same fully qualified name, where there is one, else at the end.
pub open spec fn put_type(types: Seq<TypeModel>, t: TypeModel) -> Seq<TypeModel> {
    match type_position(types, t.qualified_name(), 0) {
        Some(i) => if 0 <= i < types.len() {
            types.update(i, t)
        } else {
            types
        },
        None => types.push(t),
    }
}

/// The descriptors of `acc` with those of `types` put among them one by
/// one, in their order.
pub open spec fn add_types(acc: Seq<TypeModel>, types: Seq<TypeModel>) -> Seq<TypeModel>
    decreases types.len(),
{
    if types.len() == 0 {
        acc
    } else {
        add_types(put_type(acc, types[0]), types.skip(1))
    }
}

/// The catalogue of the units from position `k` on, added to `acc`: the
/// descriptors of each unit's types, by fully qualified name; of two
/// descriptors of one name the later one stays.
pub open spec fn catalogue_of(units: Seq<crate::dwarf::UnitImage>, k: nat, acc: Seq<TypeModel>) -> Result<
    Seq<TypeModel>,
    CatalogueError,
>
    decreases units.len() - k,
{
    if k >= units.len() {
        Ok(acc)
    } else {
        match namespace_types(units[k as int].entries@, 0, Seq::empty(), MAX_DEPTH as nat) {
            Err(err) => Err(err),
            Ok(types) => catalogue_of(units, k + 1, add_types(acc, types)),
        }
    }
}

/// Whether an entry with this tag defines a type that the catalogue
/// describes.
pub fn is_type_defining(tag: u16) -> (r: bool)
    ensures
        r == defines_type(tag),
{
    tag == DW_TAG_STRUCTURE_TYPE || tag == DW_TAG_BASE_TYPE || tag == DW_TAG_POINTER_TYPE || tag
        == DW_TAG_REFERENCE_TYPE
}

/// Whether the tag is that of a base type.
pub fn is_base_type(tag: u16) -> (r: bool)
    ensures
        r == (tag == DW_TAG_BASE_TYPE),
{
    tag == DW_TAG_BASE_TYPE
}

/// Whether the tag is that of a type made of other types.
pub fn is_complex_type(tag: u16) -> (r: bool)
    ensures
        r == (tag == DW_TAG_STRUCTURE_TYPE || tag == crate::dwarf::DW_TAG_ENUMERATION_TYPE || tag
            == crate::dwarf::DW_TAG_UNION_TYPE || tag == crate::dwarf::DW_TAG_ARRAY_TYPE || tag
            == DW_TAG_REFERENCE_TYPE || tag == crate::dwarf::DW_TAG_STRING_TYPE),
{
    tag == DW_TAG_STRUCTURE_TYPE || tag == crate::dwarf::DW_TAG_ENUMERATION_TYPE || tag
        == crate::dwarf::DW_TAG_UNION_TYPE || tag == crate::dwarf::DW_TAG_ARRAY_TYPE || tag
        == DW_TAG_REFERENCE_TYPE || tag == crate::dwarf::DW_TAG_STRING_TYPE
}

} // verus!
