//! Debugging information entries as plain values: what the catalogue reads
//! of a compilation unit, taken out of the executable once.

use vstd::prelude::*;

verus! {

// Tags of entries, by the numbers that the DWARF standard gives them.

pub const DW_TAG_ARRAY_TYPE: u16 = 0x01;

pub const DW_TAG_ENUMERATION_TYPE: u16 = 0x04;

pub const DW_TAG_MEMBER: u16 = 0x0d;

pub const DW_TAG_POINTER_TYPE: u16 = 0x0f;

pub const DW_TAG_REFERENCE_TYPE: u16 = 0x10;

pub const DW_TAG_STRING_TYPE: u16 = 0x12;

pub const DW_TAG_STRUCTURE_TYPE: u16 = 0x13;

pub const DW_TAG_UNION_TYPE: u16 = 0x17;

pub const DW_TAG_VARIANT: u16 = 0x19;

pub const DW_TAG_BASE_TYPE: u16 = 0x24;

pub const DW_TAG_VARIANT_PART: u16 = 0x33;

pub const DW_TAG_VARIABLE: u16 = 0x34;

pub const DW_TAG_NAMESPACE: u16 = 0x39;

// Names of attributes.

pub const DW_AT_NAME: u16 = 0x03;

pub const DW_AT_BYTE_SIZE: u16 = 0x0b;

pub const DW_AT_DISCR: u16 = 0x15;

pub const DW_AT_DISCR_VALUE: u16 = 0x16;

pub const DW_AT_DATA_MEMBER_LOCATION: u16 = 0x38;

pub const DW_AT_ENCODING: u16 = 0x3e;

pub const DW_AT_TYPE: u16 = 0x49;

// Encodings of base types.

pub const DW_ATE_ADDRESS: u8 = 0x01;

pub const DW_ATE_BOOLEAN: u8 = 0x02;

pub const DW_ATE_FLOAT: u8 = 0x04;

pub const DW_ATE_SIGNED: u8 = 0x05;

pub const DW_ATE_SIGNED_CHAR: u8 = 0x06;

pub const DW_ATE_UNSIGNED: u8 = 0x07;

pub const DW_ATE_UNSIGNED_CHAR: u8 = 0x08;

pub const DW_ATE_UTF: u8 = 0x10;

pub const DW_ATE_ASCII: u8 = 0x12;

/// The value of an attribute, as far as the catalogue tells forms apart.
#[derive(Debug)]
pub enum AttrValue {
    /// An unsigned constant.
    Udata(u64),
    /// A one-byte constant.
    Data1(u8),
    /// The offset of another entry of the same unit.
    UnitRef(usize),
    /// A base type's encoding.
    Encoding(u8),
    /// A string of the string section, already looked up.
    DebugStrRef(String),
    /// A string that stands in the entry itself.
    Inline(String),
    /// Any other form.
    Other,
}

/// One attribute of an entry.
#[derive(Debug)]
pub struct Attr {
    pub name: u16,
    pub value: AttrValue,
}

/// One debugging information entry.
#[derive(Debug)]
pub struct Entry {
    /// The entry's offset in its unit.
    pub offset: usize,
    pub tag: u16,
    /// Whether the entry is declared to have children.
    pub has_children: bool,
    /// The attributes in the order in which they stand in the entry.
    pub attrs: Vec<Attr>,
    /// The children in their order, as positions in the unit's `entries`.
    pub children: Vec<usize>,
}

/// The entries of one compilation unit; the first is the unit's root.
#[derive(Debug)]
pub struct UnitImage {
    pub entries: Vec<Entry>,
}

/// The forms that a query for an attribute accepts.
#[derive(Debug, Clone, Copy, PartialEq, Eq, Structural)]
pub enum ValueKind {
    Any,
    Udata,
    Data1,
    Encoding,
    DebugStrRef,
}

/// Whether `v` is of a form that `kind` accepts.
pub open spec fn is_kind(v: AttrValue, kind: ValueKind) -> bool {
    match kind {
        ValueKind::Any => true,
        ValueKind::Udata => v is Udata,
        ValueKind::Data1 => v is Data1,
        ValueKind::Encoding => v is Encoding,
        ValueKind::DebugStrRef => v is DebugStrRef,
    }
}

/// The position of the last attribute called `name` whose value `kind`
/// accepts.
pub open spec fn last_attr(attrs: Seq<Attr>, name: u16, kind: ValueKind) -> Option<int>
    decreases attrs.len(),
{
    if attrs.len() == 0 {
        None
    } else if attrs[attrs.len() - 1].name == name && is_kind(attrs[attrs.len() - 1].value, kind) {
        Some(attrs.len() - 1)
    } else {
        last_attr(attrs.drop_last(), name, kind)
    }
}

/// Whether `v` is of a form that `kind` accepts.
pub fn value_is_kind(v: &AttrValue, kind: ValueKind) -> (r: bool)
    ensures
        r == is_kind(*v, kind),
{
    match kind {
        ValueKind::Any => true,
        ValueKind::Udata => match v {
            AttrValue::Udata(_) => true,
            _ => false,
        },
        ValueKind::Data1 => match v {
            AttrValue::Data1(_) => true,
            _ => false,
        },
        ValueKind::Encoding => match v {
            AttrValue::Encoding(_) => true,
            _ => false,
        },
        ValueKind::DebugStrRef => match v {
            AttrValue::DebugStrRef(_) => true,
            _ => false,
        },
    }
}

/// Finds the last attribute called `name` whose value `kind` accepts.
pub fn find_last_attr(attrs: &Vec<Attr>, name: u16, kind: ValueKind) -> (r: Option<usize>)
    ensures
        last_attr(attrs@, name, kind) == (match r {
            Some(i) => Some(i as int),
            None => None,
        }),
        r matches Some(i) ==> i < attrs@.len() && attrs@[i as int].name == name && is_kind(
            attrs@[i as int].value,
            kind,
        ),
{
    let mut i: usize = attrs.len();
    proof {
        assert(attrs@.take(i as int) =~= attrs@);
    }
    while i > 0
        invariant
            i <= attrs@.len(),
            last_attr(attrs@, name, kind) == last_attr(attrs@.take(i as int), name, kind),
        decreases i,
    {
        proof {
            assert(attrs@.take(i as int).drop_last() =~= attrs@.take(i - 1));
        }
        i -= 1;
        if attrs[i].name == name && value_is_kind(&attrs[i].value, kind) {
            return Some(i);
        }
    }
    None
}

/// The text of a string-valued attribute.
pub open spec fn text_of(v: AttrValue) -> Option<Seq<char>> {
    match v {
        AttrValue::DebugStrRef(s) => Some(s@),
        AttrValue::Inline(s) => Some(s@),
        _ => None,
    }
}

/// The name that the attributes give: the text of the last name attribute,
/// `<undefined>` where that attribute is no string, and nothing where there
/// is no name attribute.
pub open spec fn name_of(attrs: Seq<Attr>) -> Seq<char> {
    match last_attr(attrs, DW_AT_NAME, ValueKind::Any) {
        Some(i) => match text_of(attrs[i].value) {
            Some(s) => s,
            None => "<undefined>"@,
        },
        None => Seq::empty(),
    }
}

/// The name of a type: the text of the last name attribute, and
/// `<unnamed type>` where there is none or it is no string.
pub open spec fn type_name_of(attrs: Seq<Attr>) -> Seq<char> {
    match last_attr(attrs, DW_AT_NAME, ValueKind::Any) {
        Some(i) => match text_of(attrs[i].value) {
            Some(s) => s,
            None => "<unnamed type>"@,
        },
        None => "<unnamed type>"@,
    }
}

/// The last unsigned constant called `name`, where it fits a `usize`.
pub open spec fn size_attr(attrs: Seq<Attr>, name: u16) -> Option<usize> {
    match last_attr(attrs, name, ValueKind::Udata) {
        Some(i) => if attrs[i].value->Udata_0 <= usize::MAX {
            Some(attrs[i].value->Udata_0 as usize)
        } else {
            None
        },
        None => None,
    }
}

/// The entry that the last attribute called `name` refers to, as a position
/// in the unit.
pub open spec fn ref_attr(unit: Seq<Entry>, attrs: Seq<Attr>, name: u16) -> Option<int> {
    match last_attr(attrs, name, ValueKind::Any) {
        Some(i) => match attrs[i].value {
            AttrValue::UnitRef(offset) => position_of(unit, offset, 0),
            _ => None,
        },
        None => None,
    }
}

/// The position, from `k` on, of the first entry at `offset`.
pub open spec fn position_of(unit: Seq<Entry>, offset: usize, k: int) -> Option<int>
    decreases unit.len() - k,
{
    if k < 0 || k >= unit.len() {
        None
    } else if unit[k].offset == offset {
        Some(k)
    } else {
        position_of(unit, offset, k + 1)
    }
}

/// The text of a string-valued attribute.
pub fn value_text(v: &AttrValue) -> (r: Option<String>)
    ensures
        match text_of(*v) {
            Some(s) => r is Some && r->Some_0@ == s,
            None => r is None,
        },
{
    match v {
        AttrValue::DebugStrRef(s) => Some(s.clone()),
        AttrValue::Inline(s) => Some(s.clone()),
        _ => None,
    }
}

/// The name that the attributes give.
pub fn read_name(attrs: &Vec<Attr>) -> (r: String)
    ensures
        r@ == name_of(attrs@),
{
    match find_last_attr(attrs, DW_AT_NAME, ValueKind::Any) {
        Some(i) => match value_text(&attrs[i].value) {
            Some(s) => s,
            None => String::from_str("<undefined>"),
        },
        None => String::new(),
    }
}

/// The name of a type.
pub fn read_type_name(attrs: &Vec<Attr>) -> (r: String)
    ensures
        r@ == type_name_of(attrs@),
{
    match find_last_attr(attrs, DW_AT_NAME, ValueKind::Any) {
        Some(i) => match value_text(&attrs[i].value) {
            Some(s) => s,
            None => String::from_str("<unnamed type>"),
        },
        None => String::from_str("<unnamed type>"),
    }
}

/// The last unsigned constant called `name`, where it fits a `usize`.
pub fn read_size(attrs: &Vec<Attr>, name: u16) -> (r: Option<usize>)
    ensures
        r == size_attr(attrs@, name),
{
    match find_last_attr(attrs, name, ValueKind::Udata) {
        Some(i) => match &attrs[i].value {
            AttrValue::Udata(v) => if *v <= usize::MAX as u64 {
                Some(*v as usize)
            } else {
                None
            },
            _ => None,
        },
        None => None,
    }
}

impl UnitImage {
    /// Every child stands in the unit, after its parent.
    pub open spec fn wf(&self) -> bool {
        forall|i: int, j: int|
            0 <= i < self.entries@.len() && 0 <= j < self.entries@[i].children@.len() ==> i
                < #[trigger] self.entries@[i].children@[j] < self.entries@.len()
    }

    /// The position of the first entry at `offset`.
    pub fn find(&self, offset: usize) -> (r: Option<usize>)
        ensures
            position_of(self.entries@, offset, 0) == (match r {
                Some(i) => Some(i as int),
                None => None,
            }),
            r matches Some(i) ==> i < self.entries@.len(),
    {
        let mut k: usize = 0;
        while k < self.entries.len()
            invariant
                k <= self.entries@.len(),
                position_of(self.entries@, offset, 0) == position_of(
                    self.entries@,
                    offset,
                    k as int,
                ),
            decreases self.entries@.len() - k,
        {
            if self.entries[k].offset == offset {
                return Some(k);
            }
            k += 1;
        }
        None
    }

    /// The entry that the last attribute called `name` refers to.
    pub fn read_ref(&self, attrs: &Vec<Attr>, name: u16) -> (r: Option<usize>)
        ensures
            ref_attr(self.entries@, attrs@, name) == (match r {
                Some(i) => Some(i as int),
                None => None,
            }),
            r matches Some(i) ==> i < self.entries@.len(),
    {
        match find_last_attr(attrs, name, ValueKind::Any) {
            Some(i) => match &attrs[i].value {
                AttrValue::UnitRef(offset) => self.find(*offset),
                _ => None,
            },
            None => None,
        }
    }
}

} // verus!
