//! How the bytes of a scalar are turned into text.

use crate::text::decimal;
use crate::text::le_signed;
use crate::text::le_value;
use crate::text::lemma_le_value_bound;
use crate::text::lemma_pow256_values;
use crate::text::push_decimal;
use crate::text::read_le;
use crate::text::signed_decimal;
use std::ops::Range;
use vstd::prelude::*;
use vstd::slice::slice_subrange;

verus! {

/// The base in which an integer is written.
#[derive(Debug)]
pub enum BaseEncoding {
    Decimal,
    Hex,
    Octal,
    Binary,
}

/// Why a value could not be rendered.
#[derive(Debug, Clone, Copy, PartialEq, Eq, Structural)]
pub enum RenderError {
    /// A scalar's size is not the length of the bytes it was given.
    SizeMismatch,
    /// An integer of a size other than 1, 2, 4, 8 or 16 bytes.
    UnsupportedSize,
    /// A boolean that is neither 0 nor 1.
    NotABool,
    /// A descriptor reaches beyond the end of the buffer.
    OutOfBounds,
    /// No variant of a tagged union has the discriminant that was read.
    UnknownDiscriminant,
}

/// The kinds of scalar, with the size in bytes where it varies.
#[derive(Debug)]
pub enum BaseType {
    Unsigned(usize),
    Signed(usize),
    F32,
    F64,
    Bool,
    Char,
    /// A type without bytes, written as the text it carries.
    Zero(String),
    Unimplemented,
}

/// One part of a rendering. The digits of a floating-point number are not
/// worked out here: such a number is handed out as its bit pattern, for the
/// caller to format.
#[derive(Debug, Clone, PartialEq, Eq)]
pub enum Piece {
    /// Literal text.
    Text(String),
    /// A 32-bit floating-point number, by its bits.
    Float32(u32),
    /// A 64-bit floating-point number, by its bits.
    Float64(u64),
}

/// One position of a rendering: a character of the alphabet `C`, or a
/// floating-point number that stands in the text as a whole.
pub enum Glyph<C> {
    Char(C),
    Float32(u32),
    Float64(u64),
}

/// A rendering: glyphs over the characters of Rust strings.
pub type Rendering = Seq<Glyph<char>>;

/// Text as glyphs.
pub open spec fn as_glyphs(text: Seq<char>) -> Rendering
    decreases text.len(),
{
    if text.len() == 0 {
        Seq::empty()
    } else {
        as_glyphs(text.drop_last()).push(Glyph::Char(text[text.len() - 1]))
    }
}

impl Piece {
    /// The glyphs of one piece.
    pub open spec fn glyphs(self) -> Rendering {
        match self {
            Piece::Text(s) => as_glyphs(s@),
            Piece::Float32(bits) => seq![Glyph::Float32(bits)],
            Piece::Float64(bits) => seq![Glyph::Float64(bits)],
        }
    }
}

/// The glyphs of a sequence of pieces. How a text is cut into pieces does
/// not show in it.
pub open spec fn flatten(pieces: Seq<Piece>) -> Rendering
    decreases pieces.len(),
{
    if pieces.len() == 0 {
        Seq::empty()
    } else {
        pieces[0].glyphs() + flatten(pieces.skip(1))
    }
}

/// Glyphs of texts laid end to end.
pub proof fn lemma_glyphs_concat(a: Seq<char>, b: Seq<char>)
    ensures
        as_glyphs(a + b) == as_glyphs(a) + as_glyphs(b),
    decreases b.len(),
{
    if b.len() == 0 {
        assert(a + b =~= a);
        assert(as_glyphs(a) + as_glyphs(b) =~= as_glyphs(a));
    } else {
        lemma_glyphs_concat(a, b.drop_last());
        assert((a + b).drop_last() =~= a + b.drop_last());
        let g = Glyph::Char(b[b.len() - 1]);
        let front = as_glyphs(b.drop_last());
        assert((a + b)[(a + b).len() - 1] == b[b.len() - 1]);
        assert((as_glyphs(a) + front).push(g) =~= as_glyphs(a) + front.push(g));
    }
}

/// Glyphs of piece sequences laid end to end.
pub proof fn lemma_flatten_concat(a: Seq<Piece>, b: Seq<Piece>)
    ensures
        flatten(a + b) == flatten(a) + flatten(b),
    decreases a.len(),
{
    if a.len() == 0 {
        assert(a + b =~= b);
    } else {
        lemma_flatten_concat(a.skip(1), b);
        assert((a + b).skip(1) =~= a.skip(1) + b);
        assert(flatten(a + b) =~= flatten(a) + flatten(b));
    }
}

/// Glyphs after one more piece.
pub proof fn lemma_flatten_push(a: Seq<Piece>, p: Piece)
    ensures
        flatten(a.push(p)) == flatten(a) + p.glyphs(),
{
    lemma_flatten_concat(a, seq![p]);
    assert(a.push(p) =~= a + seq![p]);
    let rest = seq![p].skip(1);
    assert(rest =~= Seq::<Piece>::empty());
    assert(flatten(rest) =~= Rendering::empty());
    assert(flatten(seq![p]) =~= p.glyphs() + flatten(rest));
}

/// Appends `text` to the rendering.
pub fn put_text(w: &mut Vec<Piece>, text: &str)
    ensures
        flatten(final(w)@) == flatten(old(w)@) + as_glyphs(text@),
{
    let ghost before = w@;
    let owned = String::from_str(text);
    proof {
        lemma_flatten_push(before, Piece::Text(owned));
    }
    w.push(Piece::Text(owned));
}

/// Appends the pieces of `more` to the rendering.
pub fn put_all(w: &mut Vec<Piece>, more: Vec<Piece>)
    ensures
        flatten(final(w)@) == flatten(old(w)@) + flatten(more@),
{
    proof {
        lemma_flatten_concat(w@, more@);
    }
    let mut more = more;
    w.append(&mut more);
}

/// Whether integers of `size` bytes can be rendered.
pub open spec fn supported_size(size: nat) -> bool {
    size == 1 || size == 2 || size == 4 || size == 8 || size == 16
}

/// A kind of scalar as a mathematical value.
pub enum ScalarModel {
    Unsigned(nat),
    Signed(nat),
    F32,
    F64,
    Bool,
    Char,
    Zero(Seq<char>),
    Unimplemented,
}

impl View for BaseType {
    type V = ScalarModel;

    open spec fn view(&self) -> ScalarModel {
        match self {
            BaseType::Unsigned(size) => ScalarModel::Unsigned(*size as nat),
            BaseType::Signed(size) => ScalarModel::Signed(*size as nat),
            BaseType::F32 => ScalarModel::F32,
            BaseType::F64 => ScalarModel::F64,
            BaseType::Bool => ScalarModel::Bool,
            BaseType::Char => ScalarModel::Char,
            BaseType::Zero(s) => ScalarModel::Zero(s@),
            BaseType::Unimplemented => ScalarModel::Unimplemented,
        }
    }
}

impl ScalarModel {
    /// The text of the scalar whose byte image is `buf`, or the reason why
    /// there is none.
    pub open spec fn text(self, buf: Seq<u8>) -> Result<Rendering, RenderError> {
        match self {
            ScalarModel::Unsigned(size) => if size != buf.len() {
                Err(RenderError::SizeMismatch)
            } else if !supported_size(size) {
                Err(RenderError::UnsupportedSize)
            } else {
                Ok(as_glyphs(decimal(le_value(buf))))
            },
            ScalarModel::Signed(size) => if size != buf.len() {
                Err(RenderError::SizeMismatch)
            } else if !supported_size(size) {
                Err(RenderError::UnsupportedSize)
            } else {
                Ok(as_glyphs(signed_decimal(le_signed(buf))))
            },
            ScalarModel::F32 => if buf.len() != 4 {
                Err(RenderError::SizeMismatch)
            } else {
                Ok(seq![Glyph::Float32(le_value(buf) as u32)])
            },
            ScalarModel::F64 => if buf.len() != 8 {
                Err(RenderError::SizeMismatch)
            } else {
                Ok(seq![Glyph::Float64(le_value(buf) as u64)])
            },
            ScalarModel::Bool => if buf.len() != 1 {
                Err(RenderError::SizeMismatch)
            } else if buf[0] == 0 {
                Ok(as_glyphs("false"@))
            } else if buf[0] == 1 {
                Ok(as_glyphs("true"@))
            } else {
                Err(RenderError::NotABool)
            },
            ScalarModel::Char => if buf.len() != 1 {
                Err(RenderError::SizeMismatch)
            } else {
                Ok(as_glyphs(seq![buf[0] as char]))
            },
            ScalarModel::Zero(s) => Ok(as_glyphs(s)),
            ScalarModel::Unimplemented => Ok(as_glyphs("Unimplemented type"@)),
        }
    }

}

impl Clone for BaseType {
    fn clone(&self) -> (r: Self)
        ensures
            r@ == self@,
    {
        match self {
            BaseType::Unsigned(size) => BaseType::Unsigned(*size),
            BaseType::Signed(size) => BaseType::Signed(*size),
            BaseType::F32 => BaseType::F32,
            BaseType::F64 => BaseType::F64,
            BaseType::Bool => BaseType::Bool,
            BaseType::Char => BaseType::Char,
            BaseType::Zero(s) => BaseType::Zero(s.clone()),
            BaseType::Unimplemented => BaseType::Unimplemented,
        }
    }
}

impl BaseType {
    /// Print buffer as base-type
    pub fn write(&self, w: &mut Vec<Piece>, buf: &[u8]) -> (r: Result<(), RenderError>)
        ensures
            match self@.text(buf@) {
                Ok(t) => r is Ok && flatten(final(w)@) == flatten(old(w)@) + t,
                Err(e) => r == Err::<(), RenderError>(e) && final(w)@ == old(w)@,
            },
    {
        match self {
            BaseType::Unsigned(size) => {
                if *size != buf.len() {
                    return Err(RenderError::SizeMismatch);
                }
                if !is_supported_size(*size) {
                    return Err(RenderError::UnsupportedSize);
                }
                let mut digits = String::new();
                push_decimal(&mut digits, read_le(buf));
                assert(digits@ =~= decimal(le_value(buf@)));
                put_text(w, digits.as_str());
                Ok(())
            },
            BaseType::Signed(size) => {
                if *size != buf.len() {
                    return Err(RenderError::SizeMismatch);
                }
                if !is_supported_size(*size) {
                    return Err(RenderError::UnsupportedSize);
                }
                let raw: u128 = read_le(buf);
                proof {
                    lemma_pow256_values();
                    lemma_le_value_bound(buf@);
                }
                let half: u128 = if *size == 1 {
                    0x80
                } else if *size == 2 {
                    0x8000
                } else if *size == 4 {
                    0x8000_0000
                } else if *size == 8 {
                    0x8000_0000_0000_0000
                } else {
                    0x8000_0000_0000_0000_0000_0000_0000_0000
                };
                let mut digits = String::new();
                if raw >= half {
                    // The magnitude of a negative number is its distance from the modulus.
                    let magnitude: u128 = (half - 1 - (raw - half)) + 1;
                    digits.push('-');
                    push_decimal(&mut digits, magnitude);
                    assert(le_signed(buf@) == -(magnitude as int));
                    assert(digits@ =~= seq!['-'] + decimal(magnitude as nat));
                } else {
                    push_decimal(&mut digits, raw);
                    assert(digits@ =~= decimal(raw as nat));
                }
                put_text(w, digits.as_str());
                Ok(())
            },
            BaseType::F32 => {
                if buf.len() != 4 {
                    return Err(RenderError::SizeMismatch);
                }
                proof {
                    lemma_pow256_values();
                    lemma_le_value_bound(buf@);
                    lemma_flatten_push(w@, Piece::Float32(le_value(buf@) as u32));
                }
                w.push(Piece::Float32(read_le(buf) as u32));
                Ok(())
            },
            BaseType::F64 => {
                if buf.len() != 8 {
                    return Err(RenderError::SizeMismatch);
                }
                proof {
                    lemma_pow256_values();
                    lemma_le_value_bound(buf@);
                    lemma_flatten_push(w@, Piece::Float64(le_value(buf@) as u64));
                }
                w.push(Piece::Float64(read_le(buf) as u64));
                Ok(())
            },
            BaseType::Bool => {
                if buf.len() != 1 {
                    return Err(RenderError::SizeMismatch);
                }
                if buf[0] == 0 {
                    put_text(w, "false");
                    Ok(())
                } else if buf[0] == 1 {
                    put_text(w, "true");
                    Ok(())
                } else {
                    Err(RenderError::NotABool)
                }
            },
            BaseType::Char => {
                if buf.len() != 1 {
                    return Err(RenderError::SizeMismatch);
                }
                let mut one = String::new();
                one.push(buf[0] as char);
                assert(one@ =~= seq![buf@[0] as char]);
                put_text(w, one.as_str());
                Ok(())
            },
            BaseType::Zero(s) => {
                put_text(w, s.as_str());
                Ok(())
            },
            BaseType::Unimplemented => {
                put_text(w, "Unimplemented type");
                Ok(())
            },
        }
    }
}

/// Whether integers of `size` bytes can be rendered.
pub fn is_supported_size(size: usize) -> (r: bool)
    ensures
        r == supported_size(size as nat),
{
    size == 1 || size == 2 || size == 4 || size == 8 || size == 16
}

/// A scalar's printer and the bytes of its region that hold it.
#[derive(Debug)]
pub struct TypePrinter {
    /// Range in buffer where the type is located
    pub range: Range<usize>,
    /// Printer that will print the type
    pub printer: BaseType,
}

/// A scalar's printer as a mathematical value.
pub struct PrinterModel {
    /// Where the scalar's bytes start in its region.
    pub start: nat,
    /// Where they end.
    pub end: nat,
    /// The kind of scalar.
    pub printer: ScalarModel,
}

impl PrinterModel {
    /// The text of the scalar in `buf`, or the reason why there is none.
    pub open spec fn text(self, buf: Seq<u8>) -> Result<Rendering, RenderError> {
        if self.start <= self.end <= buf.len() {
            self.printer.text(buf.subrange(self.start as int, self.end as int))
        } else {
            Err(RenderError::OutOfBounds)
        }
    }
}

impl View for TypePrinter {
    type V = PrinterModel;

    open spec fn view(&self) -> PrinterModel {
        PrinterModel {
            start: self.range.start as nat,
            end: self.range.end as nat,
            printer: self.printer@,
        }
    }
}

impl Clone for TypePrinter {
    fn clone(&self) -> (r: Self)
        ensures
            r@ == self@,
    {
        TypePrinter { range: self.range.start..self.range.end, printer: self.printer.clone() }
    }
}

impl TypePrinter {
    /// A printer for the bytes in `range`.
    pub fn new(range: Range<usize>, printer: BaseType) -> (p: Self)
        ensures
            p.range == range,
            p.printer == printer,
    {
        TypePrinter { range, printer }
    }

    /// Appends the text of the scalar in `buf` to `w`.
    pub fn write(&self, w: &mut Vec<Piece>, buf: &[u8]) -> (r: Result<(), RenderError>)
        ensures
            match self@.text(buf@) {
                Ok(t) => r is Ok && flatten(final(w)@) == flatten(old(w)@) + t,
                Err(e) => r == Err::<(), RenderError>(e) && final(w)@ == old(w)@,
            },
    {
        if self.range.start > self.range.end || self.range.end > buf.len() {
            return Err(RenderError::OutOfBounds);
        }
        self.printer.write(w, slice_subrange(buf, self.range.start, self.range.end))
    }
}

} // verus!
