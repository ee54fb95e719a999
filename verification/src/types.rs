//! Type descriptors, and how a value of a described type is rendered from
//! its byte image.

use crate::printer::Piece;
use crate::printer::PrinterModel;
use crate::printer::RenderError;
use crate::printer::Rendering;
use crate::printer::TypePrinter;
use crate::printer::as_glyphs;
use crate::printer::flatten;
use crate::printer::put_all;
use crate::printer::put_text;
use vstd::prelude::*;

verus! {

/// A field of an aggregate, or a variant of a tagged union, by its name.
#[derive(Debug)]
pub struct Member {
    pub name: String,
    pub typ: Type,
}

/// An aggregate: fields with names, or fields by position.
#[derive(Debug)]
pub struct Struct {
    /// The named fields, in the order in which they were declared; no name
    /// occurs twice.
    pub named_children: Vec<Member>,
    pub indexed_children: Vec<Type>,
}

/// A tagged union.
#[derive(Debug)]
pub struct Enum {
    /// The variants by name; each carries its discriminant as its
    /// `variant_value`.
    pub variants: Vec<Member>,
    /// Where the discriminant byte lies in the union's byte image.
    pub discriminant_offset: usize,
}

/// A scalar, by its printer.
#[derive(Debug)]
pub struct Scalar {
    pub printer: TypePrinter,
}

/// What a descriptor describes.
#[derive(Debug)]
pub enum TypeKind {
    Struct(Struct),
    Enum(Enum),
    Scalar(Scalar),
    Pointer(Box<Type>),
    PlainVariant,
    Unknown,
}

/// A type descriptor.
#[derive(Debug)]
pub struct Type {
    /// Where the value starts in the byte image of what encloses it.
    pub offset: usize,
    pub kind: TypeKind,
    pub name: String,
    pub namespace: Vec<String>,
    /// The discriminant that selects this descriptor, where it stands for a
    /// variant of a tagged union.
    pub variant_value: usize,
}

/// A named member as a mathematical value.
pub struct MemberModel {
    pub name: Seq<char>,
    pub typ: TypeModel,
}

/// The kinds of descriptor as mathematical values.
pub enum KindModel {
    Struct { named: Seq<MemberModel>, indexed: Seq<TypeModel> },
    Enum { variants: Seq<MemberModel>, discriminant_offset: nat },
    Scalar(PrinterModel),
    Pointer(Box<TypeModel>),
    PlainVariant,
    Unknown,
}

/// A type descriptor as a mathematical value.
pub struct TypeModel {
    pub offset: nat,
    pub kind: KindModel,
    pub name: Seq<char>,
    pub namespace: Seq<Seq<char>>,
    pub variant_value: nat,
}

/// The names of a namespace path.
pub open spec fn names_model(names: Seq<String>) -> Seq<Seq<char>> {
    Seq::new(names.len(), |i: int| names[i]@)
}

/// The fully qualified name of a type called `name` in the namespace
/// `namespace`: the names of the path and the type's own, with `::`
/// between them.
pub open spec fn qualified(namespace: Seq<Seq<char>>, name: Seq<char>) -> Seq<char>
    decreases namespace.len(),
{
    if namespace.len() == 0 {
        name
    } else {
        namespace[0] + "::"@ + qualified(namespace.skip(1), name)
    }
}

impl TypeModel {
    /// The fully qualified name of the type.
    pub open spec fn qualified_name(self) -> Seq<char> {
        qualified(self.namespace, self.name)
    }
}

/// The mathematical value of a descriptor.
pub open spec fn type_model(t: Type) -> TypeModel
    decreases t,
{
    TypeModel {
        offset: t.offset as nat,
        kind: kind_model(t.kind),
        name: t.name@,
        namespace: names_model(t.namespace@),
        variant_value: t.variant_value as nat,
    }
}

/// The mathematical value of a descriptor's kind.
pub open spec fn kind_model(kind: TypeKind) -> KindModel
    decreases kind,
{
    match kind {
        TypeKind::Struct(s) => KindModel::Struct {
            named: members_model(s.named_children@),
            indexed: types_model(s.indexed_children@),
        },
        TypeKind::Enum(e) => KindModel::Enum {
            variants: members_model(e.variants@),
            discriminant_offset: e.discriminant_offset as nat,
        },
        TypeKind::Scalar(s) => KindModel::Scalar(s.printer@),
        TypeKind::Pointer(p) => KindModel::Pointer(Box::new(type_model(*p))),
        TypeKind::PlainVariant => KindModel::PlainVariant,
        TypeKind::Unknown => KindModel::Unknown,
    }
}

/// The mathematical values of a list of descriptors.
pub open spec fn types_model(types: Seq<Type>) -> Seq<TypeModel>
    decreases types,
{
    Seq::new(
        types.len(),
        |i: int|
            if 0 <= i < types.len() {
                type_model(types[i])
            } else {
                arbitrary()
            },
    )
}

/// The mathematical values of a list of members.
pub open spec fn members_model(members: Seq<Member>) -> Seq<MemberModel>
    decreases members,
{
    Seq::new(
        members.len(),
        |i: int|
            if 0 <= i < members.len() {
                MemberModel { name: members[i].name@, typ: type_model(members[i].typ) }
            } else {
                arbitrary()
            },
    )
}

impl View for Type {
    type V = TypeModel;

    open spec fn view(&self) -> TypeModel {
        type_model(*self)
    }
}

impl View for TypeKind {
    type V = KindModel;

    open spec fn view(&self) -> KindModel {
        kind_model(*self)
    }
}

impl View for Member {
    type V = MemberModel;

    open spec fn view(&self) -> MemberModel {
        MemberModel { name: self.name@, typ: type_model(self.typ) }
    }
}

/// The members after one more.
pub proof fn lemma_members_push(members: Seq<Member>, m: Member)
    ensures
        members_model(members.push(m)) == members_model(members).push(m@),
{
    assert(members_model(members.push(m)) =~= members_model(members).push(m@));
}

/// The members with one of them replaced.
pub proof fn lemma_members_update(members: Seq<Member>, i: int, m: Member)
    requires
        0 <= i < members.len(),
    ensures
        members_model(members.update(i, m)) == members_model(members).update(i, m@),
{
    assert(members_model(members.update(i, m)) =~= members_model(members).update(i, m@));
}

/// The items after one more.
pub proof fn lemma_types_push(types: Seq<Type>, t: Type)
    ensures
        types_model(types.push(t)) == types_model(types).push(t@),
{
    assert(types_model(types.push(t)) =~= types_model(types).push(t@));
}

/// The items with one more among them.
pub proof fn lemma_types_insert(types: Seq<Type>, i: int, t: Type)
    requires
        0 <= i <= types.len(),
    ensures
        types_model(types.insert(i, t)) == types_model(types).insert(i, t@),
{
    assert(types_model(types.insert(i, t)) =~= types_model(types).insert(i, t@));
}

/// The items of two lists laid end to end.
pub proof fn lemma_types_concat(a: Seq<Type>, b: Seq<Type>)
    ensures
        types_model(a + b) == types_model(a) + types_model(b),
{
    assert(types_model(a + b) =~= types_model(a) + types_model(b));
}

/// The index of the first variant from position `k` on that the
/// discriminant `d` selects.
pub open spec fn find_variant(variants: Seq<MemberModel>, d: nat, k: nat) -> Option<nat>
    decreases variants.len() - k,
{
    if k >= variants.len() {
        None
    } else if variants[k as int].typ.variant_value == d {
        Some(k)
    } else {
        find_variant(variants, d, k + 1)
    }
}

/// The separator after item `k` of `len`: a comma, but after the last.
pub open spec fn separator(k: nat, len: nat) -> Rendering {
    if k + 1 < len {
        as_glyphs(", "@)
    } else {
        Seq::empty()
    }
}

/// The rendering of the value of type `t` whose enclosing byte image starts
/// at `base` in `buf`, or the first reason, in reading order, why there is
/// none.
pub open spec fn render(t: TypeModel, buf: Seq<u8>, base: nat) -> Result<Rendering, RenderError>
    decreases t, 0nat,
{
    let at = base + t.offset;
    if at > buf.len() {
        Err(RenderError::OutOfBounds)
    } else {
        match t.kind {
            KindModel::Struct { named, indexed } => if indexed.len() > 0 {
                match render_items(indexed, 0, buf, at) {
                    Ok(inner) => Ok(
                        as_glyphs(t.name) + as_glyphs(": ( "@) + inner + as_glyphs(" )"@),
                    ),
                    Err(e) => Err(e),
                }
            } else if named.len() > 0 {
                match render_fields(named, 0, buf, at) {
                    Ok(inner) => Ok(
                        as_glyphs(t.name) + as_glyphs(": { "@) + inner + as_glyphs(" }"@),
                    ),
                    Err(e) => Err(e),
                }
            } else {
                Ok(Seq::empty())
            },
            KindModel::Enum { variants, discriminant_offset } => if at + discriminant_offset
                >= buf.len() {
                Err(RenderError::OutOfBounds)
            } else {
                match find_variant(variants, buf[(at + discriminant_offset) as int] as nat, 0) {
                    Some(i) => if i < variants.len() {
                        let v = variants[i as int];
                        if v.typ.kind is PlainVariant {
                            Ok(as_glyphs(t.name) + as_glyphs("::"@) + as_glyphs(v.name))
                        } else {
                            match render(v.typ, buf, at) {
                                Ok(inner) => Ok(
                                    as_glyphs(t.name) + as_glyphs("::"@) + as_glyphs(v.name)
                                        + as_glyphs(" { "@) + inner + as_glyphs(" }"@),
                                ),
                                Err(e) => Err(e),
                            }
                        }
                    } else {
                        Err(RenderError::UnknownDiscriminant)
                    },
                    None => Err(RenderError::UnknownDiscriminant),
                }
            },
            KindModel::Scalar(p) => p.text(buf.skip(at as int)),
            KindModel::Pointer(p) => match render(*p, buf, base) {
                Ok(inner) => Ok(as_glyphs("*"@) + inner),
                Err(e) => Err(e),
            },
            KindModel::PlainVariant => Ok(as_glyphs(t.name)),
            KindModel::Unknown => Ok(as_glyphs("Unimplemented type"@)),
        }
    }
}

/// The renderings of the items from position `k` on, with commas between
/// them.
pub open spec fn render_items(items: Seq<TypeModel>, k: nat, buf: Seq<u8>, at: nat) -> Result<
    Rendering,
    RenderError,
>
    decreases items, items.len() - k,
{
    if k >= items.len() {
        Ok(Seq::empty())
    } else {
        match render(items[k as int], buf, at) {
            Err(e) => Err(e),
            Ok(v) => match render_items(items, k + 1, buf, at) {
                Err(e) => Err(e),
                Ok(rest) => Ok(v + separator(k, items.len()) + rest),
            },
        }
    }
}

/// The renderings of the fields from position `k` on, each after its name,
/// with commas between them.
pub open spec fn render_fields(fields: Seq<MemberModel>, k: nat, buf: Seq<u8>, at: nat) -> Result<
    Rendering,
    RenderError,
>
    decreases fields, fields.len() - k,
{
    if k >= fields.len() {
        Ok(Seq::empty())
    } else {
        match render(fields[k as int].typ, buf, at) {
            Err(e) => Err(e),
            Ok(v) => match render_fields(fields, k + 1, buf, at) {
                Err(e) => Err(e),
                Ok(rest) => Ok(
                    as_glyphs(fields[k as int].name) + as_glyphs(": "@) + v + separator(
                        k,
                        fields.len(),
                    ) + rest,
                ),
            },
        }
    }
}

/// Whether `got` is what rendering should have given: the same glyphs,
/// cut into pieces in some way, or the same error.
pub open spec fn rendered(
    want: Result<Rendering, RenderError>,
    got: Result<Vec<Piece>, RenderError>,
) -> bool {
    match want {
        Ok(t) => got is Ok && flatten(got->Ok_0@) == t,
        Err(e) => got == Err::<Vec<Piece>, RenderError>(e),
    }
}

/// What a call of [`Type::write`] leaves behind: on success the rendering
/// after what `w` held before, on failure `w` as it was and the error.
pub open spec fn written(
    t: TypeModel,
    buf: Seq<u8>,
    before: Seq<Piece>,
    after: Seq<Piece>,
    r: Result<(), RenderError>,
) -> bool {
    match render(t, buf, 0) {
        Ok(text) => r is Ok && flatten(after) == flatten(before) + text,
        Err(e) => r == Err::<(), RenderError>(e) && after == before,
    }
}

/// Rendering the same descriptor against the same buffer twice, after the
/// same output, gives the same glyphs and the same result both times.
pub proof fn law_rendering_is_repeatable(
    t: TypeModel,
    buf: Seq<u8>,
    before: Seq<Piece>,
    first: Seq<Piece>,
    r1: Result<(), RenderError>,
    second: Seq<Piece>,
    r2: Result<(), RenderError>,
)
    requires
        written(t, buf, before, first, r1),
        written(t, buf, before, second, r2),
    ensures
        flatten(first) == flatten(second),
        r1 == r2,
{
    if render(t, buf, 0) is Ok {
        assert(r1->Ok_0 == r2->Ok_0);
    }
}

impl Type {
    /// A descriptor that no discriminant selects yet.
    pub fn new(kind: TypeKind, name: String, namespace: Vec<String>, offset: usize) -> (t: Self)
        ensures
            t == (Type { offset, kind, name, namespace, variant_value: 0 }),
    {
        Self { kind, name, namespace, offset, variant_value: 0 }
    }

    /// The type's own name, without its namespace.
    pub fn name(&self) -> (s: &str)
        ensures
            s@ == self@.name,
    {
        self.name.as_str()
    }

    /// The fully qualified name of the type: its namespace path and its
    /// own name, with `::` between them.
    pub fn qualified_name(&self) -> (r: String)
        ensures
            r@ == self@.qualified_name(),
    {
        let mut r = String::new();
        let mut i: usize = 0;
        let ghost path = self@.namespace;
        proof {
            assert(path.skip(0) =~= path);
            assert(r@ + qualified(path, self@.name) =~= qualified(path, self@.name));
        }
        while i < self.namespace.len()
            invariant
                i <= self.namespace@.len(),
                path == names_model(self.namespace@),
                qualified(path, self@.name) == r@ + qualified(path.skip(i as int), self@.name),
            decreases self.namespace@.len() - i,
        {
            let ghost before = r@;
            let ghost rest = qualified(path.skip(i + 1), self@.name);
            r.append(self.namespace[i].as_str());
            r.append("::");
            proof {
                assert(path.skip(i as int).skip(1) =~= path.skip(i + 1));
                assert(path.skip(i as int)[0] == self.namespace@[i as int]@);
                assert(r@ + rest =~= before + (path.skip(i as int)[0] + "::"@ + rest));
            }
            i += 1;
        }
        r.append(self.name.as_str());
        r
    }

    /// Appends the rendering of the value whose byte image is `buf` to `w`.
    pub fn write(&self, w: &mut Vec<Piece>, buf: &[u8]) -> (r: Result<(), RenderError>)
        ensures
            written(self@, buf@, old(w)@, final(w)@, r),
    {
        match self.write_internal(0, buf) {
            Ok(pieces) => {
                put_all(w, pieces);
                Ok(())
            },
            Err(e) => Err(e),
        }
    }

    fn write_internal(&self, base: usize, buf: &[u8]) -> (r: Result<Vec<Piece>, RenderError>)
        requires
            base <= buf@.len(),
        ensures
            rendered(render(self@, buf@, base as nat), r),
        decreases self,
    {
        let len: usize = buf.len();
        if self.offset > len - base {
            return Err(RenderError::OutOfBounds);
        }
        let at: usize = base + self.offset;
        let mut out: Vec<Piece> = Vec::new();
        assert(flatten(out@) =~= Rendering::empty());
        match &self.kind {
            TypeKind::Struct(s) => {
                if s.indexed_children.len() > 0 {
                    match write_items(&s.indexed_children, at, buf) {
                        Err(e) => {
                            Err(e)
                        },
                        Ok(inner) => {
                            put_text(&mut out, self.name.as_str());
                            put_text(&mut out, ": ( ");
                            put_all(&mut out, inner);
                            put_text(&mut out, " )");
                            assert(flatten(out@) =~= as_glyphs(self@.name) + as_glyphs(": ( "@)
                                + flatten(inner@) + as_glyphs(" )"@));
                            Ok(out)
                        },
                    }
                } else if s.named_children.len() > 0 {
                    match write_fields(&s.named_children, at, buf) {
                        Err(e) => {
                            Err(e)
                        },
                        Ok(inner) => {
                            put_text(&mut out, self.name.as_str());
                            put_text(&mut out, ": { ");
                            put_all(&mut out, inner);
                            put_text(&mut out, " }");
                            assert(flatten(out@) =~= as_glyphs(self@.name) + as_glyphs(": { "@)
                                + flatten(inner@) + as_glyphs(" }"@));
                            Ok(out)
                        },
                    }
                } else {
                    Ok(out)
                }
            },
            TypeKind::Enum(e) => {
                if e.discriminant_offset >= len - at {
                    return Err(RenderError::OutOfBounds);
                }
                let d: usize = buf[at + e.discriminant_offset] as usize;
                match pick_variant(&e.variants, d) {
                    None => {
                        Err(RenderError::UnknownDiscriminant)
                    },
                    Some(i) => {
                        let v = &e.variants[i];
                        let ghost model = members_model(e.variants@)[i as int];
                        assert(model.typ == type_model(v.typ) && model.name == v.name@);
                        put_text(&mut out, self.name.as_str());
                        put_text(&mut out, "::");
                        put_text(&mut out, v.name.as_str());
                        let ghost head = as_glyphs(self@.name) + as_glyphs("::"@) + as_glyphs(
                            model.name,
                        );
                        assert(flatten(out@) =~= head);
                        match &v.typ.kind {
                            TypeKind::PlainVariant => {
                                assert(model.typ.kind is PlainVariant);
                                Ok(out)
                            },
                            _ => {
                                assert(!(model.typ.kind is PlainVariant));
                                match v.typ.write_internal(at, buf) {
                                    Err(e) => {
                                        Err(e)
                                    },
                                    Ok(sub) => {
                                        put_text(&mut out, " { ");
                                        put_all(&mut out, sub);
                                        put_text(&mut out, " }");
                                        assert(flatten(out@) =~= head + as_glyphs(" { "@)
                                            + flatten(sub@) + as_glyphs(" }"@));
                                        Ok(out)
                                    },
                                }
                            },
                        }
                    },
                }
            },
            TypeKind::Scalar(s) => {
                assert(buf@.skip(at as int) =~= buf@.subrange(at as int, len as int));
                match s.printer.write(&mut out, vstd::slice::slice_subrange(buf, at, len)) {
                    Ok(()) => {
                        assert(Rendering::empty() + flatten(out@) =~= flatten(out@));
                        Ok(out)
                    },
                    Err(e) => {
                        Err(e)
                    },
                }
            },
            TypeKind::Pointer(p) => {
                match p.write_internal(base, buf) {
                    Err(e) => {
                        Err(e)
                    },
                    Ok(sub) => {
                        put_text(&mut out, "*");
                        put_all(&mut out, sub);
                        assert(flatten(out@) =~= as_glyphs("*"@) + flatten(sub@));
                        Ok(out)
                    },
                }
            },
            TypeKind::PlainVariant => {
                put_text(&mut out, self.name.as_str());
                assert(flatten(out@) =~= as_glyphs(self@.name));
                Ok(out)
            },
            TypeKind::Unknown => {
                put_text(&mut out, "Unimplemented type");
                assert(flatten(out@) =~= as_glyphs("Unimplemented type"@));
                Ok(out)
            },
        }
    }
}

/// The index of the first variant that the discriminant `d` selects.
fn pick_variant(variants: &Vec<Member>, d: usize) -> (r: Option<usize>)
    ensures
        find_variant(members_model(variants@), d as nat, 0) == (match r {
            Some(i) => Some(i as nat),
            None => None,
        }),
        r matches Some(i) ==> i < variants@.len(),
{
    let n: usize = variants.len();
    let ghost models = members_model(variants@);
    let mut i: usize = 0;
    while i < n
        invariant
            i <= n == variants@.len(),
            models == members_model(variants@),
            find_variant(models, d as nat, 0) == find_variant(models, d as nat, i as nat),
        decreases n - i,
    {
        assert(models[i as int].typ == type_model(variants@[i as int].typ));
        if variants[i].typ.variant_value == d {
            return Some(i);
        }
        i += 1;
    }
    None
}

/// Renders the items one after the other, with commas between them.
#[verifier::loop_isolation(false)]
fn write_items(items: &Vec<Type>, at: usize, buf: &[u8]) -> (r: Result<Vec<Piece>, RenderError>)
    requires
        at <= buf@.len(),
    ensures
        rendered(render_items(types_model(items@), 0, buf@, at as nat), r),
    decreases items,
{
    let n: usize = items.len();
    let ghost models = types_model(items@);
    let ghost whole = render_items(models, 0, buf@, at as nat);
    let mut inner: Vec<Piece> = Vec::new();
    let mut k: usize = 0;
    assert(flatten(inner@) =~= Rendering::empty());
    assert(Rendering::empty() + whole->Ok_0 =~= whole->Ok_0);
    while k < n
        invariant
            k <= n == models.len(),
            match render_items(models, k as nat, buf@, at as nat) {
                Ok(rest) => whole == Ok::<Rendering, RenderError>(flatten(inner@) + rest),
                Err(e) => whole == Err::<Rendering, RenderError>(e),
            },
        decreases n - k,
    {
        let ghost before = flatten(inner@);
        assert(models[k as int] == type_model(items@[k as int]));
        match items[k].write_internal(at, buf) {
            Err(e) => {
                return Err(e);
            },
            Ok(sub) => {
                put_all(&mut inner, sub);
                if k + 1 < n {
                    put_text(&mut inner, ", ");
                }
                proof {
                    let v = render(models[k as int], buf@, at as nat)->Ok_0;
                    let next = render_items(models, (k + 1) as nat, buf@, at as nat);
                    if next is Ok {
                        assert(flatten(inner@) + next->Ok_0 =~= before + (v + separator(
                            k as nat,
                            n as nat,
                        ) + next->Ok_0));
                    }
                }
            },
        }
        k += 1;
    }
    assert(flatten(inner@) + Rendering::empty() =~= flatten(inner@));
    Ok(inner)
}

/// Renders the fields one after the other, each after its name, with commas
/// between them.
#[verifier::loop_isolation(false)]
fn write_fields(fields: &Vec<Member>, at: usize, buf: &[u8]) -> (r: Result<
    Vec<Piece>,
    RenderError,
>)
    requires
        at <= buf@.len(),
    ensures
        rendered(render_fields(members_model(fields@), 0, buf@, at as nat), r),
    decreases fields,
{
    let n: usize = fields.len();
    let ghost models = members_model(fields@);
    let ghost whole = render_fields(models, 0, buf@, at as nat);
    let mut inner: Vec<Piece> = Vec::new();
    let mut k: usize = 0;
    assert(flatten(inner@) =~= Rendering::empty());
    assert(Rendering::empty() + whole->Ok_0 =~= whole->Ok_0);
    while k < n
        invariant
            k <= n == models.len(),
            match render_fields(models, k as nat, buf@, at as nat) {
                Ok(rest) => whole == Ok::<Rendering, RenderError>(flatten(inner@) + rest),
                Err(e) => whole == Err::<Rendering, RenderError>(e),
            },
        decreases n - k,
    {
        let ghost before = flatten(inner@);
        assert(models[k as int].typ == type_model(fields@[k as int].typ));
        match fields[k].typ.write_internal(at, buf) {
            Err(e) => {
                return Err(e);
            },
            Ok(sub) => {
                put_text(&mut inner, fields[k].name.as_str());
                put_text(&mut inner, ": ");
                put_all(&mut inner, sub);
                if k + 1 < n {
                    put_text(&mut inner, ", ");
                }
                proof {
                    let v = render(models[k as int].typ, buf@, at as nat)->Ok_0;
                    let next = render_fields(models, (k + 1) as nat, buf@, at as nat);
                    if next is Ok {
                        assert(flatten(inner@) + next->Ok_0 =~= before + (as_glyphs(
                            models[k as int].name,
                        ) + as_glyphs(": "@) + v + separator(k as nat, n as nat) + next->Ok_0));
                    }
                }
            },
        }
        k += 1;
    }
    assert(flatten(inner@) + Rendering::empty() =~= flatten(inner@));
    Ok(inner)
}

/// A copy of a namespace path.
pub fn clone_names(ns: &Vec<String>) -> (r: Vec<String>)
    ensures
        names_model(r@) == names_model(ns@),
{
    let mut r: Vec<String> = Vec::new();
    let mut i: usize = 0;
    while i < ns.len()
        invariant
            i <= ns@.len(),
            r@.len() == i,
            forall|j: int| 0 <= j < i ==> r@[j]@ == ns@[j]@,
        decreases ns@.len() - i,
    {
        r.push(ns[i].clone());
        i += 1;
    }
    assert(names_model(r@) =~= names_model(ns@));
    r
}

/// A copy of a descriptor.
pub fn copy_type(t: &Type) -> (r: Type)
    ensures
        r@ == t@,
    decreases t,
{
    Type {
        offset: t.offset,
        kind: copy_kind(&t.kind),
        name: t.name.clone(),
        namespace: clone_names(&t.namespace),
        variant_value: t.variant_value,
    }
}

/// A copy of a descriptor's kind.
pub fn copy_kind(kind: &TypeKind) -> (r: TypeKind)
    ensures
        r@ == kind@,
    decreases kind,
{
    match kind {
        TypeKind::Struct(s) => TypeKind::Struct(
            Struct {
                named_children: copy_members(&s.named_children),
                indexed_children: copy_types(&s.indexed_children),
            },
        ),
        TypeKind::Enum(e) => TypeKind::Enum(
            Enum {
                variants: copy_members(&e.variants),
                discriminant_offset: e.discriminant_offset,
            },
        ),
        TypeKind::Scalar(s) => TypeKind::Scalar(Scalar { printer: s.printer.clone() }),
        TypeKind::Pointer(p) => TypeKind::Pointer(Box::new(copy_type(p))),
        TypeKind::PlainVariant => TypeKind::PlainVariant,
        TypeKind::Unknown => TypeKind::Unknown,
    }
}

/// A copy of a list of descriptors.
pub fn copy_types(types: &Vec<Type>) -> (r: Vec<Type>)
    ensures
        types_model(r@) == types_model(types@),
    decreases types,
{
    let mut r: Vec<Type> = Vec::new();
    let mut i: usize = 0;
    while i < types.len()
        invariant
            i <= types@.len(),
            r@.len() == i,
            forall|j: int| 0 <= j < i ==> r@[j]@ == types@[j]@,
        decreases types@.len() - i,
    {
        r.push(copy_type(&types[i]));
        i += 1;
    }
    assert(types_model(r@) =~= types_model(types@));
    r
}

/// A copy of a list of members.
pub fn copy_members(members: &Vec<Member>) -> (r: Vec<Member>)
    ensures
        members_model(r@) == members_model(members@),
    decreases members,
{
    let mut r: Vec<Member> = Vec::new();
    let mut i: usize = 0;
    while i < members.len()
        invariant
            i <= members@.len(),
            r@.len() == i,
            forall|j: int| 0 <= j < i ==> r@[j]@ == members@[j]@,
        decreases members@.len() - i,
    {
        r.push(Member { name: members[i].name.clone(), typ: copy_type(&members[i].typ) });
        i += 1;
    }
    assert(members_model(r@) =~= members_model(members@));
    r
}

impl Clone for Type {
    fn clone(&self) -> (r: Self)
        ensures
            r@ == self@,
    {
        copy_type(self)
    }
}

impl Clone for TypeKind {
    fn clone(&self) -> (r: Self)
        ensures
            r@ == self@,
    {
        copy_kind(self)
    }
}

impl Clone for Member {
    fn clone(&self) -> (r: Self)
        ensures
            r@ == self@,
    {
        Member { name: self.name.clone(), typ: copy_type(&self.typ) }
    }
}

impl Clone for Struct {
    fn clone(&self) -> (r: Self)
        ensures
            members_model(r.named_children@) == members_model(self.named_children@),
            types_model(r.indexed_children@) == types_model(self.indexed_children@),
    {
        Struct {
            named_children: copy_members(&self.named_children),
            indexed_children: copy_types(&self.indexed_children),
        }
    }
}

impl Clone for Enum {
    fn clone(&self) -> (r: Self)
        ensures
            members_model(r.variants@) == members_model(self.variants@),
            r.discriminant_offset == self.discriminant_offset,
    {
        Enum {
            variants: copy_members(&self.variants),
            discriminant_offset: self.discriminant_offset,
        }
    }
}

impl Clone for Scalar {
    fn clone(&self) -> (r: Self)
        ensures
            r.printer@ == self.printer@,
    {
        Scalar { printer: self.printer.clone() }
    }
}

} // verus!
