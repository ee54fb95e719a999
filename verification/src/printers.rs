//! The catalogue: descriptors by type name.

use crate::catalogue::CatalogueError;
use crate::catalogue::MAX_DEPTH;
use crate::catalogue::add_types;
use crate::catalogue::catalogue_of;
use crate::catalogue::put_type;
use crate::catalogue::type_position;
use crate::dwarf::DW_TAG_VARIABLE;
use crate::dwarf::UnitImage;
use crate::dwarf::name_of;
use crate::dwarf::read_name;
use crate::extract::walk_namespace;
use crate::printer::Piece;
use crate::printer::RenderError;
use crate::printer::Rendering;
use crate::printer::as_glyphs;
use crate::printer::flatten;
use crate::printer::put_all;
use crate::printer::put_text;
use crate::types::Type;
use crate::types::TypeKind;
use crate::types::TypeModel;
use crate::types::lemma_types_push;
use crate::types::names_model;
use crate::types::render;
use crate::types::types_model;
use vstd::prelude::*;

verus! {

/// What stands in the place of a value whose type the catalogue lacks.
pub open spec fn unknown_type_text() -> Seq<char> {
    "<unknown type>"@
}

/// The descriptors of a catalogue, one for each fully qualified type name.
#[derive(Debug)]
pub struct TypePrinters(pub Vec<Type>);

impl View for TypePrinters {
    type V = Seq<TypeModel>;

    open spec fn view(&self) -> Seq<TypeModel> {
        types_model(self.0@)
    }
}

/// The text for a value of the type whose fully qualified name is `name`:
/// the name on a line of
/// its own, then the rendering of the value, or a placeholder where the
/// catalogue has no such type.
pub open spec fn printed(types: Seq<TypeModel>, name: Seq<char>, buf: Seq<u8>) -> Result<
    Rendering,
    RenderError,
> {
    match type_position(types, name, 0) {
        Some(i) => match render(types[i], buf, 0) {
            Ok(text) => Ok(as_glyphs(name) + as_glyphs("\n"@) + text),
            Err(e) => Err(e),
        },
        None => Ok(as_glyphs(name) + as_glyphs("\n"@) + as_glyphs(unknown_type_text())),
    }
}

impl TypePrinters {
    /// A catalogue without types.
    pub fn new() -> (r: Self)
        ensures
            r@ == Seq::<TypeModel>::empty(),
    {
        let r = TypePrinters(Vec::new());
        assert(types_model(r.0@) =~= Seq::empty());
        r
    }

    /// The position of the descriptor whose fully qualified name is `name`.
    pub fn position(&self, name: &str) -> (r: Option<usize>)
        ensures
            type_position(self@, name@, 0) == (match r {
                Some(i) => Some(i as int),
                None => None,
            }),
            r matches Some(i) ==> i < self.0@.len() && self.0@[i as int]@.qualified_name()
                == name@,
    {
        let wanted = String::from_str(name);
        let mut i: usize = 0;
        while i < self.0.len()
            invariant
                i <= self.0@.len(),
                wanted@ == name@,
                type_position(self@, name@, 0) == type_position(self@, name@, i as int),
            decreases self.0@.len() - i,
        {
            assert(self@[i as int] == self.0@[i as int]@);
            if self.0[i].qualified_name() == wanted {
                return Some(i);
            }
            i += 1;
        }
        None
    }

    /// The descriptor whose fully qualified name is `name`.
    pub fn get(&self, name: &str) -> (r: Option<&Type>)
        ensures
            match type_position(self@, name@, 0) {
                Some(i) => r is Some && r->Some_0@ == self@[i],
                None => r is None,
            },
    {
        match self.position(name) {
            Some(i) => {
                assert(self@[i as int] == self.0@[i as int]@);
                Some(&self.0[i])
            },
            None => None,
        }
    }

    /// Puts `t` into the catalogue, in the place of the descriptor of the
    /// same name where there is one.
    pub fn insert(&mut self, t: Type)
        ensures
            final(self)@ == put_type(old(self)@, t@),
    {
        match self.position(t.qualified_name().as_str()) {
            Some(i) => {
                assert(types_model(self.0@.update(i as int, t)) =~= types_model(self.0@).update(
                    i as int,
                    t@,
                ));
                self.0.set(i, t);
            },
            None => {
                proof {
                    lemma_types_push(self.0@, t);
                }
                self.0.push(t);
            },
        }
    }

    /// Appends to `w` the name of the type and the rendering of the value
    /// whose byte image is `buffer`.
    pub fn print(&self, w: &mut Vec<Piece>, name: &str, buffer: &[u8]) -> (r: Result<
        (),
        RenderError,
    >)
        ensures
            match printed(self@, name@, buffer@) {
                Ok(text) => r is Ok && flatten(final(w)@) == flatten(old(w)@) + text,
                Err(e) => r == Err::<(), RenderError>(e) && final(w)@ == old(w)@,
            },
    {
        let mut out: Vec<Piece> = Vec::new();
        assert(flatten(out@) =~= Rendering::empty());
        put_text(&mut out, name);
        put_text(&mut out, "\n");
        match self.get(name) {
            Some(typ) => {
                match typ.write(&mut out, buffer) {
                    Ok(()) => {},
                    Err(e) => {
                        return Err(e);
                    },
                }
            },
            None => {
                put_text(&mut out, "<unknown type>");
            },
        }
        proof {
            let text = printed(self@, name@, buffer@)->Ok_0;
            assert(flatten(out@) =~= text);
        }
        put_all(w, out);
        Ok(())
    }
}

/// Builds the catalogue of the units: the descriptors of each unit's
/// structures, by name.
pub fn printers_of(units: &Vec<UnitImage>) -> (r: Result<TypePrinters, CatalogueError>)
    ensures
        match catalogue_of(units@, 0, Seq::empty()) {
            Ok(types) => r is Ok && r->Ok_0@ == types,
            Err(e) => r is Err && r->Err_0 == e,
        },
{
    // Where printers are stored
    let mut printers = TypePrinters::new();
    let ghost whole = catalogue_of(units@, 0, Seq::empty());
    let namespace: Vec<String> = Vec::new();
    assert(names_model(namespace@) =~= Seq::empty());
    let mut k: usize = 0;
    while k < units.len()
        invariant
            k <= units@.len(),
            names_model(namespace@) == Seq::<Seq<char>>::empty(),
            whole == catalogue_of(units@, 0, Seq::empty()),
            whole == catalogue_of(units@, k as nat, printers@),
        decreases units@.len() - k,
    {
        let mut types = match walk_namespace(&units[k], 0, &namespace, MAX_DEPTH) {
            Err(err) => {
                return Err(err);
            },
            Ok(types) => types,
        };
        let ghost target = add_types(printers@, types_model(types@));
        while types.len() > 0
            invariant
                target == add_types(printers@, types_model(types@)),
            decreases types@.len(),
        {
            let ghost before = types@;
            let t = types.remove(0);
            proof {
                assert(types_model(before)[0] == t@);
                assert(types_model(types@) =~= types_model(before).skip(1));
            }
            printers.insert(t);
        }
        k += 1;
    }
    Ok(printers)
}

/// A variable of the program.
#[derive(Debug)]
pub struct Variable {
    pub name: String,
    pub file: String,
    pub line: u64,
    pub value: u64,
    pub typ: Type,
}

/// The names of the variables among the children from position `k` on.
pub open spec fn variable_names(unit: Seq<crate::dwarf::Entry>, children: Seq<usize>, k: nat) -> Seq<
    Seq<char>,
>
    decreases children.len() - k,
{
    if k >= children.len() {
        Seq::empty()
    } else {
        let at = children[k as int] as int;
        let rest = variable_names(unit, children, k + 1);
        if 0 <= at < unit.len() && unit[at].tag == DW_TAG_VARIABLE {
            seq![name_of(unit[at].attrs@)] + rest
        } else {
            rest
        }
    }
}

/// Returns all the variables among the children of the entry at position
/// `at`: each by its name, with no file, no line and no type known.
pub fn get_variables(unit: &UnitImage, at: usize) -> (r: Vec<Variable>)
    requires
        at < unit.entries@.len(),
    ensures
        r@.len() == variable_names(unit.entries@, unit.entries@[at as int].children@, 0).len(),
        forall|i: int|
            0 <= i < r@.len() ==> {
                &&& (#[trigger] r@[i]).name@ == variable_names(
                    unit.entries@,
                    unit.entries@[at as int].children@,
                    0,
                )[i]
                &&& r@[i].file@.len() == 0
                &&& r@[i].line == u64::MAX
                &&& r@[i].value == 0
                &&& r@[i].typ@.kind is Unknown
            },
{
    let children = &unit.entries[at].children;
    let ghost whole = variable_names(unit.entries@, children@, 0);
    let mut variables: Vec<Variable> = Vec::new();
    let mut k: usize = 0;
    while k < children.len()
        invariant
            k <= children@.len(),
            whole == variable_names(unit.entries@, children@, 0),
            whole.len() == variables@.len() + variable_names(
                unit.entries@,
                children@,
                k as nat,
            ).len(),
            forall|i: int|
                0 <= i < variables@.len() ==> {
                    &&& (#[trigger] variables@[i]).name@ == whole[i]
                    &&& variables@[i].file@.len() == 0
                    &&& variables@[i].line == u64::MAX
                    &&& variables@[i].value == 0
                    &&& variables@[i].typ@.kind is Unknown
                },
            forall|j: int|
                0 <= j < variable_names(unit.entries@, children@, k as nat).len() ==> whole[
                variables@.len() + j] == #[trigger] variable_names(
                    unit.entries@,
                    children@,
                    k as nat,
                )[j],
        decreases children@.len() - k,
    {
        let current: usize = children[k];
        if current < unit.entries.len() && unit.entries[current].tag == DW_TAG_VARIABLE {
            let variable = Variable {
                name: read_name(&unit.entries[current].attrs),
                file: String::new(),
                line: u64::MAX,
                value: 0,
                typ: Type::new(TypeKind::Unknown, String::new(), Vec::new(), 0),
            };
            proof {
                let here = variable_names(unit.entries@, children@, k as nat);
                let next = variable_names(unit.entries@, children@, (k + 1) as nat);
                assert(here == seq![name_of(unit.entries@[current as int].attrs@)] + next);
                assert(here[0] == variable.name@);
                assert forall|j: int| 0 <= j < next.len() implies whole[variables@.len() + 1 + j]
                    == #[trigger] next[j] by {
                    assert(here[j + 1] == next[j]);
                }
            }
            variables.push(variable);
        }
        k += 1;
    }
    variables
}

} // verus!
