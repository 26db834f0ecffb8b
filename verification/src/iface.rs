//! The interface schema: an immutable description of one asset standard's
//! global state, transferable value slots and legal operations, with
//! well-formedness and closure invariants.

use vstd::prelude::*;
use crate::ident::{ascii_text, lex_lt};
use crate::occurrence::Occurrence;

verus! {

/// Reference to a named semantic value type in the type registry snapshot.
#[derive(Clone, Copy, PartialEq, Eq, Structural, Debug)]
pub struct TypeId(pub u64);

/// Schema format version.
#[derive(Clone, Copy, PartialEq, Eq, Structural, Debug)]
pub enum VerNo {
    V1,
}

/// Kind of state a transferable slot carries.
#[derive(Clone, Copy, PartialEq, Eq, Structural, Debug)]
pub enum OwnedIface {
    Rights,
    Amount,
}

/// Multiplicity requirement on a declared assignment slot.
#[derive(Clone, Copy, PartialEq, Eq, Structural, Debug)]
pub enum Req {
    Optional,
    Required,
    OneOrMore,
    NoneOrMore,
}

/// Declaration of one global-state field: its semantic type and how many
/// values may be bound to it.
#[derive(Clone, Copy, PartialEq, Eq, Structural, Debug)]
pub struct GlobalIface {
    pub sem_id: TypeId,
    pub occ: Occurrence,
}

impl GlobalIface {
    /// A field bound to exactly one value.
    pub fn required(sem_id: TypeId) -> (r: GlobalIface)
        ensures
            r == (GlobalIface { sem_id, occ: Occurrence::Once }),
    {
        GlobalIface { sem_id, occ: Occurrence::Once }
    }

    /// A field bound to at most one value.
    pub fn optional(sem_id: TypeId) -> (r: GlobalIface)
        ensures
            r == (GlobalIface { sem_id, occ: Occurrence::ZeroOrOne }),
    {
        GlobalIface { sem_id, occ: Occurrence::ZeroOrOne }
    }

    /// A field bound to any number of values.
    pub fn none_or_many(sem_id: TypeId) -> (r: GlobalIface)
        ensures
            r == (GlobalIface { sem_id, occ: Occurrence::ZeroOrMore }),
    {
        GlobalIface { sem_id, occ: Occurrence::ZeroOrMore }
    }
}

/// Declaration of one assignment slot: visibility, kind of owned state, and
/// multiplicity requirement.
#[derive(Clone, Copy, PartialEq, Eq, Structural, Debug)]
pub struct AssignIface {
    pub owned_state: OwnedIface,
    pub public: bool,
    pub req: Req,
}

impl AssignIface {
    /// A publicly visible slot.
    pub fn public(owned_state: OwnedIface, req: Req) -> (r: AssignIface)
        ensures
            r == (AssignIface { owned_state, public: true, req }),
    {
        AssignIface { owned_state, public: true, req }
    }

    /// A concealed slot.
    pub fn private(owned_state: OwnedIface, req: Req) -> (r: AssignIface)
        ensures
            r == (AssignIface { owned_state, public: false, req }),
    {
        AssignIface { owned_state, public: false, req }
    }
}

/// Key of the schema-wide error map: a stable numeric code with its symbolic
/// name.
#[derive(Clone, PartialEq, Eq, Debug)]
pub struct Variant {
    pub code: u8,
    pub name: Vec<u8>,
}

impl Variant {
    /// Pairs a numeric error code with its symbolic name.
    pub fn named(code: u8, name: Vec<u8>) -> (r: Variant)
        ensures
            r.code == code,
            r.name == name,
    {
        Variant { code, name }
    }
}

/// Mathematical value of one error-map entry.
#[verifier::ext_equal]
pub ghost struct ErrorV {
    pub code: u8,
    pub name: Seq<u8>,
    pub description: Seq<u8>,
}

/// Schema of a contract's issuance operation.
#[derive(Clone, PartialEq, Eq, Debug)]
pub struct GenesisIface {
    pub metadata: Option<TypeId>,
    pub globals: Vec<(Vec<u8>, Occurrence)>,
    pub assignments: Vec<(Vec<u8>, Occurrence)>,
    pub valencies: Vec<Vec<u8>>,
    pub errors: Vec<u8>,
}

/// Mathematical value of a genesis schema.
#[verifier::ext_equal]
pub ghost struct GenesisV {
    pub metadata: Option<TypeId>,
    pub globals: Seq<(Seq<u8>, Occurrence)>,
    pub assignments: Seq<(Seq<u8>, Occurrence)>,
    pub valencies: Seq<Seq<u8>>,
    pub errors: Seq<u8>,
}

/// Schema of a state-changing operation.
#[derive(Clone, PartialEq, Eq, Debug)]
pub struct TransitionIface {
    pub optional: bool,
    pub metadata: Option<TypeId>,
    pub globals: Vec<(Vec<u8>, Occurrence)>,
    pub inputs: Vec<(Vec<u8>, Occurrence)>,
    pub assignments: Vec<(Vec<u8>, Occurrence)>,
    pub valencies: Vec<Vec<u8>>,
    pub errors: Vec<u8>,
    pub default_assignment: Option<Vec<u8>>,
}

/// Mathematical value of a transition schema.
#[verifier::ext_equal]
pub ghost struct TransitionV {
    pub optional: bool,
    pub metadata: Option<TypeId>,
    pub globals: Seq<(Seq<u8>, Occurrence)>,
    pub inputs: Seq<(Seq<u8>, Occurrence)>,
    pub assignments: Seq<(Seq<u8>, Occurrence)>,
    pub valencies: Seq<Seq<u8>>,
    pub errors: Seq<u8>,
    pub default_assignment: Option<Seq<u8>>,
}

/// One asset standard, declared as data. All maps are held sorted by key so
/// that the value, and hence its canonical encoding and identity, is a pure
/// function of the declared contents.
#[derive(Clone, PartialEq, Eq, Debug)]
pub struct Iface {
    pub version: VerNo,
    pub name: Vec<u8>,
    pub global_state: Vec<(Vec<u8>, GlobalIface)>,
    pub assignments: Vec<(Vec<u8>, AssignIface)>,
    pub valencies: Vec<Vec<u8>>,
    pub genesis: GenesisIface,
    pub transitions: Vec<(Vec<u8>, TransitionIface)>,
    pub extensions: Vec<(Vec<u8>, TransitionIface)>,
    pub errors: Vec<(Variant, Vec<u8>)>,
    pub default_operation: Option<Vec<u8>>,
    pub types_id: u64,
}

/// Mathematical value of a schema.
#[verifier::ext_equal]
pub ghost struct IfaceV {
    pub version: VerNo,
    pub name: Seq<u8>,
    pub global_state: Seq<(Seq<u8>, GlobalIface)>,
    pub assignments: Seq<(Seq<u8>, AssignIface)>,
    pub valencies: Seq<Seq<u8>>,
    pub genesis: GenesisV,
    pub transitions: Seq<(Seq<u8>, TransitionV)>,
    pub extensions: Seq<(Seq<u8>, TransitionV)>,
    pub errors: Seq<ErrorV>,
    pub default_operation: Option<Seq<u8>>,
    pub types_id: u64,
}

pub open spec fn view_occ_map(s: Seq<(Vec<u8>, Occurrence)>) -> Seq<(Seq<u8>, Occurrence)> {
    s.map_values(|p: (Vec<u8>, Occurrence)| (p.0@, p.1))
}

pub open spec fn view_names(s: Seq<Vec<u8>>) -> Seq<Seq<u8>> {
    s.map_values(|v: Vec<u8>| v@)
}

pub open spec fn view_opt_name(o: Option<Vec<u8>>) -> Option<Seq<u8>> {
    match o {
        Some(v) => Some(v@),
        None => None,
    }
}

impl View for GenesisIface {
    type V = GenesisV;

    open spec fn view(&self) -> GenesisV {
        GenesisV {
            metadata: self.metadata,
            globals: view_occ_map(self.globals@),
            assignments: view_occ_map(self.assignments@),
            valencies: view_names(self.valencies@),
            errors: self.errors@,
        }
    }
}

impl View for TransitionIface {
    type V = TransitionV;

    open spec fn view(&self) -> TransitionV {
        TransitionV {
            optional: self.optional,
            metadata: self.metadata,
            globals: view_occ_map(self.globals@),
            inputs: view_occ_map(self.inputs@),
            assignments: view_occ_map(self.assignments@),
            valencies: view_names(self.valencies@),
            errors: self.errors@,
            default_assignment: view_opt_name(self.default_assignment),
        }
    }
}

impl View for Iface {
    type V = IfaceV;

    open spec fn view(&self) -> IfaceV {
        IfaceV {
            version: self.version,
            name: self.name@,
            global_state: self.global_state@.map_values(
                |p: (Vec<u8>, GlobalIface)| (p.0@, p.1),
            ),
            assignments: self.assignments@.map_values(|p: (Vec<u8>, AssignIface)| (p.0@, p.1)),
            valencies: view_names(self.valencies@),
            genesis: self.genesis@,
            transitions: self.transitions@.map_values(
                |p: (Vec<u8>, TransitionIface)| (p.0@, p.1@),
            ),
            extensions: self.extensions@.map_values(
                |p: (Vec<u8>, TransitionIface)| (p.0@, p.1@),
            ),
            errors: self.errors@.map_values(
                |p: (Variant, Vec<u8>)| ErrorV { code: p.0.code, name: p.0.name@, description: p.1@ },
            ),
            default_operation: view_opt_name(self.default_operation),
            types_id: self.types_id,
        }
    }
}

/// A map held as an association list is canonical: keys strictly ascending in
/// lexicographic order, which also makes them unique.
pub open spec fn sorted_keys<T>(s: Seq<(Seq<u8>, T)>) -> bool {
    forall|i: int, j: int| 0 <= i < j < s.len() ==> lex_lt(#[trigger] s[i].0, #[trigger] s[j].0)
}

/// A name set held as a list is canonical: strictly ascending.
pub open spec fn sorted_names(s: Seq<Seq<u8>>) -> bool {
    forall|i: int, j: int| 0 <= i < j < s.len() ==> lex_lt(#[trigger] s[i], #[trigger] s[j])
}

/// An error-code set held as a list is canonical: strictly ascending.
pub open spec fn sorted_codes(s: Seq<u8>) -> bool {
    forall|i: int, j: int| 0 <= i < j < s.len() ==> #[trigger] s[i] < #[trigger] s[j]
}

/// A key occurs in an association list.
pub open spec fn key_in<T>(s: Seq<(Seq<u8>, T)>, k: Seq<u8>) -> bool {
    exists|i: int| 0 <= i < s.len() && #[trigger] s[i].0 == k
}

/// A name occurs in a name list.
pub open spec fn name_in(s: Seq<Seq<u8>>, k: Seq<u8>) -> bool {
    exists|i: int| 0 <= i < s.len() && #[trigger] s[i] == k
}

/// An error code is declared in the schema-wide error map.
pub open spec fn code_in(errors: Seq<ErrorV>, c: u8) -> bool {
    exists|i: int| 0 <= i < errors.len() && #[trigger] errors[i].code == c
}

/// Well-formed map of field or operation names: canonical order, bounded
/// size, ASCII keys.
pub open spec fn wf_keyed<T>(s: Seq<(Seq<u8>, T)>) -> bool {
    &&& s.len() <= 255
    &&& sorted_keys(s)
    &&& forall|i: int| 0 <= i < s.len() ==> ascii_text(#[trigger] s[i].0) && s[i].0.len() >= 1
}

/// Well-formed name set.
pub open spec fn wf_names(s: Seq<Seq<u8>>) -> bool {
    &&& s.len() <= 255
    &&& sorted_names(s)
    &&& forall|i: int| 0 <= i < s.len() ==> ascii_text(#[trigger] s[i]) && s[i].len() >= 1
}

/// Well-formed error-code set: canonical order, small positive codes.
pub open spec fn wf_codes(s: Seq<u8>) -> bool {
    &&& s.len() <= 255
    &&& sorted_codes(s)
    &&& forall|i: int| 0 <= i < s.len() ==> #[trigger] s[i] >= 1
}

impl GenesisV {
    /// Structural well-formedness of a genesis schema.
    pub open spec fn wf(self) -> bool {
        &&& wf_keyed(self.globals)
        &&& wf_keyed(self.assignments)
        &&& wf_names(self.valencies)
        &&& wf_codes(self.errors)
    }

    /// Referential closure: every name and code this genesis mentions is
    /// declared by the enclosing schema.
    pub open spec fn closed_in(self, iface: IfaceV) -> bool {
        &&& forall|i: int| 0 <= i < self.globals.len()
            ==> key_in(iface.global_state, #[trigger] self.globals[i].0)
        &&& forall|i: int| 0 <= i < self.assignments.len()
            ==> key_in(iface.assignments, #[trigger] self.assignments[i].0)
        &&& forall|i: int| 0 <= i < self.valencies.len()
            ==> name_in(iface.valencies, #[trigger] self.valencies[i])
        &&& forall|i: int| 0 <= i < self.errors.len()
            ==> code_in(iface.errors, #[trigger] self.errors[i])
    }
}

impl TransitionV {
    /// Structural well-formedness of a transition schema.
    pub open spec fn wf(self) -> bool {
        &&& wf_keyed(self.globals)
        &&& wf_keyed(self.inputs)
        &&& wf_keyed(self.assignments)
        &&& wf_names(self.valencies)
        &&& wf_codes(self.errors)
        &&& match self.default_assignment {
            Some(d) => ascii_text(d) && d.len() >= 1,
            None => true,
        }
    }

    /// Referential closure: every name and code this transition mentions is
    /// declared by the enclosing schema, and its default assignment is one of
    /// the slots it produces.
    pub open spec fn closed_in(self, iface: IfaceV) -> bool {
        &&& forall|i: int| 0 <= i < self.globals.len()
            ==> key_in(iface.global_state, #[trigger] self.globals[i].0)
        &&& forall|i: int| 0 <= i < self.inputs.len()
            ==> key_in(iface.assignments, #[trigger] self.inputs[i].0)
        &&& forall|i: int| 0 <= i < self.assignments.len()
            ==> key_in(iface.assignments, #[trigger] self.assignments[i].0)
        &&& forall|i: int| 0 <= i < self.valencies.len()
            ==> name_in(iface.valencies, #[trigger] self.valencies[i])
        &&& forall|i: int| 0 <= i < self.errors.len()
            ==> code_in(iface.errors, #[trigger] self.errors[i])
        &&& match self.default_assignment {
            Some(d) => key_in(self.assignments, d),
            None => true,
        }
    }
}

impl IfaceV {
    /// Structural well-formedness of a schema: ASCII names, bounded and
    /// canonically ordered maps, unique positive error codes with unique
    /// symbolic names.
    pub open spec fn wf(self) -> bool {
        &&& ascii_text(self.name) && self.name.len() >= 1
        &&& wf_keyed(self.global_state)
        &&& wf_keyed(self.assignments)
        &&& wf_names(self.valencies)
        &&& self.genesis.wf()
        &&& wf_keyed(self.transitions)
        &&& forall|i: int| 0 <= i < self.transitions.len() ==> (#[trigger] self.transitions[i].1).wf()
        &&& wf_keyed(self.extensions)
        &&& forall|i: int| 0 <= i < self.extensions.len() ==> (#[trigger] self.extensions[i].1).wf()
        &&& self.errors.len() <= 255
        &&& forall|i: int, j: int| 0 <= i < j < self.errors.len()
            ==> #[trigger] self.errors[i].code < #[trigger] self.errors[j].code
        &&& forall|i: int, j: int| 0 <= i < j < self.errors.len()
            ==> (#[trigger] self.errors[i]).name != (#[trigger] self.errors[j]).name
        &&& forall|i: int| 0 <= i < self.errors.len() ==> (#[trigger] self.errors[i]).code >= 1
        &&& forall|i: int| 0 <= i < self.errors.len()
            ==> ascii_text((#[trigger] self.errors[i]).name) && self.errors[i].name.len() >= 1
        &&& forall|i: int| 0 <= i < self.errors.len()
            ==> ascii_text((#[trigger] self.errors[i]).description)
                && self.errors[i].description.len() >= 1
        &&& match self.default_operation {
            Some(d) => ascii_text(d) && d.len() >= 1,
            None => true,
        }
    }

    /// Referential closure of the whole schema: every field, valency, error
    /// code and operation referenced by the genesis or by any transition or
    /// extension is declared by the schema itself.
    pub open spec fn closed(self) -> bool {
        &&& self.genesis.closed_in(self)
        &&& forall|i: int| 0 <= i < self.transitions.len()
            ==> (#[trigger] self.transitions[i].1).closed_in(self)
        &&& forall|i: int| 0 <= i < self.extensions.len()
            ==> (#[trigger] self.extensions[i].1).closed_in(self)
        &&& match self.default_operation {
            Some(d) => key_in(self.transitions, d),
            None => true,
        }
    }
}

} // verus!
