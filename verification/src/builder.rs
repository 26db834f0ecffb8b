//! Deterministic construction of the fungible-asset schema from a type
//! registry snapshot.

use vstd::prelude::*;
use vstd::pervasive::unreached;
use crate::ident::{ascii_text, bytes_eq, ident, ident_of, lemma_lex_lt_at, lex_lt};
use crate::iface::{
    AssignIface, ErrorV, GenesisIface, GenesisV, GlobalIface, Iface, IfaceV, key_in, OwnedIface,
    Req, TransitionIface, TransitionV, TypeId, Variant, VerNo,
};
use crate::occurrence::Occurrence;

verus! {

/// Schema-construction-time failure: a semantic type the schema needs is
/// missing from the registry snapshot.
#[derive(Clone, Copy, PartialEq, Eq, Structural, Debug)]
pub enum SchemaError {
    UnknownType,
}

/// A table declares a type of this name.
pub open spec fn table_contains(tbl: Seq<(Seq<u8>, TypeId)>, k: Seq<u8>) -> bool {
    key_in(tbl, k)
}

/// The type a table declares under a name (meaningful only where the name is
/// declared).
pub open spec fn table_lookup(tbl: Seq<(Seq<u8>, TypeId)>, k: Seq<u8>) -> TypeId {
    tbl[choose|i: int| 0 <= i < tbl.len() && (#[trigger] tbl[i]).0 == k].1
}

/// A snapshot of the external type registry: named semantic value types,
/// with a stable snapshot identifier.
#[derive(Clone, PartialEq, Eq, Debug)]
pub struct TypeRegistry {
    pub id: u64,
    pub entries: Vec<(Vec<u8>, TypeId)>,
}

impl TypeRegistry {
    /// The registry as a mathematical association table.
    pub open spec fn table(self) -> Seq<(Seq<u8>, TypeId)> {
        self.entries@.map_values(|p: (Vec<u8>, TypeId)| (p.0@, p.1))
    }

    /// Names are unique within a registry snapshot.
    pub open spec fn wf(self) -> bool {
        forall|i: int, j: int| 0 <= i < j < self.table().len()
            ==> (#[trigger] self.table()[i]).0 != (#[trigger] self.table()[j]).0
    }

    /// Looks a type name up in the snapshot.
    pub fn get(&self, name: &[u8]) -> (r: Option<TypeId>)
        requires
            self.wf(),
        ensures
            r == if table_contains(self.table(), name@) {
                Some(table_lookup(self.table(), name@))
            } else {
                None::<TypeId>
            },
    {
        let mut i: usize = 0;
        while i < self.entries.len()
            invariant
                self.wf(),
                0 <= i <= self.entries.len(),
                forall|j: int| 0 <= j < i ==> (#[trigger] self.table()[j]).0 != name@,
            decreases self.entries.len() - i,
        {
            if bytes_eq(self.entries[i].0.as_slice(), name) {
                proof {
                    assert(self.table()[i as int].0 == name@);
                    let w = choose|w: int|
                        0 <= w < self.table().len() && (#[trigger] self.table()[w]).0 == name@;
                    assert(self.table()[w].0 == name@);
                    assert(w == i as int);
                }
                return Some(self.entries[i].1);
            }
            i = i + 1;
        }
        None
    }
}

pub const SUPPLY_MISMATCH: u8 = 1;
pub const NON_EQUAL_AMOUNTS: u8 = 2;
pub const INVALID_PROOF: u8 = 3;
pub const INSUFFICIENT_RESERVES: u8 = 4;
pub const INSUFFICIENT_COVERAGE: u8 = 5;

/// Snapshot identifier of the standard registry shipped with the library.
pub const STD_TYPES_ID: u64 = 1;

/// The registry names the schema builder resolves.
pub open spec fn required_types_present(tbl: Seq<(Seq<u8>, TypeId)>) -> bool {
    &&& table_contains(tbl, ident_of("RGBContract.Name"))
    &&& table_contains(tbl, ident_of("RGBContract.Details"))
    &&& table_contains(tbl, ident_of("RGBContract.Precision"))
    &&& table_contains(tbl, ident_of("RGBContract.AssetTerms"))
    &&& table_contains(tbl, ident_of("RGBContract.Amount"))
    &&& table_contains(tbl, ident_of("RGBContract.IssueMeta"))
    &&& table_contains(tbl, ident_of("RGBContract.BurnMeta"))
}

/// The genesis schema of the standard, resolved against a registry table.
pub open spec fn rgb25_genesis_spec(tbl: Seq<(Seq<u8>, TypeId)>) -> GenesisV {
    GenesisV {
        metadata: Some(table_lookup(tbl, ident_of("RGBContract.IssueMeta"))),
        globals: seq![
            (ident_of("details"), Occurrence::ZeroOrOne),
            (ident_of("issuedSupply"), Occurrence::Once),
            (ident_of("name"), Occurrence::Once),
            (ident_of("precision"), Occurrence::Once),
            (ident_of("terms"), Occurrence::Once),
        ],
        assignments: seq![(ident_of("assetOwner"), Occurrence::OnceOrMore)],
        valencies: Seq::empty(),
        errors: seq![SUPPLY_MISMATCH, INVALID_PROOF, INSUFFICIENT_RESERVES],
    }
}

/// The mandatory transfer operation of the standard.
pub open spec fn rgb25_transfer_spec() -> TransitionV {
    TransitionV {
        optional: false,
        metadata: None,
        globals: Seq::empty(),
        inputs: seq![(ident_of("assetOwner"), Occurrence::OnceOrMore)],
        assignments: seq![(ident_of("assetOwner"), Occurrence::OnceOrMore)],
        valencies: Seq::empty(),
        errors: seq![NON_EQUAL_AMOUNTS],
        default_assignment: Some(ident_of("assetOwner")),
    }
}

/// The optional burn operation of the standard.
pub open spec fn rgb25_burn_spec(tbl: Seq<(Seq<u8>, TypeId)>) -> TransitionV {
    TransitionV {
        optional: true,
        metadata: Some(table_lookup(tbl, ident_of("RGBContract.BurnMeta"))),
        globals: seq![(ident_of("burnedSupply"), Occurrence::Once)],
        inputs: seq![(ident_of("burnRight"), Occurrence::Once)],
        assignments: seq![(ident_of("burnRight"), Occurrence::ZeroOrOne)],
        valencies: Seq::empty(),
        errors: seq![SUPPLY_MISMATCH, INVALID_PROOF, INSUFFICIENT_COVERAGE],
        default_assignment: None,
    }
}

/// The whole schema of the standard as a mathematical value: a pure function
/// of the registry snapshot, so equivalent snapshots always give the same
/// schema and hence the same canonical encoding and identity.
pub open spec fn rgb25_spec(tbl: Seq<(Seq<u8>, TypeId)>, id: u64) -> IfaceV {
    IfaceV {
        version: VerNo::V1,
        name: ident_of("RGB25"),
        global_state: seq![
            (
                ident_of("burnedSupply"),
                GlobalIface {
                    sem_id: table_lookup(tbl, ident_of("RGBContract.Amount")),
                    occ: Occurrence::ZeroOrMore,
                },
            ),
            (
                ident_of("details"),
                GlobalIface {
                    sem_id: table_lookup(tbl, ident_of("RGBContract.Details")),
                    occ: Occurrence::ZeroOrOne,
                },
            ),
            (
                ident_of("issuedSupply"),
                GlobalIface {
                    sem_id: table_lookup(tbl, ident_of("RGBContract.Amount")),
                    occ: Occurrence::Once,
                },
            ),
            (
                ident_of("name"),
                GlobalIface {
                    sem_id: table_lookup(tbl, ident_of("RGBContract.Name")),
                    occ: Occurrence::Once,
                },
            ),
            (
                ident_of("precision"),
                GlobalIface {
                    sem_id: table_lookup(tbl, ident_of("RGBContract.Precision")),
                    occ: Occurrence::Once,
                },
            ),
            (
                ident_of("terms"),
                GlobalIface {
                    sem_id: table_lookup(tbl, ident_of("RGBContract.AssetTerms")),
                    occ: Occurrence::Once,
                },
            ),
        ],
        assignments: seq![
            (
                ident_of("assetOwner"),
                AssignIface {
                    owned_state: OwnedIface::Amount,
                    public: false,
                    req: Req::OneOrMore,
                },
            ),
            (
                ident_of("burnRight"),
                AssignIface {
                    owned_state: OwnedIface::Rights,
                    public: true,
                    req: Req::NoneOrMore,
                },
            ),
        ],
        valencies: Seq::empty(),
        genesis: rgb25_genesis_spec(tbl),
        transitions: seq![
            (ident_of("burn"), rgb25_burn_spec(tbl)),
            (ident_of("transfer"), rgb25_transfer_spec()),
        ],
        extensions: Seq::empty(),
        errors: seq![
            ErrorV {
                code: SUPPLY_MISMATCH,
                name: ident_of("supplyMismatch"),
                description: ident_of(
                    "supply specified as a global parameter doesn't match the issued supply allocated to the asset owners",
                ),
            },
            ErrorV {
                code: NON_EQUAL_AMOUNTS,
                name: ident_of("nonEqualAmounts"),
                description: ident_of(
                    "the sum of spent assets doesn't equal to the sum of assets in outputs",
                ),
            },
            ErrorV {
                code: INVALID_PROOF,
                name: ident_of("invalidProof"),
                description: ident_of("the provided proof is invalid"),
            },
            ErrorV {
                code: INSUFFICIENT_RESERVES,
                name: ident_of("insufficientReserves"),
                description: ident_of(
                    "reserve is insufficient to cover the issued assets",
                ),
            },
            ErrorV {
                code: INSUFFICIENT_COVERAGE,
                name: ident_of("insufficientCoverage"),
                description: ident_of(
                    "the claimed amount of burned assets is not covered by the assets in the operation inputs",
                ),
            },
        ],
        default_operation: Some(ident_of("transfer")),
        types_id: id,
    }
}

/// Determinism of the schema builder: equivalent registry snapshots yield
/// structurally equal schemas.
pub proof fn lemma_rgb25_deterministic(a: TypeRegistry, b: TypeRegistry)
    requires
        a.id == b.id,
        a.table() == b.table(),
    ensures
        rgb25_spec(a.table(), a.id) == rgb25_spec(b.table(), b.id),
{
}

/// A lexicographic-order fact witnessed by the first byte alone.
proof fn lex_first(a: &str, b: &str)
    requires
        a@.len() >= 1,
        b@.len() >= 1,
        (a@[0] as u8) < (b@[0] as u8),
    ensures
        lex_lt(ident_of(a), ident_of(b)),
{
    lemma_lex_lt_at(ident_of(a), ident_of(b), 0);
}

/// Distinct identifiers, witnessed by one differing byte.
proof fn ident_ne(a: &str, b: &str, i: int)
    requires
        0 <= i < a@.len(),
        i < b@.len(),
        (a@[i] as u8) != (b@[i] as u8),
    ensures
        ident_of(a) != ident_of(b),
{
    assert(ident_of(a)[i] != ident_of(b)[i]);
}

/// The schema of the standard is structurally well-formed, whatever types
/// the registry resolved its fields to.
#[verifier::rlimit(100)]
pub proof fn lemma_rgb25_wf(tbl: Seq<(Seq<u8>, TypeId)>, id: u64)
    ensures
        rgb25_spec(tbl, id).wf(),
{
    reveal_strlit("RGB25");
    reveal_strlit("assetOwner");
    reveal_strlit("burn");
    reveal_strlit("burnRight");
    reveal_strlit("burnedSupply");
    reveal_strlit("details");
    reveal_strlit("insufficientCoverage");
    reveal_strlit("insufficientReserves");
    reveal_strlit("invalidProof");
    reveal_strlit("issuedSupply");
    reveal_strlit("name");
    reveal_strlit("nonEqualAmounts");
    reveal_strlit("precision");
    reveal_strlit("supplyMismatch");
    reveal_strlit("terms");
    reveal_strlit("transfer");
    reveal_strlit(
        "supply specified as a global parameter doesn't match the issued supply allocated to the asset owners",
    );
    reveal_strlit("the sum of spent assets doesn't equal to the sum of assets in outputs");
    reveal_strlit("the provided proof is invalid");
    reveal_strlit("reserve is insufficient to cover the issued assets");
    reveal_strlit(
        "the claimed amount of burned assets is not covered by the assets in the operation inputs",
    );
    let s = rgb25_spec(tbl, id);
    assert(ascii_text(ident_of("RGB25")));
    assert(ascii_text(ident_of("assetOwner")));
    assert(ascii_text(ident_of("burn")));
    assert(ascii_text(ident_of("burnRight")));
    assert(ascii_text(ident_of("burnedSupply")));
    assert(ascii_text(ident_of("details")));
    assert(ascii_text(ident_of("insufficientCoverage")));
    assert(ascii_text(ident_of("insufficientReserves")));
    assert(ascii_text(ident_of("invalidProof")));
    assert(ascii_text(ident_of("issuedSupply")));
    assert(ascii_text(ident_of("name")));
    assert(ascii_text(ident_of("nonEqualAmounts")));
    assert(ascii_text(ident_of("precision")));
    assert(ascii_text(ident_of("supplyMismatch")));
    assert(ascii_text(ident_of("terms")));
    assert(ascii_text(ident_of("transfer")));
    assert(ascii_text(ident_of(
        "supply specified as a global parameter doesn't match the issued supply allocated to the asset owners",
    )));
    assert(ascii_text(ident_of(
        "the sum of spent assets doesn't equal to the sum of assets in outputs",
    )));
    assert(ascii_text(ident_of("the provided proof is invalid")));
    assert(ascii_text(ident_of("reserve is insufficient to cover the issued assets")));
    assert(ascii_text(ident_of(
        "the claimed amount of burned assets is not covered by the assets in the operation inputs",
    )));
    lex_first("burnedSupply", "details");
    lex_first("burnedSupply", "issuedSupply");
    lex_first("burnedSupply", "name");
    lex_first("burnedSupply", "precision");
    lex_first("burnedSupply", "terms");
    lex_first("details", "issuedSupply");
    lex_first("details", "name");
    lex_first("details", "precision");
    lex_first("details", "terms");
    lex_first("issuedSupply", "name");
    lex_first("issuedSupply", "precision");
    lex_first("issuedSupply", "terms");
    lex_first("name", "precision");
    lex_first("name", "terms");
    lex_first("precision", "terms");
    lex_first("assetOwner", "burnRight");
    lex_first("burn", "transfer");
    assert(crate::iface::sorted_keys(s.global_state));
    assert(crate::iface::sorted_keys(s.assignments));
    assert(crate::iface::sorted_keys(s.transitions));
    assert(crate::iface::sorted_keys(s.genesis.globals));
    ident_ne("supplyMismatch", "nonEqualAmounts", 0);
    ident_ne("supplyMismatch", "invalidProof", 0);
    ident_ne("supplyMismatch", "insufficientReserves", 0);
    ident_ne("supplyMismatch", "insufficientCoverage", 0);
    ident_ne("nonEqualAmounts", "invalidProof", 0);
    ident_ne("nonEqualAmounts", "insufficientReserves", 0);
    ident_ne("nonEqualAmounts", "insufficientCoverage", 0);
    ident_ne("invalidProof", "insufficientReserves", 2);
    ident_ne("invalidProof", "insufficientCoverage", 2);
    ident_ne("insufficientReserves", "insufficientCoverage", 12);
    assert(s.wf());
}

/// Closure of the standard's schema: every field, error code and operation
/// that its genesis or any of its transitions references is declared by the
/// schema itself.
pub proof fn lemma_rgb25_closed(tbl: Seq<(Seq<u8>, TypeId)>, id: u64)
    ensures
        rgb25_spec(tbl, id).closed(),
{
    let s = rgb25_spec(tbl, id);
    assert(s.global_state[0].0 == ident_of("burnedSupply"));
    assert(s.global_state[1].0 == ident_of("details"));
    assert(s.global_state[2].0 == ident_of("issuedSupply"));
    assert(s.global_state[3].0 == ident_of("name"));
    assert(s.global_state[4].0 == ident_of("precision"));
    assert(s.global_state[5].0 == ident_of("terms"));
    assert(s.assignments[0].0 == ident_of("assetOwner"));
    assert(s.assignments[1].0 == ident_of("burnRight"));
    assert(s.errors[0].code == SUPPLY_MISMATCH);
    assert(s.errors[1].code == NON_EQUAL_AMOUNTS);
    assert(s.errors[2].code == INVALID_PROOF);
    assert(s.errors[3].code == INSUFFICIENT_RESERVES);
    assert(s.errors[4].code == INSUFFICIENT_COVERAGE);
    assert(s.transitions[0].0 == ident_of("burn"));
    assert(s.transitions[1].0 == ident_of("transfer"));
    assert(s.genesis.closed_in(s));
    let burn = rgb25_burn_spec(tbl);
    assert(burn.assignments[0].0 == ident_of("burnRight"));
    assert(burn.closed_in(s));
    let transfer = rgb25_transfer_spec();
    assert(transfer.assignments[0].0 == ident_of("assetOwner"));
    assert(transfer.closed_in(s));
    assert forall|i: int| 0 <= i < s.transitions.len() implies (#[trigger] s.transitions[i].1)
        .closed_in(s) by {
        assert(s.transitions[0].1 == burn);
        assert(s.transitions[1].1 == transfer);
    }
    assert(s.closed());
}

/// The standard type-registry table shipped with the library.
pub open spec fn standard_table() -> Seq<(Seq<u8>, TypeId)> {
    seq![
        (ident_of("RGBContract.Amount"), TypeId(1)),
        (ident_of("RGBContract.AssetTerms"), TypeId(2)),
        (ident_of("RGBContract.BurnMeta"), TypeId(3)),
        (ident_of("RGBContract.Details"), TypeId(4)),
        (ident_of("RGBContract.IssueMeta"), TypeId(5)),
        (ident_of("RGBContract.Name"), TypeId(6)),
        (ident_of("RGBContract.Precision"), TypeId(7)),
    ]
}

/// Builds the standard registry snapshot: the semantic value types the
/// schema's fields are declared with.
#[verifier::rlimit(60)]
pub fn standard_types() -> (r: TypeRegistry)
    ensures
        r.id == STD_TYPES_ID,
        r.table() == standard_table(),
        r.wf(),
        required_types_present(r.table()),
{
    proof {
        reveal_strlit("RGBContract.Amount");
        reveal_strlit("RGBContract.AssetTerms");
        reveal_strlit("RGBContract.BurnMeta");
        reveal_strlit("RGBContract.Details");
        reveal_strlit("RGBContract.IssueMeta");
        reveal_strlit("RGBContract.Name");
        reveal_strlit("RGBContract.Precision");
    }
    let mut entries: Vec<(Vec<u8>, TypeId)> = Vec::new();
    entries.push((ident("RGBContract.Amount"), TypeId(1)));
    entries.push((ident("RGBContract.AssetTerms"), TypeId(2)));
    entries.push((ident("RGBContract.BurnMeta"), TypeId(3)));
    entries.push((ident("RGBContract.Details"), TypeId(4)));
    entries.push((ident("RGBContract.IssueMeta"), TypeId(5)));
    entries.push((ident("RGBContract.Name"), TypeId(6)));
    entries.push((ident("RGBContract.Precision"), TypeId(7)));
    let r = TypeRegistry { id: STD_TYPES_ID, entries };
    proof {
        assert(r.table() =~~= standard_table());
        ident_ne("RGBContract.Amount", "RGBContract.AssetTerms", 13);
        ident_ne("RGBContract.Amount", "RGBContract.BurnMeta", 12);
        ident_ne("RGBContract.Amount", "RGBContract.Details", 12);
        ident_ne("RGBContract.Amount", "RGBContract.IssueMeta", 12);
        ident_ne("RGBContract.Amount", "RGBContract.Name", 12);
        ident_ne("RGBContract.Amount", "RGBContract.Precision", 12);
        ident_ne("RGBContract.AssetTerms", "RGBContract.BurnMeta", 12);
        ident_ne("RGBContract.AssetTerms", "RGBContract.Details", 12);
        ident_ne("RGBContract.AssetTerms", "RGBContract.IssueMeta", 12);
        ident_ne("RGBContract.AssetTerms", "RGBContract.Name", 12);
        ident_ne("RGBContract.AssetTerms", "RGBContract.Precision", 12);
        ident_ne("RGBContract.BurnMeta", "RGBContract.Details", 12);
        ident_ne("RGBContract.BurnMeta", "RGBContract.IssueMeta", 12);
        ident_ne("RGBContract.BurnMeta", "RGBContract.Name", 12);
        ident_ne("RGBContract.BurnMeta", "RGBContract.Precision", 12);
        ident_ne("RGBContract.Details", "RGBContract.IssueMeta", 12);
        ident_ne("RGBContract.Details", "RGBContract.Name", 12);
        ident_ne("RGBContract.Details", "RGBContract.Precision", 12);
        ident_ne("RGBContract.IssueMeta", "RGBContract.Name", 12);
        ident_ne("RGBContract.IssueMeta", "RGBContract.Precision", 12);
        ident_ne("RGBContract.Name", "RGBContract.Precision", 12);
        assert(r.wf());
        assert(r.table()[0].0 == ident_of("RGBContract.Amount"));
        assert(r.table()[1].0 == ident_of("RGBContract.AssetTerms"));
        assert(r.table()[2].0 == ident_of("RGBContract.BurnMeta"));
        assert(r.table()[3].0 == ident_of("RGBContract.Details"));
        assert(r.table()[4].0 == ident_of("RGBContract.IssueMeta"));
        assert(r.table()[5].0 == ident_of("RGBContract.Name"));
        assert(r.table()[6].0 == ident_of("RGBContract.Precision"));
        assert(required_types_present(r.table()));
    }
    r
}

/// Builds the schema of the standard against the given registry snapshot.
/// Succeeds exactly when the snapshot declares every semantic type the
/// schema's fields need; the result is then the canonical, well-formed and
/// closed schema value determined by the snapshot alone.
#[verifier::rlimit(100)]
pub fn rgb25_from(types: &TypeRegistry) -> (r: Result<Iface, SchemaError>)
    requires
        types.wf(),
    ensures
        match r {
            Ok(s) => {
                &&& required_types_present(types.table())
                &&& s@ == rgb25_spec(types.table(), types.id)
                &&& s@.wf()
                &&& s@.closed()
            },
            Err(e) => !required_types_present(types.table()) && e == SchemaError::UnknownType,
        },
{
    proof {
        reveal_strlit("RGBContract.Amount");
        reveal_strlit("RGBContract.AssetTerms");
        reveal_strlit("RGBContract.BurnMeta");
        reveal_strlit("RGBContract.Details");
        reveal_strlit("RGBContract.IssueMeta");
        reveal_strlit("RGBContract.Name");
        reveal_strlit("RGBContract.Precision");
        reveal_strlit("RGB25");
        reveal_strlit("assetOwner");
        reveal_strlit("burn");
        reveal_strlit("burnRight");
        reveal_strlit("burnedSupply");
        reveal_strlit("details");
        reveal_strlit("insufficientCoverage");
        reveal_strlit("insufficientReserves");
        reveal_strlit("invalidProof");
        reveal_strlit("issuedSupply");
        reveal_strlit("name");
        reveal_strlit("nonEqualAmounts");
        reveal_strlit("precision");
        reveal_strlit("supplyMismatch");
        reveal_strlit("terms");
        reveal_strlit("transfer");
        reveal_strlit(
            "supply specified as a global parameter doesn't match the issued supply allocated to the asset owners",
        );
        reveal_strlit("the sum of spent assets doesn't equal to the sum of assets in outputs");
        reveal_strlit("the provided proof is invalid");
        reveal_strlit("reserve is insufficient to cover the issued assets");
        reveal_strlit(
            "the claimed amount of burned assets is not covered by the assets in the operation inputs",
        );
    }
    let name_ty = match types.get(ident("RGBContract.Name").as_slice()) {
        Some(t) => t,
        None => { return Err(SchemaError::UnknownType) },
    };
    let details_ty = match types.get(ident("RGBContract.Details").as_slice()) {
        Some(t) => t,
        None => { return Err(SchemaError::UnknownType) },
    };
    let precision_ty = match types.get(ident("RGBContract.Precision").as_slice()) {
        Some(t) => t,
        None => { return Err(SchemaError::UnknownType) },
    };
    let terms_ty = match types.get(ident("RGBContract.AssetTerms").as_slice()) {
        Some(t) => t,
        None => { return Err(SchemaError::UnknownType) },
    };
    let amount_ty = match types.get(ident("RGBContract.Amount").as_slice()) {
        Some(t) => t,
        None => { return Err(SchemaError::UnknownType) },
    };
    let issue_meta_ty = match types.get(ident("RGBContract.IssueMeta").as_slice()) {
        Some(t) => t,
        None => { return Err(SchemaError::UnknownType) },
    };
    let burn_meta_ty = match types.get(ident("RGBContract.BurnMeta").as_slice()) {
        Some(t) => t,
        None => { return Err(SchemaError::UnknownType) },
    };

    let mut global_state: Vec<(Vec<u8>, GlobalIface)> = Vec::new();
    global_state.push((ident("burnedSupply"), GlobalIface::none_or_many(amount_ty)));
    global_state.push((ident("details"), GlobalIface::optional(details_ty)));
    global_state.push((ident("issuedSupply"), GlobalIface::required(amount_ty)));
    global_state.push((ident("name"), GlobalIface::required(name_ty)));
    global_state.push((ident("precision"), GlobalIface::required(precision_ty)));
    global_state.push((ident("terms"), GlobalIface::required(terms_ty)));

    let mut assignments: Vec<(Vec<u8>, AssignIface)> = Vec::new();
    assignments.push((
        ident("assetOwner"),
        AssignIface::private(OwnedIface::Amount, Req::OneOrMore),
    ));
    assignments.push((
        ident("burnRight"),
        AssignIface::public(OwnedIface::Rights, Req::NoneOrMore),
    ));

    let mut genesis_globals: Vec<(Vec<u8>, Occurrence)> = Vec::new();
    genesis_globals.push((ident("details"), Occurrence::ZeroOrOne));
    genesis_globals.push((ident("issuedSupply"), Occurrence::Once));
    genesis_globals.push((ident("name"), Occurrence::Once));
    genesis_globals.push((ident("precision"), Occurrence::Once));
    genesis_globals.push((ident("terms"), Occurrence::Once));
    let mut genesis_assignments: Vec<(Vec<u8>, Occurrence)> = Vec::new();
    genesis_assignments.push((ident("assetOwner"), Occurrence::OnceOrMore));
    let mut genesis_errors: Vec<u8> = Vec::new();
    genesis_errors.push(SUPPLY_MISMATCH);
    genesis_errors.push(INVALID_PROOF);
    genesis_errors.push(INSUFFICIENT_RESERVES);
    let genesis = GenesisIface {
        metadata: Some(issue_meta_ty),
        globals: genesis_globals,
        assignments: genesis_assignments,
        valencies: Vec::new(),
        errors: genesis_errors,
    };

    let mut transfer_inputs: Vec<(Vec<u8>, Occurrence)> = Vec::new();
    transfer_inputs.push((ident("assetOwner"), Occurrence::OnceOrMore));
    let mut transfer_assignments: Vec<(Vec<u8>, Occurrence)> = Vec::new();
    transfer_assignments.push((ident("assetOwner"), Occurrence::OnceOrMore));
    let mut transfer_errors: Vec<u8> = Vec::new();
    transfer_errors.push(NON_EQUAL_AMOUNTS);
    let transfer = TransitionIface {
        optional: false,
        metadata: None,
        globals: Vec::new(),
        inputs: transfer_inputs,
        assignments: transfer_assignments,
        valencies: Vec::new(),
        errors: transfer_errors,
        default_assignment: Some(ident("assetOwner")),
    };

    let mut burn_globals: Vec<(Vec<u8>, Occurrence)> = Vec::new();
    burn_globals.push((ident("burnedSupply"), Occurrence::Once));
    let mut burn_inputs: Vec<(Vec<u8>, Occurrence)> = Vec::new();
    burn_inputs.push((ident("burnRight"), Occurrence::Once));
    let mut burn_assignments: Vec<(Vec<u8>, Occurrence)> = Vec::new();
    burn_assignments.push((ident("burnRight"), Occurrence::ZeroOrOne));
    let mut burn_errors: Vec<u8> = Vec::new();
    burn_errors.push(SUPPLY_MISMATCH);
    burn_errors.push(INVALID_PROOF);
    burn_errors.push(INSUFFICIENT_COVERAGE);
    let burn = TransitionIface {
        optional: true,
        metadata: Some(burn_meta_ty),
        globals: burn_globals,
        inputs: burn_inputs,
        assignments: burn_assignments,
        valencies: Vec::new(),
        errors: burn_errors,
        default_assignment: None,
    };

    let mut transitions: Vec<(Vec<u8>, TransitionIface)> = Vec::new();
    transitions.push((ident("burn"), burn));
    transitions.push((ident("transfer"), transfer));

    let mut errors: Vec<(Variant, Vec<u8>)> = Vec::new();
    errors.push((
        Variant::named(SUPPLY_MISMATCH, ident("supplyMismatch")),
        ident(
            "supply specified as a global parameter doesn't match the issued supply allocated to the asset owners",
        ),
    ));
    errors.push((
        Variant::named(NON_EQUAL_AMOUNTS, ident("nonEqualAmounts")),
        ident("the sum of spent assets doesn't equal to the sum of assets in outputs"),
    ));
    errors.push((
        Variant::named(INVALID_PROOF, ident("invalidProof")),
        ident("the provided proof is invalid"),
    ));
    errors.push((
        Variant::named(INSUFFICIENT_RESERVES, ident("insufficientReserves")),
        ident("reserve is insufficient to cover the issued assets"),
    ));
    errors.push((
        Variant::named(INSUFFICIENT_COVERAGE, ident("insufficientCoverage")),
        ident("the claimed amount of burned assets is not covered by the assets in the operation inputs"),
    ));

    let iface = Iface {
        version: VerNo::V1,
        name: ident("RGB25"),
        global_state,
        assignments,
        valencies: Vec::new(),
        genesis,
        transitions,
        extensions: Vec::new(),
        errors,
        default_operation: Some(ident("transfer")),
        types_id: types.id,
    };
    proof {
        let spec = rgb25_spec(types.table(), types.id);
        assert(iface@.global_state =~~= spec.global_state);
        assert(iface@.assignments =~~= spec.assignments);
        assert(iface@.valencies =~~= spec.valencies);
        assert(iface@.genesis =~~= spec.genesis);
        assert(iface@.transitions[0].1 =~~= rgb25_burn_spec(types.table()));
        assert(iface@.transitions[1].1 =~~= rgb25_transfer_spec());
        assert(iface@.transitions =~~= spec.transitions);
        assert(iface@.extensions =~~= spec.extensions);
        assert(iface@.errors =~~= spec.errors);
        assert(iface@ =~~= spec);
        lemma_rgb25_wf(types.table(), types.id);
        lemma_rgb25_closed(types.table(), types.id);
    }
    Ok(iface)
}

/// Builds the schema of the standard against the standard registry snapshot.
pub fn rgb25() -> (r: Iface)
    ensures
        r@ == rgb25_spec(standard_table(), STD_TYPES_ID),
        r@.wf(),
        r@.closed(),
{
    let types = standard_types();
    match rgb25_from(&types) {
        Ok(s) => s,
        Err(_) => unreached(),
    }
}

} // verus!
