//! Typed wrapper over a validated contract state: binds the state to the
//! standard's interface identity and exposes domain accessors.

use vstd::prelude::*;
use vstd::pervasive::unreached;
use crate::contract::{
    Amount, AssetTerms, byte_of, ContractIface, copy_bytes, Details, is_byte, is_num, is_terms,
    is_text, Name, Precision, StateAtom, sum_amounts, sum_values, terms_media_of, terms_text_of,
    text_of,
};
use crate::ident::{ident, ident_of};
use crate::identity::IfaceId;

verus! {

/// Binding-time failure: the state store was validated against a different
/// interface than this wrapper expects.
#[derive(Clone, Copy, PartialEq, Eq, Structural, Debug)]
pub enum BindingError {
    Mismatch,
}

/// The pinned interface identity of the standard's schema: the hash of its
/// canonical encoding. Any unintended change to the schema's structure shows
/// up as a change of this value.
pub open spec fn rgb25_id_bytes() -> Seq<u8> {
    seq![
        0xe5u8, 0xcbu8, 0x58u8, 0xd0u8, 0x84u8, 0xceu8, 0x9bu8, 0xdeu8,
        0x0bu8, 0x4cu8, 0x8fu8, 0x8eu8, 0xaeu8, 0xe6u8, 0x5eu8, 0x1cu8,
        0x3cu8, 0x3au8, 0x39u8, 0x1du8, 0x41u8, 0x06u8, 0x5du8, 0xe6u8,
        0x6au8, 0xf1u8, 0xd8u8, 0xd4u8, 0xf1u8, 0x54u8, 0x3bu8, 0xbcu8,
    ]
}

/// The interface identity the standard's wrapper binds against.
pub fn rgb25_expected_id() -> (r: IfaceId)
    ensures
        r.bytes@ == rgb25_id_bytes(),
        r.wf(),
{
    let v: Vec<u8> = vec![
        0xe5u8, 0xcbu8, 0x58u8, 0xd0u8, 0x84u8, 0xceu8, 0x9bu8, 0xdeu8,
        0x0bu8, 0x4cu8, 0x8fu8, 0x8eu8, 0xaeu8, 0xe6u8, 0x5eu8, 0x1cu8,
        0x3cu8, 0x3au8, 0x39u8, 0x1du8, 0x41u8, 0x06u8, 0x5du8, 0xe6u8,
        0x6au8, 0xf1u8, 0xd8u8, 0xd4u8, 0xf1u8, 0x54u8, 0x3bu8, 0xbcu8,
    ];
    proof {
        assert(v@ =~= rgb25_id_bytes());
    }
    IfaceId { bytes: v }
}

/// Typed, read-only view over one contract state, bound to the standard's
/// interface identity. It owns no mutable state; every accessor recomputes
/// its result from the referenced store.
#[derive(Clone, PartialEq, Eq, Debug)]
pub struct Rgb25(pub ContractIface);

impl Rgb25 {
    /// Binds a state store to the standard. Succeeds exactly when the store
    /// carries the standard's interface identity; on success the wrapper
    /// holds the store unchanged.
    pub fn with(iface: ContractIface) -> (r: Result<Rgb25, BindingError>)
        ensures
            match r {
                Ok(w) => w.0 == iface && iface.iface_id.bytes@ == rgb25_id_bytes(),
                Err(e) => {
                    &&& iface.iface_id.bytes@ != rgb25_id_bytes()
                    &&& e == BindingError::Mismatch
                },
            },
    {
        let expected = rgb25_expected_id();
        if iface.iface_id.eq_id(&expected) {
            Ok(Rgb25(iface))
        } else {
            Err(BindingError::Mismatch)
        }
    }

    /// The store binds exactly one text value to the asset-name field, as the
    /// schema's `Once` occurrence demands of validated state.
    pub open spec fn name_conformant(self) -> bool {
        &&& self.0.keys_unique()
        &&& self.0.has_global(ident_of("name"))
        &&& self.0.global_spec(ident_of("name")).len() == 1
        &&& is_text(self.0.global_spec(ident_of("name"))[0])
    }

    /// The asset name: the single value bound to the `name` field.
    pub fn name(&self) -> (r: Name)
        requires
            self.name_conformant(),
        ensures
            r.0@ == text_of(self.0.global_spec(ident_of("name"))[0]),
    {
        proof {
            reveal_strlit("name");
        }
        let key = ident("name");
        let vals = match self.0.global(key.as_slice()) {
            Some(v) => v,
            None => unreached(),
        };
        match &vals[0] {
            StateAtom::Text(t) => Name(copy_bytes(t)),
            _ => unreached(),
        }
    }

    /// The store binds at most one text value to the details field, as the
    /// schema's `ZeroOrOne` occurrence demands of validated state.
    pub open spec fn details_conformant(self) -> bool {
        &&& self.0.keys_unique()
        &&& self.0.has_global(ident_of("details"))
        &&& self.0.global_spec(ident_of("details")).len() <= 1
        &&& self.0.global_spec(ident_of("details")).len() == 1
            ==> is_text(self.0.global_spec(ident_of("details"))[0])
    }

    /// The optional asset details: absent for zero bound values, the decoded
    /// single value otherwise.
    pub fn details(&self) -> (r: Option<Details>)
        requires
            self.details_conformant(),
        ensures
            match r {
                Some(d) => {
                    &&& self.0.global_spec(ident_of("details")).len() == 1
                    &&& d.0@ == text_of(self.0.global_spec(ident_of("details"))[0])
                },
                None => self.0.global_spec(ident_of("details")).len() == 0,
            },
    {
        proof {
            reveal_strlit("details");
        }
        let key = ident("details");
        let vals = match self.0.global(key.as_slice()) {
            Some(v) => v,
            None => unreached(),
        };
        if vals.len() == 0 {
            None
        } else {
            match &vals[0] {
                StateAtom::Text(t) => Some(Details(copy_bytes(t))),
                _ => unreached(),
            }
        }
    }

    /// The store binds exactly one small numeric value, at most eighteen, to
    /// the precision field.
    pub open spec fn precision_conformant(self) -> bool {
        &&& self.0.keys_unique()
        &&& self.0.has_global(ident_of("precision"))
        &&& self.0.global_spec(ident_of("precision")).len() == 1
        &&& is_byte(self.0.global_spec(ident_of("precision"))[0])
        &&& byte_of(self.0.global_spec(ident_of("precision"))[0]) <= 18
    }

    /// The asset's decimal precision: the single value bound to the
    /// `precision` field.
    pub fn precision(&self) -> (r: Precision)
        requires
            self.precision_conformant(),
        ensures
            r.0 == byte_of(self.0.global_spec(ident_of("precision"))[0]),
            r.0 <= 18,
    {
        proof {
            reveal_strlit("precision");
        }
        let key = ident("precision");
        let vals = match self.0.global(key.as_slice()) {
            Some(v) => v,
            None => unreached(),
        };
        match &vals[0] {
            StateAtom::Byte(b) => Precision(*b),
            _ => unreached(),
        }
    }

    /// Every value bound to the issued-supply field is an amount, and their
    /// sum fits the amount type.
    pub open spec fn issued_conformant(self) -> bool {
        &&& self.0.keys_unique()
        &&& self.0.has_global(ident_of("issuedSupply"))
        &&& forall|i: int| 0 <= i < self.0.global_spec(ident_of("issuedSupply")).len()
            ==> is_num(#[trigger] self.0.global_spec(ident_of("issuedSupply"))[i])
        &&& sum_amounts(self.0.global_spec(ident_of("issuedSupply"))) <= u64::MAX
    }

    /// Total issued supply: the sum of every amount bound to the
    /// `issuedSupply` field.
    pub fn total_issued_supply(&self) -> (r: Amount)
        requires
            self.issued_conformant(),
        ensures
            r.0 == sum_amounts(self.0.global_spec(ident_of("issuedSupply"))),
    {
        proof {
            reveal_strlit("issuedSupply");
        }
        let key = ident("issuedSupply");
        let vals = match self.0.global(key.as_slice()) {
            Some(v) => v,
            None => unreached(),
        };
        sum_values(vals)
    }

    /// Where the store holds the burned-supply field at all, every bound
    /// value is an amount and their sum fits the amount type. An entirely
    /// absent field is a valid state of its own.
    pub open spec fn burned_conformant(self) -> bool {
        &&& self.0.keys_unique()
        &&& self.0.has_global(ident_of("burnedSupply")) ==> ((forall|i: int|
            0 <= i < self.0.global_spec(ident_of("burnedSupply")).len()
                ==> is_num(#[trigger] self.0.global_spec(ident_of("burnedSupply"))[i]))
            && sum_amounts(self.0.global_spec(ident_of("burnedSupply"))) <= u64::MAX)
    }

    /// Total burned supply: the sum of every amount bound to the
    /// `burnedSupply` field; zero where the field is absent, since absence
    /// aggregates to the additive identity.
    pub fn total_burned_supply(&self) -> (r: Amount)
        requires
            self.burned_conformant(),
        ensures
            r.0 == if self.0.has_global(ident_of("burnedSupply")) {
                sum_amounts(self.0.global_spec(ident_of("burnedSupply")))
            } else {
                0
            },
    {
        proof {
            reveal_strlit("burnedSupply");
        }
        let key = ident("burnedSupply");
        match self.0.global(key.as_slice()) {
            Some(v) => sum_values(v),
            None => Amount::zero(),
        }
    }

    /// The store binds at least one terms value to the contract-data field.
    pub open spec fn data_conformant(self) -> bool {
        &&& self.0.keys_unique()
        &&& self.0.has_global(ident_of("terms"))
        &&& self.0.global_spec(ident_of("terms")).len() >= 1
        &&& is_terms(self.0.global_spec(ident_of("terms"))[0])
    }

    /// The contract terms: the first value bound to the `terms` field, the
    /// global the schema declares for the asset's contract data.
    pub fn contract_data(&self) -> (r: AssetTerms)
        requires
            self.data_conformant(),
        ensures
            r.text@ == terms_text_of(self.0.global_spec(ident_of("terms"))[0]),
            (match r.media {
                Some(m) => Some(m@),
                None => None,
            }) == terms_media_of(self.0.global_spec(ident_of("terms"))[0]),
    {
        proof {
            reveal_strlit("terms");
        }
        let key = ident("terms");
        let vals = match self.0.global(key.as_slice()) {
            Some(v) => v,
            None => unreached(),
        };
        match &vals[0] {
            StateAtom::Terms(t) => AssetTerms {
                text: copy_bytes(&t.text),
                media: match &t.media {
                    Some(m) => Some(copy_bytes(m)),
                    None => None,
                },
            },
            _ => unreached(),
        }
    }
}

} // verus!
