//! Read-only model of an externally validated contract state: per-field
//! ordered value lists, carrying the identity of the schema the state was
//! validated against.

use vstd::prelude::*;
use crate::ident::bytes_eq;
use crate::identity::IfaceId;

verus! {

/// Fungible amount of an asset.
#[derive(Clone, Copy, PartialEq, Eq, Structural, Debug)]
pub struct Amount(pub u64);

impl Amount {
    /// The additive identity.
    pub fn zero() -> (r: Amount)
        ensures
            r.0 == 0,
    {
        Amount(0)
    }
}

/// Number of decimal digits of an asset's subdivision; at most eighteen.
#[derive(Clone, Copy, PartialEq, Eq, Structural, Debug)]
pub struct Precision(pub u8);

/// Asset name, as decoded from the state store.
#[derive(Clone, PartialEq, Eq, Debug)]
pub struct Name(pub Vec<u8>);

/// Optional asset details, as decoded from the state store.
#[derive(Clone, PartialEq, Eq, Debug)]
pub struct Details(pub Vec<u8>);

/// Ricardian contract text with an optional attachment digest.
#[derive(Clone, PartialEq, Eq, Debug)]
pub struct AssetTerms {
    pub text: Vec<u8>,
    pub media: Option<Vec<u8>>,
}

/// One decoded value bound to a state field.
#[derive(Clone, PartialEq, Eq, Debug)]
pub enum StateAtom {
    /// A text value.
    Text(Vec<u8>),
    /// A small numeric value.
    Byte(u8),
    /// A fungible amount.
    Num(u64),
    /// Contract terms.
    Terms(AssetTerms),
}

/// The atom is a fungible amount.
pub open spec fn is_num(a: StateAtom) -> bool {
    match a {
        StateAtom::Num(_) => true,
        _ => false,
    }
}

/// Numeric value of an amount atom.
pub open spec fn num_of(a: StateAtom) -> int {
    match a {
        StateAtom::Num(n) => n as int,
        _ => 0,
    }
}

/// The atom is a text value.
pub open spec fn is_text(a: StateAtom) -> bool {
    match a {
        StateAtom::Text(_) => true,
        _ => false,
    }
}

/// Bytes of a text atom.
pub open spec fn text_of(a: StateAtom) -> Seq<u8> {
    match a {
        StateAtom::Text(t) => t@,
        _ => Seq::empty(),
    }
}

/// The atom is a small numeric value.
pub open spec fn is_byte(a: StateAtom) -> bool {
    match a {
        StateAtom::Byte(_) => true,
        _ => false,
    }
}

/// Value of a small numeric atom.
pub open spec fn byte_of(a: StateAtom) -> u8 {
    match a {
        StateAtom::Byte(b) => b,
        _ => 0,
    }
}

/// The atom is a terms value.
pub open spec fn is_terms(a: StateAtom) -> bool {
    match a {
        StateAtom::Terms(_) => true,
        _ => false,
    }
}

/// Contract text of a terms atom.
pub open spec fn terms_text_of(a: StateAtom) -> Seq<u8> {
    match a {
        StateAtom::Terms(t) => t.text@,
        _ => Seq::empty(),
    }
}

/// Attachment digest of a terms atom.
pub open spec fn terms_media_of(a: StateAtom) -> Option<Seq<u8>> {
    match a {
        StateAtom::Terms(t) => match t.media {
            Some(m) => Some(m@),
            None => None,
        },
        _ => None,
    }
}

/// Sum of the amounts in a bound value list; zero for an empty list, as
/// absence must aggregate to the additive identity.
pub open spec fn sum_amounts(s: Seq<StateAtom>) -> int
    decreases s.len(),
{
    if s.len() == 0 {
        0
    } else {
        num_of(s[0]) + sum_amounts(s.drop_first())
    }
}

/// Appending one atom adds its amount to the sum.
pub proof fn lemma_sum_push(s: Seq<StateAtom>, x: StateAtom)
    ensures
        sum_amounts(s.push(x)) == sum_amounts(s) + num_of(x),
    decreases s.len(),
{
    assert(s.push(x).len() == s.len() + 1);
    assert(sum_amounts(s.push(x)) == num_of(s.push(x)[0]) + sum_amounts(s.push(x).drop_first()));
    if s.len() == 0 {
        assert(s.push(x)[0] == x);
        assert(s.push(x).drop_first() =~= Seq::empty());
        assert(sum_amounts(Seq::<StateAtom>::empty()) == 0);
    } else {
        assert(s.push(x)[0] == s[0]);
        assert(s.push(x).drop_first() =~= s.drop_first().push(x));
        lemma_sum_push(s.drop_first(), x);
    }
}

/// Aggregation identity: summing zero occurrences of a multi-valued numeric
/// field yields the additive identity.
pub proof fn lemma_sum_empty()
    ensures
        sum_amounts(Seq::<StateAtom>::empty()) == 0,
{
}

/// A sum of amounts is never negative.
pub proof fn lemma_sum_nonneg(s: Seq<StateAtom>)
    ensures
        sum_amounts(s) >= 0,
    decreases s.len(),
{
    if s.len() > 0 {
        lemma_sum_nonneg(s.drop_first());
    }
}

/// A sum splits over the two halves of a list.
pub proof fn lemma_sum_split(s: Seq<StateAtom>, i: int)
    requires
        0 <= i <= s.len(),
    ensures
        sum_amounts(s) == sum_amounts(s.take(i)) + sum_amounts(s.skip(i)),
    decreases i,
{
    if i == 0 {
        assert(s.take(0) =~= Seq::empty());
        assert(s.skip(0) =~= s);
    } else {
        lemma_sum_split(s.drop_first(), i - 1);
        assert(s.take(i).drop_first() =~= s.drop_first().take(i - 1));
        assert(s.skip(i) =~= s.drop_first().skip(i - 1));
        assert(sum_amounts(s.take(i)) == num_of(s[0]) + sum_amounts(s.drop_first().take(i - 1)));
    }
}

/// Sums the amounts in a bound value list.
pub fn sum_values(s: &Vec<StateAtom>) -> (r: Amount)
    requires
        sum_amounts(s@) <= u64::MAX,
    ensures
        r.0 == sum_amounts(s@),
{
    let mut acc: u64 = 0;
    let mut i: usize = 0;
    proof {
        assert(s@.take(0) =~= Seq::empty());
    }
    while i < s.len()
        invariant
            0 <= i <= s@.len(),
            sum_amounts(s@) <= u64::MAX,
            acc == sum_amounts(s@.take(i as int)),
        decreases s@.len() - i,
    {
        proof {
            assert(s@.take(i + 1) =~= s@.take(i as int).push(s@[i as int]));
            lemma_sum_push(s@.take(i as int), s@[i as int]);
            lemma_sum_split(s@, i + 1);
            lemma_sum_nonneg(s@.skip(i + 1));
        }
        let n: u64 = match &s[i] {
            StateAtom::Num(n) => *n,
            _ => 0,
        };
        acc = acc + n;
        i = i + 1;
    }
    proof {
        assert(s@.take(s@.len() as int) =~= s@);
    }
    Amount(acc)
}

/// An externally validated, schema-conformant state store: each field name
/// maps to the ordered list of values bound to it, and the store carries the
/// identity of the schema it was validated against. The core only ever reads
/// such a store.
#[derive(Clone, PartialEq, Eq, Debug)]
pub struct ContractIface {
    pub iface_id: IfaceId,
    pub global: Vec<(Vec<u8>, Vec<StateAtom>)>,
}

impl ContractIface {
    /// Field names are unique within a store.
    pub open spec fn keys_unique(self) -> bool {
        forall|i: int, j: int| 0 <= i < j < self.global@.len()
            ==> (#[trigger] self.global@[i]).0@ != (#[trigger] self.global@[j]).0@
    }

    /// The store holds the field (possibly with an empty value list).
    pub open spec fn has_global(self, k: Seq<u8>) -> bool {
        exists|i: int| 0 <= i < self.global@.len() && (#[trigger] self.global@[i]).0@ == k
    }

    /// The value list bound to a field the store holds.
    pub open spec fn global_spec(self, k: Seq<u8>) -> Seq<StateAtom> {
        self.global@[choose|i: int|
            0 <= i < self.global@.len() && (#[trigger] self.global@[i]).0@ == k].1@
    }

    /// Reads the ordered value list bound to a field.
    pub fn global(&self, name: &[u8]) -> (r: Option<&Vec<StateAtom>>)
        requires
            self.keys_unique(),
        ensures
            match r {
                Some(v) => self.has_global(name@) && v@ == self.global_spec(name@),
                None => !self.has_global(name@),
            },
    {
        let mut i: usize = 0;
        while i < self.global.len()
            invariant
                self.keys_unique(),
                0 <= i <= self.global@.len(),
                forall|j: int| 0 <= j < i ==> (#[trigger] self.global@[j]).0@ != name@,
            decreases self.global@.len() - i,
        {
            if bytes_eq(self.global[i].0.as_slice(), name) {
                proof {
                    assert(self.global@[i as int].0@ == name@);
                    let w = choose|w: int|
                        0 <= w < self.global@.len() && (#[trigger] self.global@[w]).0@ == name@;
                    assert(w == i as int);
                }
                return Some(&self.global[i].1);
            }
            i = i + 1;
        }
        None
    }
}

/// Copies a byte string.
pub fn copy_bytes(v: &Vec<u8>) -> (r: Vec<u8>)
    ensures
        r@ == v@,
{
    let mut r: Vec<u8> = Vec::new();
    let mut i: usize = 0;
    while i < v.len()
        invariant
            0 <= i <= v@.len(),
            r@ == v@.take(i as int),
        decreases v@.len() - i,
    {
        r.push(v[i]);
        proof {
            assert(v@.take(i + 1) =~= v@.take(i as int).push(v@[i as int]));
        }
        i = i + 1;
    }
    proof {
        assert(v@.take(v@.len() as int) =~= v@);
    }
    r
}

} // verus!
