//! Canonical byte encoding of a schema and the content identity derived from
//! it. The encoding is a pure function of the schema value; since schema maps
//! are held key-sorted, it never depends on construction order.

use vstd::prelude::*;
use crate::iface::{
    AssignIface, ErrorV, GenesisIface, GenesisV, GlobalIface, Iface, IfaceV, OwnedIface, Req,
    TransitionIface, TransitionV, TypeId, VerNo,
};
use crate::identity::{IfaceId, sha256, sha256_of};
use crate::occurrence::Occurrence;

verus! {

/// Eight little-endian bytes of a 64-bit number.
pub open spec fn enc_u64(x: u64) -> Seq<u8> {
    seq![
        (x & 0xff) as u8,
        ((x >> 8) & 0xff) as u8,
        ((x >> 16) & 0xff) as u8,
        ((x >> 24) & 0xff) as u8,
        ((x >> 32) & 0xff) as u8,
        ((x >> 40) & 0xff) as u8,
        ((x >> 48) & 0xff) as u8,
        ((x >> 56) & 0xff) as u8,
    ]
}

/// A byte string with a one-byte length prefix.
pub open spec fn enc_bytes(b: Seq<u8>) -> Seq<u8> {
    seq![b.len() as u8] + b
}

pub open spec fn ver_tag(v: VerNo) -> u8 {
    match v {
        VerNo::V1 => 1,
    }
}

pub open spec fn occ_tag(o: Occurrence) -> u8 {
    match o {
        Occurrence::Once => 0,
        Occurrence::ZeroOrOne => 1,
        Occurrence::OnceOrMore => 2,
        Occurrence::ZeroOrMore => 3,
    }
}

pub open spec fn owned_tag(o: OwnedIface) -> u8 {
    match o {
        OwnedIface::Rights => 0,
        OwnedIface::Amount => 1,
    }
}

pub open spec fn req_tag(r: Req) -> u8 {
    match r {
        Req::Optional => 0,
        Req::Required => 1,
        Req::OneOrMore => 2,
        Req::NoneOrMore => 3,
    }
}

pub open spec fn bool_byte(b: bool) -> u8 {
    if b {
        1
    } else {
        0
    }
}

pub open spec fn enc_opt_type(o: Option<TypeId>) -> Seq<u8> {
    match o {
        None => seq![0u8],
        Some(t) => seq![1u8] + enc_u64(t.0),
    }
}

pub open spec fn enc_opt_name(o: Option<Seq<u8>>) -> Seq<u8> {
    match o {
        None => seq![0u8],
        Some(n) => seq![1u8] + enc_bytes(n),
    }
}

pub open spec fn enc_occ_pair(p: (Seq<u8>, Occurrence)) -> Seq<u8> {
    enc_bytes(p.0) + seq![occ_tag(p.1)]
}

pub open spec fn enc_occ_list(s: Seq<(Seq<u8>, Occurrence)>) -> Seq<u8>
    decreases s.len(),
{
    if s.len() == 0 {
        Seq::empty()
    } else {
        enc_occ_pair(s[0]) + enc_occ_list(s.drop_first())
    }
}

pub open spec fn enc_name_list(s: Seq<Seq<u8>>) -> Seq<u8>
    decreases s.len(),
{
    if s.len() == 0 {
        Seq::empty()
    } else {
        enc_bytes(s[0]) + enc_name_list(s.drop_first())
    }
}

pub open spec fn enc_code_list(s: Seq<u8>) -> Seq<u8>
    decreases s.len(),
{
    if s.len() == 0 {
        Seq::empty()
    } else {
        seq![s[0]] + enc_code_list(s.drop_first())
    }
}

pub open spec fn enc_global_pair(p: (Seq<u8>, GlobalIface)) -> Seq<u8> {
    enc_bytes(p.0) + enc_u64(p.1.sem_id.0) + seq![occ_tag(p.1.occ)]
}

pub open spec fn enc_global_list(s: Seq<(Seq<u8>, GlobalIface)>) -> Seq<u8>
    decreases s.len(),
{
    if s.len() == 0 {
        Seq::empty()
    } else {
        enc_global_pair(s[0]) + enc_global_list(s.drop_first())
    }
}

pub open spec fn enc_assign_pair(p: (Seq<u8>, AssignIface)) -> Seq<u8> {
    enc_bytes(p.0) + seq![owned_tag(p.1.owned_state), bool_byte(p.1.public), req_tag(p.1.req)]
}

pub open spec fn enc_assign_list(s: Seq<(Seq<u8>, AssignIface)>) -> Seq<u8>
    decreases s.len(),
{
    if s.len() == 0 {
        Seq::empty()
    } else {
        enc_assign_pair(s[0]) + enc_assign_list(s.drop_first())
    }
}

pub open spec fn enc_error(e: ErrorV) -> Seq<u8> {
    seq![e.code] + enc_bytes(e.name) + enc_bytes(e.description)
}

pub open spec fn enc_error_list(s: Seq<ErrorV>) -> Seq<u8>
    decreases s.len(),
{
    if s.len() == 0 {
        Seq::empty()
    } else {
        enc_error(s[0]) + enc_error_list(s.drop_first())
    }
}

/// Canonical encoding of a genesis schema.
pub open spec fn enc_genesis(g: GenesisV) -> Seq<u8> {
    enc_opt_type(g.metadata) + seq![g.globals.len() as u8] + enc_occ_list(g.globals)
        + seq![g.assignments.len() as u8] + enc_occ_list(g.assignments)
        + seq![g.valencies.len() as u8] + enc_name_list(g.valencies)
        + seq![g.errors.len() as u8] + enc_code_list(g.errors)
}

/// Canonical encoding of a transition schema.
pub open spec fn enc_transition(t: TransitionV) -> Seq<u8> {
    seq![bool_byte(t.optional)] + enc_opt_type(t.metadata) + seq![t.globals.len() as u8]
        + enc_occ_list(t.globals) + seq![t.inputs.len() as u8] + enc_occ_list(t.inputs)
        + seq![t.assignments.len() as u8] + enc_occ_list(t.assignments)
        + seq![t.valencies.len() as u8] + enc_name_list(t.valencies)
        + seq![t.errors.len() as u8] + enc_code_list(t.errors) + enc_opt_name(t.default_assignment)
}

pub open spec fn enc_trans_pair(p: (Seq<u8>, TransitionV)) -> Seq<u8> {
    enc_bytes(p.0) + enc_transition(p.1)
}

pub open spec fn enc_trans_list(s: Seq<(Seq<u8>, TransitionV)>) -> Seq<u8>
    decreases s.len(),
{
    if s.len() == 0 {
        Seq::empty()
    } else {
        enc_trans_pair(s[0]) + enc_trans_list(s.drop_first())
    }
}

/// Canonical encoding of a whole schema, serialized in key-sorted order.
pub open spec fn encode_spec(s: IfaceV) -> Seq<u8> {
    seq![ver_tag(s.version)] + enc_bytes(s.name) + seq![s.global_state.len() as u8]
        + enc_global_list(s.global_state) + seq![s.assignments.len() as u8]
        + enc_assign_list(s.assignments) + seq![s.valencies.len() as u8]
        + enc_name_list(s.valencies) + enc_genesis(s.genesis)
        + seq![s.transitions.len() as u8] + enc_trans_list(s.transitions)
        + seq![s.extensions.len() as u8] + enc_trans_list(s.extensions)
        + seq![s.errors.len() as u8] + enc_error_list(s.errors)
        + enc_opt_name(s.default_operation) + enc_u64(s.types_id)
}

pub proof fn lemma_enc_occ_push(s: Seq<(Seq<u8>, Occurrence)>, x: (Seq<u8>, Occurrence))
    ensures
        enc_occ_list(s.push(x)) == enc_occ_list(s) + enc_occ_pair(x),
    decreases s.len(),
{
    if s.len() == 0 {
        assert(s.push(x)[0] == x);
        assert(s.push(x).drop_first() =~= Seq::empty());
        assert(enc_occ_list(s.push(x).drop_first()) =~= Seq::<u8>::empty());
        assert(enc_occ_list(s) =~= Seq::<u8>::empty());
        assert(enc_occ_list(s.push(x)) =~= enc_occ_list(s) + enc_occ_pair(x));
    } else {
        assert(s.push(x)[0] == s[0]);
        assert(s.push(x).drop_first() =~= s.drop_first().push(x));
        lemma_enc_occ_push(s.drop_first(), x);
        assert(enc_occ_list(s.push(x)) =~= enc_occ_list(s) + enc_occ_pair(x));
    }
}

pub proof fn lemma_enc_name_push(s: Seq<Seq<u8>>, x: Seq<u8>)
    ensures
        enc_name_list(s.push(x)) == enc_name_list(s) + enc_bytes(x),
    decreases s.len(),
{
    if s.len() == 0 {
        assert(s.push(x)[0] == x);
        assert(s.push(x).drop_first() =~= Seq::empty());
        assert(enc_name_list(s.push(x).drop_first()) =~= Seq::<u8>::empty());
        assert(enc_name_list(s) =~= Seq::<u8>::empty());
        assert(enc_name_list(s.push(x)) =~= enc_name_list(s) + enc_bytes(x));
    } else {
        assert(s.push(x)[0] == s[0]);
        assert(s.push(x).drop_first() =~= s.drop_first().push(x));
        lemma_enc_name_push(s.drop_first(), x);
        assert(enc_name_list(s.push(x)) =~= enc_name_list(s) + enc_bytes(x));
    }
}

pub proof fn lemma_enc_code_push(s: Seq<u8>, x: u8)
    ensures
        enc_code_list(s.push(x)) == enc_code_list(s) + seq![x],
    decreases s.len(),
{
    if s.len() == 0 {
        assert(s.push(x)[0] == x);
        assert(s.push(x).drop_first() =~= Seq::empty());
        assert(enc_code_list(s.push(x).drop_first()) =~= Seq::<u8>::empty());
        assert(enc_code_list(s) =~= Seq::<u8>::empty());
        assert(enc_code_list(s.push(x)) =~= enc_code_list(s) + seq![x]);
    } else {
        assert(s.push(x)[0] == s[0]);
        assert(s.push(x).drop_first() =~= s.drop_first().push(x));
        lemma_enc_code_push(s.drop_first(), x);
        assert(enc_code_list(s.push(x)) =~= enc_code_list(s) + seq![x]);
    }
}

pub proof fn lemma_enc_global_push(s: Seq<(Seq<u8>, GlobalIface)>, x: (Seq<u8>, GlobalIface))
    ensures
        enc_global_list(s.push(x)) == enc_global_list(s) + enc_global_pair(x),
    decreases s.len(),
{
    if s.len() == 0 {
        assert(s.push(x)[0] == x);
        assert(s.push(x).drop_first() =~= Seq::empty());
        assert(enc_global_list(s.push(x).drop_first()) =~= Seq::<u8>::empty());
        assert(enc_global_list(s) =~= Seq::<u8>::empty());
        assert(enc_global_list(s.push(x)) =~= enc_global_list(s) + enc_global_pair(x));
    } else {
        assert(s.push(x)[0] == s[0]);
        assert(s.push(x).drop_first() =~= s.drop_first().push(x));
        lemma_enc_global_push(s.drop_first(), x);
        assert(enc_global_list(s.push(x)) =~= enc_global_list(s) + enc_global_pair(x));
    }
}

pub proof fn lemma_enc_assign_push(s: Seq<(Seq<u8>, AssignIface)>, x: (Seq<u8>, AssignIface))
    ensures
        enc_assign_list(s.push(x)) == enc_assign_list(s) + enc_assign_pair(x),
    decreases s.len(),
{
    if s.len() == 0 {
        assert(s.push(x)[0] == x);
        assert(s.push(x).drop_first() =~= Seq::empty());
        assert(enc_assign_list(s.push(x).drop_first()) =~= Seq::<u8>::empty());
        assert(enc_assign_list(s) =~= Seq::<u8>::empty());
        assert(enc_assign_list(s.push(x)) =~= enc_assign_list(s) + enc_assign_pair(x));
    } else {
        assert(s.push(x)[0] == s[0]);
        assert(s.push(x).drop_first() =~= s.drop_first().push(x));
        lemma_enc_assign_push(s.drop_first(), x);
        assert(enc_assign_list(s.push(x)) =~= enc_assign_list(s) + enc_assign_pair(x));
    }
}

pub proof fn lemma_enc_error_push(s: Seq<ErrorV>, x: ErrorV)
    ensures
        enc_error_list(s.push(x)) == enc_error_list(s) + enc_error(x),
    decreases s.len(),
{
    if s.len() == 0 {
        assert(s.push(x)[0] == x);
        assert(s.push(x).drop_first() =~= Seq::empty());
        assert(enc_error_list(s.push(x).drop_first()) =~= Seq::<u8>::empty());
        assert(enc_error_list(s) =~= Seq::<u8>::empty());
        assert(enc_error_list(s.push(x)) =~= enc_error_list(s) + enc_error(x));
    } else {
        assert(s.push(x)[0] == s[0]);
        assert(s.push(x).drop_first() =~= s.drop_first().push(x));
        lemma_enc_error_push(s.drop_first(), x);
        assert(enc_error_list(s.push(x)) =~= enc_error_list(s) + enc_error(x));
    }
}

fn ver_byte(v: VerNo) -> (r: u8)
    ensures
        r == ver_tag(v),
{
    match v {
        VerNo::V1 => 1,
    }
}

fn occ_byte(o: Occurrence) -> (r: u8)
    ensures
        r == occ_tag(o),
{
    match o {
        Occurrence::Once => 0,
        Occurrence::ZeroOrOne => 1,
        Occurrence::OnceOrMore => 2,
        Occurrence::ZeroOrMore => 3,
    }
}

fn owned_byte(o: OwnedIface) -> (r: u8)
    ensures
        r == owned_tag(o),
{
    match o {
        OwnedIface::Rights => 0,
        OwnedIface::Amount => 1,
    }
}

fn req_byte(r0: Req) -> (r: u8)
    ensures
        r == req_tag(r0),
{
    match r0 {
        Req::Optional => 0,
        Req::Required => 1,
        Req::OneOrMore => 2,
        Req::NoneOrMore => 3,
    }
}

fn push_u64(out: &mut Vec<u8>, x: u64)
    ensures
        final(out)@ == old(out)@ + enc_u64(x),
{
    out.push((x & 0xff) as u8);
    out.push(((x >> 8) & 0xff) as u8);
    out.push(((x >> 16) & 0xff) as u8);
    out.push(((x >> 24) & 0xff) as u8);
    out.push(((x >> 32) & 0xff) as u8);
    out.push(((x >> 40) & 0xff) as u8);
    out.push(((x >> 48) & 0xff) as u8);
    out.push(((x >> 56) & 0xff) as u8);
    proof {
        assert(out@ =~= old(out)@ + enc_u64(x));
    }
}

fn push_bytes(out: &mut Vec<u8>, b: &Vec<u8>)
    requires
        b@.len() <= 255,
    ensures
        final(out)@ == old(out)@ + enc_bytes(b@),
{
    out.push(b.len() as u8);
    let mut i: usize = 0;
    while i < b.len()
        invariant
            0 <= i <= b@.len(),
            b@.len() <= 255,
            out@ == old(out)@ + seq![(b@.len() as u8)] + b@.take(i as int),
        decreases b@.len() - i,
    {
        out.push(b[i]);
        proof {
            assert(b@.take(i + 1) =~= b@.take(i as int).push(b@[i as int]));
            assert(out@ =~= old(out)@ + seq![(b@.len() as u8)] + b@.take(i + 1));
        }
        i = i + 1;
    }
    proof {
        assert(b@.take(b@.len() as int) =~= b@);
        assert(out@ =~= old(out)@ + enc_bytes(b@));
    }
}

fn push_opt_type(out: &mut Vec<u8>, o: &Option<TypeId>)
    ensures
        final(out)@ == old(out)@ + enc_opt_type(*o),
{
    match o {
        None => {
            out.push(0);
            proof {
                assert(out@ =~= old(out)@ + enc_opt_type(None::<TypeId>));
            }
        },
        Some(t) => {
            out.push(1);
            push_u64(out, t.0);
            proof {
                assert(out@ =~= old(out)@ + enc_opt_type(Some(*t)));
            }
        },
    }
}

fn push_opt_name(out: &mut Vec<u8>, o: &Option<Vec<u8>>)
    requires
        match *o {
            Some(n) => n@.len() <= 255,
            None => true,
        },
    ensures
        final(out)@ == old(out)@ + enc_opt_name(crate::iface::view_opt_name(*o)),
{
    match o {
        None => {
            out.push(0);
            proof {
                assert(out@ =~= old(out)@ + enc_opt_name(None::<Seq<u8>>));
            }
        },
        Some(n) => {
            out.push(1);
            push_bytes(out, n);
            proof {
                assert(out@ =~= old(out)@ + enc_opt_name(Some(n@)));
            }
        },
    }
}

fn push_occ_map(out: &mut Vec<u8>, m: &Vec<(Vec<u8>, Occurrence)>)
    requires
        crate::iface::wf_keyed(crate::iface::view_occ_map(m@)),
    ensures
        final(out)@ == old(out)@ + seq![(m@.len() as u8)] + enc_occ_list(crate::iface::view_occ_map(m@)),
{
    let ghost v = crate::iface::view_occ_map(m@);
    out.push(m.len() as u8);
    proof {
        assert(v.take(0) =~= Seq::empty());
        assert(out@ =~= old(out)@ + seq![(m@.len() as u8)] + enc_occ_list(v.take(0)));
    }
    let mut i: usize = 0;
    while i < m.len()
        invariant
            0 <= i <= m@.len(),
            v == crate::iface::view_occ_map(m@),
            crate::iface::wf_keyed(v),
            out@ == old(out)@ + seq![(m@.len() as u8)] + enc_occ_list(v.take(i as int)),
        decreases m@.len() - i,
    {
        proof {
            assert(v[i as int] == (m@[i as int].0@, m@[i as int].1));
            assert(crate::ident::ascii_text(v[i as int].0));
        }
        push_bytes(out, &m[i].0);
        let tag = occ_byte(m[i].1);
        out.push(tag);
        proof {
            assert(v.take(i + 1) =~= v.take(i as int).push(v[i as int]));
            lemma_enc_occ_push(v.take(i as int), v[i as int]);
            assert(enc_occ_pair(v[i as int]) =~= enc_bytes(m@[i as int].0@) + seq![occ_tag(
                m@[i as int].1,
            )]);
            assert(out@ =~= old(out)@ + seq![(m@.len() as u8)] + enc_occ_list(v.take(i + 1)));
        }
        i = i + 1;
    }
    proof {
        assert(v.take(v.len() as int) =~= v);
    }
}

fn push_names(out: &mut Vec<u8>, m: &Vec<Vec<u8>>)
    requires
        crate::iface::wf_names(crate::iface::view_names(m@)),
    ensures
        final(out)@ == old(out)@ + seq![(m@.len() as u8)] + enc_name_list(crate::iface::view_names(m@)),
{
    let ghost v = crate::iface::view_names(m@);
    out.push(m.len() as u8);
    proof {
        assert(v.take(0) =~= Seq::empty());
        assert(out@ =~= old(out)@ + seq![(m@.len() as u8)] + enc_name_list(v.take(0)));
    }
    let mut i: usize = 0;
    while i < m.len()
        invariant
            0 <= i <= m@.len(),
            v == crate::iface::view_names(m@),
            crate::iface::wf_names(v),
            out@ == old(out)@ + seq![(m@.len() as u8)] + enc_name_list(v.take(i as int)),
        decreases m@.len() - i,
    {
        proof {
            assert(v[i as int] == m@[i as int]@);
            assert(crate::ident::ascii_text(v[i as int]));
        }
        push_bytes(out, &m[i]);
        proof {
            assert(v.take(i + 1) =~= v.take(i as int).push(v[i as int]));
            lemma_enc_name_push(v.take(i as int), v[i as int]);
            assert(out@ =~= old(out)@ + seq![(m@.len() as u8)] + enc_name_list(v.take(i + 1)));
        }
        i = i + 1;
    }
    proof {
        assert(v.take(v.len() as int) =~= v);
    }
}

fn push_codes(out: &mut Vec<u8>, m: &Vec<u8>)
    requires
        m@.len() <= 255,
    ensures
        final(out)@ == old(out)@ + seq![(m@.len() as u8)] + enc_code_list(m@),
{
    out.push(m.len() as u8);
    proof {
        assert(m@.take(0) =~= Seq::empty());
        assert(out@ =~= old(out)@ + seq![(m@.len() as u8)] + enc_code_list(m@.take(0)));
    }
    let mut i: usize = 0;
    while i < m.len()
        invariant
            0 <= i <= m@.len(),
            m@.len() <= 255,
            out@ == old(out)@ + seq![(m@.len() as u8)] + enc_code_list(m@.take(i as int)),
        decreases m@.len() - i,
    {
        out.push(m[i]);
        proof {
            assert(m@.take(i + 1) =~= m@.take(i as int).push(m@[i as int]));
            lemma_enc_code_push(m@.take(i as int), m@[i as int]);
            assert(out@ =~= old(out)@ + seq![(m@.len() as u8)] + enc_code_list(m@.take(i + 1)));
        }
        i = i + 1;
    }
    proof {
        assert(m@.take(m@.len() as int) =~= m@);
    }
}

fn push_globals(out: &mut Vec<u8>, m: &Vec<(Vec<u8>, GlobalIface)>)
    requires
        crate::iface::wf_keyed(m@.map_values(|p: (Vec<u8>, GlobalIface)| (p.0@, p.1))),
    ensures
        final(out)@ == old(out)@ + seq![(m@.len() as u8)] + enc_global_list(
            m@.map_values(|p: (Vec<u8>, GlobalIface)| (p.0@, p.1)),
        ),
{
    let ghost v = m@.map_values(|p: (Vec<u8>, GlobalIface)| (p.0@, p.1));
    out.push(m.len() as u8);
    proof {
        assert(v.take(0) =~= Seq::empty());
        assert(out@ =~= old(out)@ + seq![(m@.len() as u8)] + enc_global_list(v.take(0)));
    }
    let mut i: usize = 0;
    while i < m.len()
        invariant
            0 <= i <= m@.len(),
            v == m@.map_values(|p: (Vec<u8>, GlobalIface)| (p.0@, p.1)),
            crate::iface::wf_keyed(v),
            out@ == old(out)@ + seq![(m@.len() as u8)] + enc_global_list(v.take(i as int)),
        decreases m@.len() - i,
    {
        proof {
            assert(v[i as int] == (m@[i as int].0@, m@[i as int].1));
            assert(crate::ident::ascii_text(v[i as int].0));
        }
        push_bytes(out, &m[i].0);
        push_u64(out, m[i].1.sem_id.0);
        let tag = occ_byte(m[i].1.occ);
        out.push(tag);
        proof {
            assert(v.take(i + 1) =~= v.take(i as int).push(v[i as int]));
            lemma_enc_global_push(v.take(i as int), v[i as int]);
            assert(enc_global_pair(v[i as int]) =~= enc_bytes(m@[i as int].0@) + enc_u64(
                m@[i as int].1.sem_id.0,
            ) + seq![occ_tag(m@[i as int].1.occ)]);
            assert(out@ =~= old(out)@ + seq![(m@.len() as u8)] + enc_global_list(v.take(i + 1)));
        }
        i = i + 1;
    }
    proof {
        assert(v.take(v.len() as int) =~= v);
    }
}

fn push_assigns(out: &mut Vec<u8>, m: &Vec<(Vec<u8>, AssignIface)>)
    requires
        crate::iface::wf_keyed(m@.map_values(|p: (Vec<u8>, AssignIface)| (p.0@, p.1))),
    ensures
        final(out)@ == old(out)@ + seq![(m@.len() as u8)] + enc_assign_list(
            m@.map_values(|p: (Vec<u8>, AssignIface)| (p.0@, p.1)),
        ),
{
    let ghost v = m@.map_values(|p: (Vec<u8>, AssignIface)| (p.0@, p.1));
    out.push(m.len() as u8);
    proof {
        assert(v.take(0) =~= Seq::empty());
        assert(out@ =~= old(out)@ + seq![(m@.len() as u8)] + enc_assign_list(v.take(0)));
    }
    let mut i: usize = 0;
    while i < m.len()
        invariant
            0 <= i <= m@.len(),
            v == m@.map_values(|p: (Vec<u8>, AssignIface)| (p.0@, p.1)),
            crate::iface::wf_keyed(v),
            out@ == old(out)@ + seq![(m@.len() as u8)] + enc_assign_list(v.take(i as int)),
        decreases m@.len() - i,
    {
        proof {
            assert(v[i as int] == (m@[i as int].0@, m@[i as int].1));
            assert(crate::ident::ascii_text(v[i as int].0));
        }
        push_bytes(out, &m[i].0);
        let t1 = owned_byte(m[i].1.owned_state);
        out.push(t1);
        let t2: u8 = if m[i].1.public {
            1
        } else {
            0
        };
        out.push(t2);
        let t3 = req_byte(m[i].1.req);
        out.push(t3);
        proof {
            assert(v.take(i + 1) =~= v.take(i as int).push(v[i as int]));
            lemma_enc_assign_push(v.take(i as int), v[i as int]);
            assert(enc_assign_pair(v[i as int]) =~= enc_bytes(m@[i as int].0@) + seq![
                owned_tag(m@[i as int].1.owned_state),
                bool_byte(m@[i as int].1.public),
                req_tag(m@[i as int].1.req),
            ]);
            assert(out@ =~= old(out)@ + seq![(m@.len() as u8)] + enc_assign_list(v.take(i + 1)));
        }
        i = i + 1;
    }
    proof {
        assert(v.take(v.len() as int) =~= v);
    }
}

/// The mathematical value of an error-map entry list.
pub open spec fn view_errors(s: Seq<(crate::iface::Variant, Vec<u8>)>) -> Seq<ErrorV> {
    s.map_values(
        |p: (crate::iface::Variant, Vec<u8>)| ErrorV {
            code: p.0.code,
            name: p.0.name@,
            description: p.1@,
        },
    )
}

fn push_errors(out: &mut Vec<u8>, m: &Vec<(crate::iface::Variant, Vec<u8>)>)
    requires
        m@.len() <= 255,
        forall|i: int| 0 <= i < m@.len() ==> (#[trigger] m@[i]).0.name@.len() <= 255
            && m@[i].1@.len() <= 255,
    ensures
        final(out)@ == old(out)@ + seq![(m@.len() as u8)] + enc_error_list(view_errors(m@)),
{
    let ghost v = view_errors(m@);
    out.push(m.len() as u8);
    proof {
        assert(v.take(0) =~= Seq::empty());
        assert(out@ =~= old(out)@ + seq![(m@.len() as u8)] + enc_error_list(v.take(0)));
    }
    let mut i: usize = 0;
    while i < m.len()
        invariant
            0 <= i <= m@.len(),
            v == view_errors(m@),
            forall|j: int| 0 <= j < m@.len() ==> (#[trigger] m@[j]).0.name@.len() <= 255
                && m@[j].1@.len() <= 255,
            out@ == old(out)@ + seq![(m@.len() as u8)] + enc_error_list(v.take(i as int)),
        decreases m@.len() - i,
    {
        proof {
            assert(v[i as int] == ErrorV {
                code: m@[i as int].0.code,
                name: m@[i as int].0.name@,
                description: m@[i as int].1@,
            });
        }
        out.push(m[i].0.code);
        push_bytes(out, &m[i].0.name);
        push_bytes(out, &m[i].1);
        proof {
            assert(v.take(i + 1) =~= v.take(i as int).push(v[i as int]));
            lemma_enc_error_push(v.take(i as int), v[i as int]);
            assert(enc_error(v[i as int]) =~= seq![m@[i as int].0.code] + enc_bytes(
                m@[i as int].0.name@,
            ) + enc_bytes(m@[i as int].1@));
            assert(out@ =~= old(out)@ + seq![(m@.len() as u8)] + enc_error_list(v.take(i + 1)));
        }
        i = i + 1;
    }
    proof {
        assert(v.take(v.len() as int) =~= v);
    }
}

fn push_genesis(out: &mut Vec<u8>, g: &GenesisIface)
    requires
        g@.wf(),
    ensures
        final(out)@ == old(out)@ + enc_genesis(g@),
{
    push_opt_type(out, &g.metadata);
    push_occ_map(out, &g.globals);
    push_occ_map(out, &g.assignments);
    push_names(out, &g.valencies);
    push_codes(out, &g.errors);
    proof {
        assert(out@ =~= old(out)@ + enc_genesis(g@));
    }
}

#[verifier::rlimit(60)]
fn push_transition(out: &mut Vec<u8>, t: &TransitionIface)
    requires
        t@.wf(),
    ensures
        final(out)@ == old(out)@ + enc_transition(t@),
{
    let b: u8 = if t.optional {
        1
    } else {
        0
    };
    out.push(b);
    push_opt_type(out, &t.metadata);
    push_occ_map(out, &t.globals);
    push_occ_map(out, &t.inputs);
    push_occ_map(out, &t.assignments);
    push_names(out, &t.valencies);
    push_codes(out, &t.errors);
    proof {
        match &t.default_assignment {
            Some(_) => {
                assert(crate::ident::ascii_text(t@.default_assignment.unwrap()));
            },
            None => {},
        }
    }
    push_opt_name(out, &t.default_assignment);
    proof {
        assert(out@ =~= old(out)@ + enc_transition(t@));
    }
}

fn push_transs(out: &mut Vec<u8>, m: &Vec<(Vec<u8>, TransitionIface)>)
    requires
        crate::iface::wf_keyed(m@.map_values(|p: (Vec<u8>, TransitionIface)| (p.0@, p.1@))),
        forall|i: int| 0 <= i < m@.len() ==> (#[trigger] m@[i]).1@.wf(),
    ensures
        final(out)@ == old(out)@ + seq![(m@.len() as u8)] + enc_trans_list(
            m@.map_values(|p: (Vec<u8>, TransitionIface)| (p.0@, p.1@)),
        ),
{
    let ghost v = m@.map_values(|p: (Vec<u8>, TransitionIface)| (p.0@, p.1@));
    out.push(m.len() as u8);
    proof {
        assert(v.take(0) =~= Seq::empty());
        assert(out@ =~= old(out)@ + seq![(m@.len() as u8)] + enc_trans_list(v.take(0)));
    }
    let mut i: usize = 0;
    while i < m.len()
        invariant
            0 <= i <= m@.len(),
            v == m@.map_values(|p: (Vec<u8>, TransitionIface)| (p.0@, p.1@)),
            crate::iface::wf_keyed(v),
            forall|j: int| 0 <= j < m@.len() ==> (#[trigger] m@[j]).1@.wf(),
            out@ == old(out)@ + seq![(m@.len() as u8)] + enc_trans_list(v.take(i as int)),
        decreases m@.len() - i,
    {
        proof {
            assert(v[i as int] == (m@[i as int].0@, m@[i as int].1@));
            assert(crate::ident::ascii_text(v[i as int].0));
        }
        push_bytes(out, &m[i].0);
        push_transition(out, &m[i].1);
        proof {
            assert(v.take(i + 1) =~= v.take(i as int).push(v[i as int]));
            lemma_enc_trans_push(v.take(i as int), v[i as int]);
            assert(out@ =~= old(out)@ + seq![(m@.len() as u8)] + enc_trans_list(v.take(i + 1)));
        }
        i = i + 1;
    }
    proof {
        assert(v.take(v.len() as int) =~= v);
    }
}

impl Iface {
    /// Canonical byte encoding of the schema: a pure function of the schema
    /// value, serialized in key-sorted order.
    pub fn encode(&self) -> (r: Vec<u8>)
        requires
            self@.wf(),
        ensures
            r@ == encode_spec(self@),
    {
        let mut out: Vec<u8> = Vec::new();
        let vb = ver_byte(self.version);
        out.push(vb);
        push_bytes(&mut out, &self.name);
        push_globals(&mut out, &self.global_state);
        push_assigns(&mut out, &self.assignments);
        push_names(&mut out, &self.valencies);
        push_genesis(&mut out, &self.genesis);
        proof {
            let vt = self.transitions@.map_values(
                |p: (Vec<u8>, TransitionIface)| (p.0@, p.1@),
            );
            assert(vt =~= self@.transitions);
            assert forall|i: int| 0 <= i < self.transitions@.len() implies (
            #[trigger] self.transitions@[i]).1@.wf() by {
                assert(self@.transitions[i].1 == self.transitions@[i].1@);
                assert(self@.transitions[i].1.wf());
            }
            let ve = self.extensions@.map_values(
                |p: (Vec<u8>, TransitionIface)| (p.0@, p.1@),
            );
            assert(ve =~= self@.extensions);
            assert forall|i: int| 0 <= i < self.extensions@.len() implies (
            #[trigger] self.extensions@[i]).1@.wf() by {
                assert(self@.extensions[i].1 == self.extensions@[i].1@);
                assert(self@.extensions[i].1.wf());
            }
        }
        push_transs(&mut out, &self.transitions);
        push_transs(&mut out, &self.extensions);
        proof {
            assert forall|i: int| 0 <= i < self.errors@.len() implies (
            #[trigger] self.errors@[i]).0.name@.len() <= 255 && self.errors@[i].1@.len()
                <= 255 by {
                assert(self@.errors[i].name == self.errors@[i].0.name@);
                assert(crate::ident::ascii_text(self@.errors[i].name));
                assert(crate::ident::ascii_text(self@.errors[i].description));
            }
        }
        push_errors(&mut out, &self.errors);
        proof {
            match &self.default_operation {
                Some(_) => {
                    assert(crate::ident::ascii_text(self@.default_operation.unwrap()));
                },
                None => {},
            }
        }
        push_opt_name(&mut out, &self.default_operation);
        push_u64(&mut out, self.types_id);
        proof {
            assert(view_errors(self.errors@) =~= self@.errors);
            assert(out@ =~= encode_spec(self@));
        }
        out
    }

    /// The content-derived interface identity: the hash of the canonical
    /// encoding. Comparing this one value is what prevents type confusion
    /// between differently-shaped schemas.
    pub fn iface_id(&self) -> (r: IfaceId)
        requires
            self@.wf(),
        ensures
            r.bytes@ == sha256_of(encode_spec(self@)),
            r.wf(),
    {
        let bytes = self.encode();
        IfaceId { bytes: sha256(bytes.as_slice()) }
    }
}

/// Determinism carries through to the identity: equivalent registry
/// snapshots give byte-identical canonical encodings and equal identities.
pub proof fn lemma_rgb25_identity_deterministic(
    a: crate::builder::TypeRegistry,
    b: crate::builder::TypeRegistry,
)
    requires
        a.id == b.id,
        a.table() == b.table(),
    ensures
        encode_spec(crate::builder::rgb25_spec(a.table(), a.id)) == encode_spec(
            crate::builder::rgb25_spec(b.table(), b.id),
        ),
        sha256_of(encode_spec(crate::builder::rgb25_spec(a.table(), a.id))) == sha256_of(
            encode_spec(crate::builder::rgb25_spec(b.table(), b.id)),
        ),
{
    crate::builder::lemma_rgb25_deterministic(a, b);
}

pub proof fn lemma_enc_trans_push(s: Seq<(Seq<u8>, TransitionV)>, x: (Seq<u8>, TransitionV))
    ensures
        enc_trans_list(s.push(x)) == enc_trans_list(s) + enc_trans_pair(x),
    decreases s.len(),
{
    if s.len() == 0 {
        assert(s.push(x)[0] == x);
        assert(s.push(x).drop_first() =~= Seq::empty());
        assert(enc_trans_list(s.push(x).drop_first()) =~= Seq::<u8>::empty());
        assert(enc_trans_list(s) =~= Seq::<u8>::empty());
        assert(enc_trans_list(s.push(x)) =~= enc_trans_list(s) + enc_trans_pair(x));
    } else {
        assert(s.push(x)[0] == s[0]);
        assert(s.push(x).drop_first() =~= s.drop_first().push(x));
        lemma_enc_trans_push(s.drop_first(), x);
        assert(enc_trans_list(s.push(x)) =~= enc_trans_list(s) + enc_trans_pair(x));
    }
}

} // verus!
