//! Textual export of a schema: the canonical bytes wrapped in an armored
//! envelope, and the inverse decoding. A decoded schema is accepted only if
//! it is well-formed and re-encodes to exactly the input, so decoding is
//! sound by construction.

use vstd::prelude::*;
use crate::codec::{
    bool_byte, enc_assign_list, enc_bytes, enc_code_list, enc_error_list, enc_genesis,
    enc_global_list, enc_name_list, enc_occ_list, enc_opt_name, enc_opt_type, enc_trans_list,
    enc_transition, enc_u64, encode_spec, occ_tag, owned_tag, req_tag, ver_tag, view_errors,
};
use crate::iface::{
    AssignIface, ErrorV, GenesisIface, GenesisV, GlobalIface, Iface, IfaceV, OwnedIface, Req,
    TransitionIface, TransitionV, TypeId, Variant, VerNo,
};
use crate::ident::{bytes_eq, ident, ident_of};
use crate::occurrence::Occurrence;

verus! {

/// One lowercase hex digit.
pub open spec fn hex_digit(n: u8) -> u8 {
    if n < 10 {
        (48 + n) as u8
    } else {
        (87 + n) as u8
    }
}

/// Lowercase hex text of a byte string, two digits per byte.
pub open spec fn hex_of(b: Seq<u8>) -> Seq<u8>
    decreases b.len(),
{
    if b.len() == 0 {
        Seq::empty()
    } else {
        seq![hex_digit(b[0] / 16), hex_digit(b[0] % 16)] + hex_of(b.drop_first())
    }
}

pub proof fn lemma_hex_push(s: Seq<u8>, x: u8)
    ensures
        hex_of(s.push(x)) == hex_of(s) + seq![hex_digit(x / 16), hex_digit(x % 16)],
    decreases s.len(),
{
    if s.len() == 0 {
        assert(s.push(x)[0] == x);
        assert(s.push(x).drop_first() =~= Seq::empty());
        assert(hex_of(s.push(x).drop_first()) =~= Seq::<u8>::empty());
        assert(hex_of(s) =~= Seq::<u8>::empty());
        assert(hex_of(s.push(x)) =~= hex_of(s) + seq![hex_digit(x / 16), hex_digit(x % 16)]);
    } else {
        assert(s.push(x)[0] == s[0]);
        assert(s.push(x).drop_first() =~= s.drop_first().push(x));
        lemma_hex_push(s.drop_first(), x);
        assert(hex_of(s.push(x)) =~= hex_of(s) + seq![hex_digit(x / 16), hex_digit(x % 16)]);
    }
}

/// Hex text of a byte string.
pub fn to_hex(v: &[u8]) -> (r: Vec<u8>)
    ensures
        r@ == hex_of(v@),
{
    let mut out: Vec<u8> = Vec::new();
    proof {
        assert(v@.take(0) =~= Seq::empty());
        assert(out@ =~= hex_of(v@.take(0)));
    }
    let mut i: usize = 0;
    while i < v.len()
        invariant
            0 <= i <= v@.len(),
            out@ == hex_of(v@.take(i as int)),
        decreases v@.len() - i,
    {
        let b = v[i];
        let hi: u8 = b / 16;
        let lo: u8 = b % 16;
        let hc: u8 = if hi < 10 {
            48 + hi
        } else {
            87 + hi
        };
        let lc: u8 = if lo < 10 {
            48 + lo
        } else {
            87 + lo
        };
        out.push(hc);
        out.push(lc);
        proof {
            assert(v@.take(i + 1) =~= v@.take(i as int).push(v@[i as int]));
            lemma_hex_push(v@.take(i as int), v@[i as int]);
            assert(out@ =~= hex_of(v@.take(i + 1)));
        }
        i = i + 1;
    }
    proof {
        assert(v@.take(v@.len() as int) =~= v@);
    }
    out
}

/// Opening line of the armored envelope.
pub open spec fn armor_header() -> Seq<u8> {
    ident_of("-----BEGIN RGB INTERFACE-----\n")
}

/// Closing line of the armored envelope.
pub open spec fn armor_footer() -> Seq<u8> {
    ident_of("\n-----END RGB INTERFACE-----\n")
}

/// The armored text of a canonical byte string: header, hex body, footer.
pub open spec fn armor_spec(bytes: Seq<u8>) -> Seq<u8> {
    armor_header() + hex_of(bytes) + armor_footer()
}

fn header_bytes() -> (r: Vec<u8>)
    ensures
        r@ == armor_header(),
{
    proof {
        reveal_strlit("-----BEGIN RGB INTERFACE-----\n");
    }
    ident("-----BEGIN RGB INTERFACE-----\n")
}

fn footer_bytes() -> (r: Vec<u8>)
    ensures
        r@ == armor_footer(),
{
    proof {
        reveal_strlit("\n-----END RGB INTERFACE-----\n");
    }
    ident("\n-----END RGB INTERFACE-----\n")
}

fn append_bytes(out: &mut Vec<u8>, b: &[u8])
    ensures
        final(out)@ == old(out)@ + b@,
{
    let mut i: usize = 0;
    while i < b.len()
        invariant
            0 <= i <= b@.len(),
            out@ == old(out)@ + b@.take(i as int),
        decreases b@.len() - i,
    {
        out.push(b[i]);
        proof {
            assert(b@.take(i + 1) =~= b@.take(i as int).push(b@[i as int]));
            assert(out@ =~= old(out)@ + b@.take(i + 1));
        }
        i = i + 1;
    }
    proof {
        assert(b@.take(b@.len() as int) =~= b@);
    }
}

impl Iface {
    /// The armored textual envelope of the schema's canonical encoding.
    pub fn to_armored(&self) -> (r: Vec<u8>)
        requires
            self@.wf(),
        ensures
            r@ == armor_spec(encode_spec(self@)),
    {
        let body = self.encode();
        let hex = to_hex(body.as_slice());
        let mut out = header_bytes();
        append_bytes(&mut out, hex.as_slice());
        let footer = footer_bytes();
        append_bytes(&mut out, footer.as_slice());
        proof {
            assert(out@ =~= armor_spec(encode_spec(self@)));
        }
        out
    }
}
// ---------------------------------------------------------------------------
// Decoding. A reader with a poison flag walks the bytes; each reading
// function promises that whenever the remaining input starts with a valid
// fragment, reading succeeds and yields exactly that fragment's value. That
// makes decoding complete: every canonical encoding of a well-formed schema
// is accepted, and accepted as that schema.
// ---------------------------------------------------------------------------

/// The remaining input starts with one byte.
pub open spec fn frag_byte(rest: Seq<u8>, x: u8, t: Seq<u8>) -> bool {
    rest == seq![x] + t
}

/// The remaining input starts with a length-prefixed byte string.
pub open spec fn frag_bytes(rest: Seq<u8>, n: Seq<u8>, t: Seq<u8>) -> bool {
    n.len() <= 255 && rest == enc_bytes(n) + t
}

/// The remaining input starts with eight little-endian bytes.
pub open spec fn frag_u64(rest: Seq<u8>, x: u64, t: Seq<u8>) -> bool {
    rest == enc_u64(x) + t
}

/// The remaining input starts with an occurrence tag.
pub open spec fn frag_occ(rest: Seq<u8>, o: Occurrence, t: Seq<u8>) -> bool {
    rest == seq![occ_tag(o)] + t
}

/// The remaining input starts with an encoded optional type reference.
pub open spec fn frag_opt_type(rest: Seq<u8>, o: Option<TypeId>, t: Seq<u8>) -> bool {
    rest == enc_opt_type(o) + t
}

/// The remaining input starts with an encoded optional name.
pub open spec fn frag_opt_name(rest: Seq<u8>, o: Option<Seq<u8>>, t: Seq<u8>) -> bool {
    &&& match o {
        Some(n) => n.len() <= 255,
        None => true,
    }
    &&& rest == enc_opt_name(o) + t
}

pub open spec fn occ_keys_short(m: Seq<(Seq<u8>, Occurrence)>) -> bool {
    forall|i: int| 0 <= i < m.len() ==> (#[trigger] m[i]).0.len() <= 255
}

/// The remaining input starts with an encoded occurrence map.
pub open spec fn frag_occ_map(rest: Seq<u8>, m: Seq<(Seq<u8>, Occurrence)>, t: Seq<u8>) -> bool {
    m.len() <= 255 && occ_keys_short(m) && rest == seq![m.len() as u8] + enc_occ_list(m) + t
}

pub open spec fn names_short(m: Seq<Seq<u8>>) -> bool {
    forall|i: int| 0 <= i < m.len() ==> (#[trigger] m[i]).len() <= 255
}

/// The remaining input starts with an encoded name set.
pub open spec fn frag_names(rest: Seq<u8>, m: Seq<Seq<u8>>, t: Seq<u8>) -> bool {
    m.len() <= 255 && names_short(m) && rest == seq![m.len() as u8] + enc_name_list(m) + t
}

/// The remaining input starts with an encoded error-code set.
pub open spec fn frag_codes(rest: Seq<u8>, m: Seq<u8>, t: Seq<u8>) -> bool {
    m.len() <= 255 && rest == seq![m.len() as u8] + enc_code_list(m) + t
}

pub open spec fn g_keys_short(m: Seq<(Seq<u8>, GlobalIface)>) -> bool {
    forall|i: int| 0 <= i < m.len() ==> (#[trigger] m[i]).0.len() <= 255
}

/// The remaining input starts with an encoded global-state map.
pub open spec fn frag_globals(rest: Seq<u8>, m: Seq<(Seq<u8>, GlobalIface)>, t: Seq<u8>) -> bool {
    m.len() <= 255 && g_keys_short(m) && rest == seq![m.len() as u8] + enc_global_list(m) + t
}

pub open spec fn a_keys_short(m: Seq<(Seq<u8>, AssignIface)>) -> bool {
    forall|i: int| 0 <= i < m.len() ==> (#[trigger] m[i]).0.len() <= 255
}

/// The remaining input starts with an encoded assignment map.
pub open spec fn frag_assigns(rest: Seq<u8>, m: Seq<(Seq<u8>, AssignIface)>, t: Seq<u8>) -> bool {
    m.len() <= 255 && a_keys_short(m) && rest == seq![m.len() as u8] + enc_assign_list(m) + t
}

pub open spec fn errs_short(m: Seq<ErrorV>) -> bool {
    forall|i: int| 0 <= i < m.len()
        ==> (#[trigger] m[i]).name.len() <= 255 && m[i].description.len() <= 255
}

/// The remaining input starts with an encoded error map.
pub open spec fn frag_errors(rest: Seq<u8>, m: Seq<ErrorV>, t: Seq<u8>) -> bool {
    m.len() <= 255 && errs_short(m) && rest == seq![m.len() as u8] + enc_error_list(m) + t
}

/// The remaining input starts with an encoded genesis schema.
pub open spec fn frag_genesis(rest: Seq<u8>, g: GenesisV, t: Seq<u8>) -> bool {
    g.wf() && rest == enc_genesis(g) + t
}

/// The remaining input starts with an encoded transition schema.
pub open spec fn frag_transition(rest: Seq<u8>, tr: TransitionV, t: Seq<u8>) -> bool {
    tr.wf() && rest == enc_transition(tr) + t
}

pub open spec fn transs_ok(m: Seq<(Seq<u8>, TransitionV)>) -> bool {
    forall|i: int| 0 <= i < m.len() ==> (#[trigger] m[i]).0.len() <= 255 && m[i].1.wf()
}

/// The remaining input starts with an encoded transition map.
pub open spec fn frag_transs(rest: Seq<u8>, m: Seq<(Seq<u8>, TransitionV)>, t: Seq<u8>) -> bool {
    m.len() <= 255 && transs_ok(m) && rest == seq![m.len() as u8] + enc_trans_list(m) + t
}

/// The whole input is the canonical encoding of a well-formed schema.
pub open spec fn frag_iface(rest: Seq<u8>, v: IfaceV, t: Seq<u8>) -> bool {
    v.wf() && rest == encode_spec(v) + t
}


/// The remaining input starts with an owned-state tag.
pub open spec fn frag_owned(rest: Seq<u8>, o: OwnedIface, t: Seq<u8>) -> bool {
    rest == seq![owned_tag(o)] + t
}

/// The remaining input starts with an assignment-requirement tag.
pub open spec fn frag_req(rest: Seq<u8>, o: Req, t: Seq<u8>) -> bool {
    rest == seq![req_tag(o)] + t
}

/// A bounds-checked cursor over the bytes being decoded; a failed read
/// poisons it for good.
struct Rd<'a> {
    buf: &'a [u8],
    pos: usize,
    ok: bool,
}

impl<'a> Rd<'a> {
    spec fn wf(self) -> bool {
        self.pos <= self.buf@.len()
    }

    spec fn rest(self) -> Seq<u8> {
        self.buf@.skip(self.pos as int)
    }

    fn byte(&mut self) -> (r: u8)
        requires
            old(self).wf(),
        ensures
            final(self).buf == old(self).buf,
            final(self).wf(),
            final(self).ok ==> old(self).ok,
            forall|x: u8, t: Seq<u8>| (old(self).ok && #[trigger] frag_byte(
                old(self).rest(),
                x,
                t,
            )) ==> (final(self).ok && r == x && final(self).rest() == t),
    {
        if self.ok && self.pos < self.buf.len() {
            let b = self.buf[self.pos];
            self.pos = self.pos + 1;
            proof {
                assert forall|x: u8, t: Seq<u8>| (old(self).ok && #[trigger] frag_byte(
                    old(self).rest(),
                    x,
                    t,
                )) implies (self.ok && b == x && self.rest() == t) by {
                    assert(old(self).rest()[0] == old(self).buf@[old(self).pos as int]);
                    assert((seq![x] + t)[0] == x);
                    assert(self.rest() =~= old(self).rest().drop_first());
                    assert((seq![x] + t).drop_first() =~= t);
                }
            }
            b
        } else {
            self.ok = false;
            proof {
                assert(old(self).ok ==> old(self).rest().len() == 0);
                assert forall|x: u8, t: Seq<u8>| (old(self).ok && #[trigger] frag_byte(
                    old(self).rest(),
                    x,
                    t,
                )) implies (self.ok && 0 == x && self.rest() == t) by {
                    assert(old(self).rest().len() >= 1);
                }
            }
            0
        }
    }

    #[verifier::rlimit(100)]
    fn name(&mut self) -> (r: Vec<u8>)
        requires
            old(self).wf(),
        ensures
            final(self).buf == old(self).buf,
            final(self).wf(),
            final(self).ok ==> old(self).ok,
            forall|n: Seq<u8>, t: Seq<u8>| (old(self).ok && #[trigger] frag_bytes(
                old(self).rest(),
                n,
                t,
            )) ==> (final(self).ok && r@ == n && final(self).rest() == t),
    {
        let ghost s0 = *self;
        let c = self.byte();
        proof {
            assert forall|n: Seq<u8>, t: Seq<u8>| (s0.ok && #[trigger] frag_bytes(s0.rest(), n, t))
                implies (self.ok && c as int == n.len() && Seq::<u8>::empty() == n.take(0)
                    && self.rest() == n.skip(0) + t) by {
                assert(enc_bytes(n) + t =~= seq![(n.len() as u8)] + (n + t));
                assert(frag_byte(s0.rest(), n.len() as u8, n + t));
                assert(n.take(0) =~= Seq::<u8>::empty());
                assert(n.skip(0) =~= n);
            }
        }
        let mut out: Vec<u8> = Vec::new();
        let mut k: u8 = 0;
        while k < c
            invariant
                self.wf(),
                self.buf == old(self).buf,
                self.ok ==> old(self).ok,
                s0 == *old(self),
                k <= c,
                out@.len() == k as int,
                forall|n: Seq<u8>, t: Seq<u8>| (s0.ok && #[trigger] frag_bytes(s0.rest(), n, t))
                    ==> (self.ok && c as int == n.len() && out@ == n.take(k as int)
                        && self.rest() == n.skip(k as int) + t),
            decreases c - k,
        {
            let ghost sp = *self;
            let ghost outp = out@;
            let b = self.byte();
            out.push(b);
            k = k + 1;
            proof {
                assert forall|n: Seq<u8>, t: Seq<u8>| (s0.ok && #[trigger] frag_bytes(
                    s0.rest(),
                    n,
                    t,
                )) implies (self.ok && c as int == n.len() && out@ == n.take(k as int)
                    && self.rest() == n.skip(k as int) + t) by {
                    assert(sp.rest() == n.skip(k - 1) + t);
                    assert(n.skip(k - 1)[0] == n[k - 1]);
                    assert(n.skip(k - 1) + t =~= seq![n[k - 1]] + (n.skip(k as int) + t));
                    assert(frag_byte(sp.rest(), n[k - 1], n.skip(k as int) + t));
                    assert(outp == n.take(k - 1));
                    assert(n.take(k - 1).push(n[k - 1]) =~= n.take(k as int));
                }
            }
        }
        proof {
            assert forall|n: Seq<u8>, t: Seq<u8>| (s0.ok && #[trigger] frag_bytes(s0.rest(), n, t))
                implies (self.ok && out@ == n && self.rest() == t) by {
                assert(n.take(n.len() as int) =~= n);
                assert(n.skip(n.len() as int) + t =~= t);
            }
        }
        out
    }

    #[verifier::rlimit(100)]
    fn word(&mut self) -> (r: u64)
        requires
            old(self).wf(),
        ensures
            final(self).buf == old(self).buf,
            final(self).wf(),
            final(self).ok ==> old(self).ok,
            forall|x: u64, t: Seq<u8>| (old(self).ok && #[trigger] frag_u64(
                old(self).rest(),
                x,
                t,
            )) ==> (final(self).ok && r == x && final(self).rest() == t),
    {
        let ghost s0 = *self;
        let b0 = self.byte();
        let ghost s1 = *self;
        let b1 = self.byte();
        let ghost s2 = *self;
        let b2 = self.byte();
        let ghost s3 = *self;
        let b3 = self.byte();
        let ghost s4 = *self;
        let b4 = self.byte();
        let ghost s5 = *self;
        let b5 = self.byte();
        let ghost s6 = *self;
        let b6 = self.byte();
        let ghost s7 = *self;
        let b7 = self.byte();
        let r: u64 = (b0 as u64) | ((b1 as u64) << 8u64) | ((b2 as u64) << 16u64) | ((b3
            as u64) << 24u64) | ((b4 as u64) << 32u64) | ((b5 as u64) << 40u64) | ((b6
            as u64) << 48u64) | ((b7 as u64) << 56u64);
        proof {
            assert forall|x: u64, t: Seq<u8>| (s0.ok && #[trigger] frag_u64(s0.rest(), x, t))
                implies (self.ok && r == x && self.rest() == t) by {
                let u7 = seq![((x >> 56u64) & 0xff) as u8] + t;
                let u6 = seq![((x >> 48u64) & 0xff) as u8] + u7;
                let u5 = seq![((x >> 40u64) & 0xff) as u8] + u6;
                let u4 = seq![((x >> 32u64) & 0xff) as u8] + u5;
                let u3 = seq![((x >> 24u64) & 0xff) as u8] + u4;
                let u2 = seq![((x >> 16u64) & 0xff) as u8] + u3;
                let u1 = seq![((x >> 8u64) & 0xff) as u8] + u2;
                assert(s0.rest() =~= seq![(x & 0xff) as u8] + u1);
                assert(frag_byte(s0.rest(), (x & 0xff) as u8, u1));
                assert(frag_byte(s1.rest(), ((x >> 8u64) & 0xff) as u8, u2));
                assert(frag_byte(s2.rest(), ((x >> 16u64) & 0xff) as u8, u3));
                assert(frag_byte(s3.rest(), ((x >> 24u64) & 0xff) as u8, u4));
                assert(frag_byte(s4.rest(), ((x >> 32u64) & 0xff) as u8, u5));
                assert(frag_byte(s5.rest(), ((x >> 40u64) & 0xff) as u8, u6));
                assert(frag_byte(s6.rest(), ((x >> 48u64) & 0xff) as u8, u7));
                assert(frag_byte(s7.rest(), ((x >> 56u64) & 0xff) as u8, t));
                assert(r == x) by (bit_vector)
                    requires
                        b0 == (x & 0xff) as u8,
                        b1 == ((x >> 8u64) & 0xff) as u8,
                        b2 == ((x >> 16u64) & 0xff) as u8,
                        b3 == ((x >> 24u64) & 0xff) as u8,
                        b4 == ((x >> 32u64) & 0xff) as u8,
                        b5 == ((x >> 40u64) & 0xff) as u8,
                        b6 == ((x >> 48u64) & 0xff) as u8,
                        b7 == ((x >> 56u64) & 0xff) as u8,
                        r == (b0 as u64) | ((b1 as u64) << 8u64) | ((b2 as u64) << 16u64) | ((
                        b3 as u64) << 24u64) | ((b4 as u64) << 32u64) | ((b5 as u64) << 40u64)
                            | ((b6 as u64) << 48u64) | ((b7 as u64) << 56u64),
                ;
            }
        }
        r
    }

    fn occurrence(&mut self) -> (r: Occurrence)
        requires
            old(self).wf(),
        ensures
            final(self).buf == old(self).buf,
            final(self).wf(),
            final(self).ok ==> old(self).ok,
            forall|o: Occurrence, t: Seq<u8>| (old(self).ok && #[trigger] frag_occ(
                old(self).rest(),
                o,
                t,
            )) ==> (final(self).ok && r == o && final(self).rest() == t),
    {
        let ghost s0 = *self;
        let b = self.byte();
        let r = match b {
            0 => Occurrence::Once,
            1 => Occurrence::ZeroOrOne,
            2 => Occurrence::OnceOrMore,
            3 => Occurrence::ZeroOrMore,
            _ => {
                self.ok = false;
                Occurrence::Once
            },
        };
        proof {
            assert forall|o: Occurrence, t: Seq<u8>| (s0.ok && #[trigger] frag_occ(
                s0.rest(),
                o,
                t,
            )) implies (self.ok && r == o && self.rest() == t) by {
                assert(frag_byte(s0.rest(), occ_tag(o), t));
            }
        }
        r
    }

    fn flag(&mut self) -> (r: bool)
        requires
            old(self).wf(),
        ensures
            final(self).buf == old(self).buf,
            final(self).wf(),
            final(self).ok ==> old(self).ok,
            forall|o: bool, t: Seq<u8>| (old(self).ok && old(self).rest() == #[trigger] (seq![
                bool_byte(o),
            ] + t)) ==> (final(self).ok && r == o && final(self).rest() == t),
    {
        let ghost s0 = *self;
        let b = self.byte();
        let r = match b {
            0 => false,
            1 => true,
            _ => {
                self.ok = false;
                false
            },
        };
        proof {
            assert forall|o: bool, t: Seq<u8>| (s0.ok && s0.rest() == #[trigger] (seq![
                bool_byte(o),
            ] + t)) implies (self.ok && r == o && self.rest() == t) by {
                assert(frag_byte(s0.rest(), bool_byte(o), t));
            }
        }
        r
    }

    fn opt_type(&mut self) -> (r: Option<TypeId>)
        requires
            old(self).wf(),
        ensures
            final(self).buf == old(self).buf,
            final(self).wf(),
            final(self).ok ==> old(self).ok,
            forall|o: Option<TypeId>, t: Seq<u8>| (old(self).ok && #[trigger] frag_opt_type(
                old(self).rest(),
                o,
                t,
            )) ==> (final(self).ok && r == o && final(self).rest() == t),
    {
        let ghost s0 = *self;
        let tag = self.byte();
        let ghost s1 = *self;
        if tag == 0 {
            proof {
                assert forall|o: Option<TypeId>, t: Seq<u8>| (s0.ok && #[trigger] frag_opt_type(
                    s0.rest(),
                    o,
                    t,
                )) implies (self.ok && None::<TypeId> == o && self.rest() == t) by {
                    match o {
                        None => {
                            assert(frag_byte(s0.rest(), 0, t));
                        },
                        Some(ti) => {
                            assert(seq![1u8] + enc_u64(ti.0) + t =~= seq![1u8] + (enc_u64(ti.0)
                                + t));
                            assert(frag_byte(s0.rest(), 1, enc_u64(ti.0) + t));
                        },
                    }
                }
            }
            None
        } else if tag == 1 {
            let x = self.word();
            proof {
                assert forall|o: Option<TypeId>, t: Seq<u8>| (s0.ok && #[trigger] frag_opt_type(
                    s0.rest(),
                    o,
                    t,
                )) implies (self.ok && Some(TypeId(x)) == o && self.rest() == t) by {
                    match o {
                        None => {
                            assert(frag_byte(s0.rest(), 0, t));
                        },
                        Some(ti) => {
                            assert(seq![1u8] + enc_u64(ti.0) + t =~= seq![1u8] + (enc_u64(ti.0)
                                + t));
                            assert(frag_byte(s0.rest(), 1, enc_u64(ti.0) + t));
                            assert(frag_u64(s1.rest(), ti.0, t));
                        },
                    }
                }
            }
            Some(TypeId(x))
        } else {
            self.ok = false;
            proof {
                assert forall|o: Option<TypeId>, t: Seq<u8>| (s0.ok && #[trigger] frag_opt_type(
                    s0.rest(),
                    o,
                    t,
                )) implies (self.ok && None::<TypeId> == o && self.rest() == t) by {
                    match o {
                        None => {
                            assert(frag_byte(s0.rest(), 0, t));
                        },
                        Some(ti) => {
                            assert(seq![1u8] + enc_u64(ti.0) + t =~= seq![1u8] + (enc_u64(ti.0)
                                + t));
                            assert(frag_byte(s0.rest(), 1, enc_u64(ti.0) + t));
                        },
                    }
                }
            }
            None
        }
    }

    fn opt_name(&mut self) -> (r: Option<Vec<u8>>)
        requires
            old(self).wf(),
        ensures
            final(self).buf == old(self).buf,
            final(self).wf(),
            final(self).ok ==> old(self).ok,
            forall|o: Option<Seq<u8>>, t: Seq<u8>| (old(self).ok && #[trigger] frag_opt_name(
                old(self).rest(),
                o,
                t,
            )) ==> (final(self).ok && view_opt_name2(r) == o && final(self).rest() == t),
    {
        let ghost s0 = *self;
        let tag = self.byte();
        let ghost s1 = *self;
        if tag == 0 {
            proof {
                assert forall|o: Option<Seq<u8>>, t: Seq<u8>| (s0.ok && #[trigger] frag_opt_name(
                    s0.rest(),
                    o,
                    t,
                )) implies (self.ok && view_opt_name2(None::<Vec<u8>>) == o && self.rest()
                    == t) by {
                    match o {
                        None => {
                            assert(frag_byte(s0.rest(), 0, t));
                        },
                        Some(n) => {
                            assert(seq![1u8] + enc_bytes(n) + t =~= seq![1u8] + (enc_bytes(n)
                                + t));
                            assert(frag_byte(s0.rest(), 1, enc_bytes(n) + t));
                        },
                    }
                }
            }
            None
        } else if tag == 1 {
            let n = self.name();
            let r = Some(n);
            proof {
                assert forall|o: Option<Seq<u8>>, t: Seq<u8>| (s0.ok && #[trigger] frag_opt_name(
                    s0.rest(),
                    o,
                    t,
                )) implies (self.ok && view_opt_name2(r) == o && self.rest() == t) by {
                    match o {
                        None => {
                            assert(frag_byte(s0.rest(), 0, t));
                        },
                        Some(nn) => {
                            assert(seq![1u8] + enc_bytes(nn) + t =~= seq![1u8] + (enc_bytes(nn)
                                + t));
                            assert(frag_byte(s0.rest(), 1, enc_bytes(nn) + t));
                            assert(frag_bytes(s1.rest(), nn, t));
                        },
                    }
                }
            }
            r
        } else {
            self.ok = false;
            proof {
                assert forall|o: Option<Seq<u8>>, t: Seq<u8>| (s0.ok && #[trigger] frag_opt_name(
                    s0.rest(),
                    o,
                    t,
                )) implies (self.ok && view_opt_name2(None::<Vec<u8>>) == o && self.rest()
                    == t) by {
                    match o {
                        None => {
                            assert(frag_byte(s0.rest(), 0, t));
                        },
                        Some(n) => {
                            assert(seq![1u8] + enc_bytes(n) + t =~= seq![1u8] + (enc_bytes(n)
                                + t));
                            assert(frag_byte(s0.rest(), 1, enc_bytes(n) + t));
                        },
                    }
                }
            }
            None
        }
    }

    fn owned_kind(&mut self) -> (r: OwnedIface)
        requires
            old(self).wf(),
        ensures
            final(self).buf == old(self).buf,
            final(self).wf(),
            final(self).ok ==> old(self).ok,
            forall|o: OwnedIface, t: Seq<u8>| (old(self).ok && #[trigger] frag_owned(
                old(self).rest(),
                o,
                t,
            )) ==> (final(self).ok && r == o && final(self).rest() == t),
    {
        let ghost s0 = *self;
        let b = self.byte();
        let r = match b {
            0 => OwnedIface::Rights,
            1 => OwnedIface::Amount,
            _ => {
                self.ok = false;
                OwnedIface::Rights
            },
        };
        proof {
            assert forall|o: OwnedIface, t: Seq<u8>| (s0.ok && #[trigger] frag_owned(
                s0.rest(),
                o,
                t,
            )) implies (self.ok && r == o && self.rest() == t) by {
                assert(frag_byte(s0.rest(), owned_tag(o), t));
            }
        }
        r
    }

    fn req_kind(&mut self) -> (r: Req)
        requires
            old(self).wf(),
        ensures
            final(self).buf == old(self).buf,
            final(self).wf(),
            final(self).ok ==> old(self).ok,
            forall|o: Req, t: Seq<u8>| (old(self).ok && #[trigger] frag_req(
                old(self).rest(),
                o,
                t,
            )) ==> (final(self).ok && r == o && final(self).rest() == t),
    {
        let ghost s0 = *self;
        let b = self.byte();
        let r = match b {
            0 => Req::Optional,
            1 => Req::Required,
            2 => Req::OneOrMore,
            3 => Req::NoneOrMore,
            _ => {
                self.ok = false;
                Req::Optional
            },
        };
        proof {
            assert forall|o: Req, t: Seq<u8>| (s0.ok && #[trigger] frag_req(
                s0.rest(),
                o,
                t,
            )) implies (self.ok && r == o && self.rest() == t) by {
                assert(frag_byte(s0.rest(), req_tag(o), t));
            }
        }
        r
    }

    #[verifier::rlimit(100)]
    fn occ_map(&mut self) -> (r: Vec<(Vec<u8>, Occurrence)>)
        requires
            old(self).wf(),
        ensures
            final(self).buf == old(self).buf,
            final(self).wf(),
            final(self).ok ==> old(self).ok,
            forall|m: Seq<(Seq<u8>, Occurrence)>, t: Seq<u8>| (old(self).ok && #[trigger] frag_occ_map(
                old(self).rest(),
                m,
                t,
            )) ==> (final(self).ok && crate::iface::view_occ_map(r@) == m && final(self).rest() == t),
    {
        let ghost s0 = *self;
        let c = self.byte();
        let mut out: Vec<(Vec<u8>, Occurrence)> = Vec::new();
        proof {
            assert forall|m: Seq<(Seq<u8>, Occurrence)>, t: Seq<u8>| (s0.ok && #[trigger] frag_occ_map(
                s0.rest(),
                m,
                t,
            )) implies (self.ok && c as int == m.len() && crate::iface::view_occ_map(out@) == m.take(0)
                && self.rest() == enc_occ_list(m.skip(0)) + t) by {
                assert(seq![(m.len() as u8)] + enc_occ_list(m) + t =~= seq![(m.len() as u8)] + (enc_occ_list(m) + t));
                assert(frag_byte(s0.rest(), m.len() as u8, enc_occ_list(m) + t));
                assert(m.take(0) =~= Seq::<(Seq<u8>, Occurrence)>::empty());
                assert(crate::iface::view_occ_map(out@) =~= Seq::<(Seq<u8>, Occurrence)>::empty());
                assert(m.skip(0) =~= m);
            }
        }
        let mut k: u8 = 0;
        while k < c
            invariant
                self.wf(),
                self.buf == old(self).buf,
                self.ok ==> old(self).ok,
                s0 == *old(self),
                k <= c,
                forall|m: Seq<(Seq<u8>, Occurrence)>, t: Seq<u8>| (s0.ok && #[trigger] frag_occ_map(
                    s0.rest(),
                    m,
                    t,
                )) ==> (self.ok && c as int == m.len() && crate::iface::view_occ_map(out@) == m.take(k as int)
                    && self.rest() == enc_occ_list(m.skip(k as int)) + t),
            decreases c - k,
        {
            let ghost sp = *self;
            let ghost outp = out@;
            let key = self.name();
            let ghost sm = *self;
            let o = self.occurrence();
            out.push((key, o));
            k = k + 1;
            proof {
                assert forall|m: Seq<(Seq<u8>, Occurrence)>, t: Seq<u8>| (s0.ok && #[trigger] frag_occ_map(
                    s0.rest(),
                    m,
                    t,
                )) implies (self.ok && c as int == m.len() && crate::iface::view_occ_map(out@) == m.take(k as int)
                    && self.rest() == enc_occ_list(m.skip(k as int)) + t) by {
                    let j = k - 1;
                    assert(m.skip(j)[0] == m[j]);
                    assert(m.skip(j).drop_first() =~= m.skip(k as int));
                    assert(sp.rest() =~= enc_bytes(m[j].0) + (seq![occ_tag(m[j].1)]
                        + (enc_occ_list(m.skip(k as int)) + t)));
                    assert(m[j].0.len() <= 255);
                    assert(frag_bytes(sp.rest(), m[j].0, seq![occ_tag(m[j].1)]
                        + (enc_occ_list(m.skip(k as int)) + t)));
                    assert(frag_occ(sm.rest(), m[j].1, enc_occ_list(m.skip(k as int)) + t));
                    assert(crate::iface::view_occ_map(out@)
                        =~= crate::iface::view_occ_map(outp).push(m[j]));
                    assert(m.take(j).push(m[j]) =~= m.take(k as int));
                }
            }
        }
        proof {
            assert forall|m: Seq<(Seq<u8>, Occurrence)>, t: Seq<u8>| (s0.ok && #[trigger] frag_occ_map(
                s0.rest(),
                m,
                t,
            )) implies (self.ok && crate::iface::view_occ_map(out@) == m && self.rest() == t) by {
                assert(m.take(m.len() as int) =~= m);
                assert(m.skip(m.len() as int) =~= Seq::<(Seq<u8>, Occurrence)>::empty());
                assert(enc_occ_list(m.skip(m.len() as int)) =~= Seq::<u8>::empty());
                assert(enc_occ_list(m.skip(m.len() as int)) + t =~= t);
            }
        }
        out
    }

    #[verifier::rlimit(100)]
    fn name_list(&mut self) -> (r: Vec<Vec<u8>>)
        requires
            old(self).wf(),
        ensures
            final(self).buf == old(self).buf,
            final(self).wf(),
            final(self).ok ==> old(self).ok,
            forall|m: Seq<Seq<u8>>, t: Seq<u8>| (old(self).ok && #[trigger] frag_names(
                old(self).rest(),
                m,
                t,
            )) ==> (final(self).ok && crate::iface::view_names(r@) == m && final(self).rest() == t),
    {
        let ghost s0 = *self;
        let c = self.byte();
        let mut out: Vec<Vec<u8>> = Vec::new();
        proof {
            assert forall|m: Seq<Seq<u8>>, t: Seq<u8>| (s0.ok && #[trigger] frag_names(
                s0.rest(),
                m,
                t,
            )) implies (self.ok && c as int == m.len() && crate::iface::view_names(out@) == m.take(0)
                && self.rest() == enc_name_list(m.skip(0)) + t) by {
                assert(seq![(m.len() as u8)] + enc_name_list(m) + t =~= seq![(m.len() as u8)] + (enc_name_list(m) + t));
                assert(frag_byte(s0.rest(), m.len() as u8, enc_name_list(m) + t));
                assert(m.take(0) =~= Seq::<Seq<u8>>::empty());
                assert(crate::iface::view_names(out@) =~= Seq::<Seq<u8>>::empty());
                assert(m.skip(0) =~= m);
            }
        }
        let mut k: u8 = 0;
        while k < c
            invariant
                self.wf(),
                self.buf == old(self).buf,
                self.ok ==> old(self).ok,
                s0 == *old(self),
                k <= c,
                forall|m: Seq<Seq<u8>>, t: Seq<u8>| (s0.ok && #[trigger] frag_names(
                    s0.rest(),
                    m,
                    t,
                )) ==> (self.ok && c as int == m.len() && crate::iface::view_names(out@) == m.take(k as int)
                    && self.rest() == enc_name_list(m.skip(k as int)) + t),
            decreases c - k,
        {
            let ghost sp = *self;
            let ghost outp = out@;
            let key = self.name();
            out.push(key);
            k = k + 1;
            proof {
                assert forall|m: Seq<Seq<u8>>, t: Seq<u8>| (s0.ok && #[trigger] frag_names(
                    s0.rest(),
                    m,
                    t,
                )) implies (self.ok && c as int == m.len() && crate::iface::view_names(out@) == m.take(k as int)
                    && self.rest() == enc_name_list(m.skip(k as int)) + t) by {
                    let j = k - 1;
                    assert(m.skip(j)[0] == m[j]);
                    assert(m.skip(j).drop_first() =~= m.skip(k as int));
                    assert(enc_name_list(m.skip(j)) =~= enc_bytes(m[j]) + enc_name_list(m.skip(k as int)));
                    assert(sp.rest() =~= enc_bytes(m[j]) + (enc_name_list(m.skip(k as int)) + t));
                    assert(m[j].len() <= 255);
                    assert(frag_bytes(sp.rest(), m[j], enc_name_list(m.skip(k as int)) + t));
                    assert(crate::iface::view_names(out@)
                        =~= crate::iface::view_names(outp).push(m[j]));
                    assert(m.take(j).push(m[j]) =~= m.take(k as int));
                }
            }
        }
        proof {
            assert forall|m: Seq<Seq<u8>>, t: Seq<u8>| (s0.ok && #[trigger] frag_names(
                s0.rest(),
                m,
                t,
            )) implies (self.ok && crate::iface::view_names(out@) == m && self.rest() == t) by {
                assert(m.take(m.len() as int) =~= m);
                assert(m.skip(m.len() as int) =~= Seq::<Seq<u8>>::empty());
                assert(enc_name_list(m.skip(m.len() as int)) =~= Seq::<u8>::empty());
                assert(enc_name_list(m.skip(m.len() as int)) + t =~= t);
            }
        }
        out
    }

    #[verifier::rlimit(100)]
    fn code_list(&mut self) -> (r: Vec<u8>)
        requires
            old(self).wf(),
        ensures
            final(self).buf == old(self).buf,
            final(self).wf(),
            final(self).ok ==> old(self).ok,
            forall|m: Seq<u8>, t: Seq<u8>| (old(self).ok && #[trigger] frag_codes(
                old(self).rest(),
                m,
                t,
            )) ==> (final(self).ok && seq_id(r@) == m && final(self).rest() == t),
    {
        let ghost s0 = *self;
        let c = self.byte();
        let mut out: Vec<u8> = Vec::new();
        proof {
            assert forall|m: Seq<u8>, t: Seq<u8>| (s0.ok && #[trigger] frag_codes(
                s0.rest(),
                m,
                t,
            )) implies (self.ok && c as int == m.len() && seq_id(out@) == m.take(0)
                && self.rest() == enc_code_list(m.skip(0)) + t) by {
                assert(seq![(m.len() as u8)] + enc_code_list(m) + t =~= seq![(m.len() as u8)] + (enc_code_list(m) + t));
                assert(frag_byte(s0.rest(), m.len() as u8, enc_code_list(m) + t));
                assert(m.take(0) =~= Seq::<u8>::empty());
                assert(seq_id(out@) =~= Seq::<u8>::empty());
                assert(m.skip(0) =~= m);
            }
        }
        let mut k: u8 = 0;
        while k < c
            invariant
                self.wf(),
                self.buf == old(self).buf,
                self.ok ==> old(self).ok,
                s0 == *old(self),
                k <= c,
                forall|m: Seq<u8>, t: Seq<u8>| (s0.ok && #[trigger] frag_codes(
                    s0.rest(),
                    m,
                    t,
                )) ==> (self.ok && c as int == m.len() && seq_id(out@) == m.take(k as int)
                    && self.rest() == enc_code_list(m.skip(k as int)) + t),
            decreases c - k,
        {
            let ghost sp = *self;
            let ghost outp = out@;
            let b = self.byte();
            out.push(b);
            k = k + 1;
            proof {
                assert forall|m: Seq<u8>, t: Seq<u8>| (s0.ok && #[trigger] frag_codes(
                    s0.rest(),
                    m,
                    t,
                )) implies (self.ok && c as int == m.len() && seq_id(out@) == m.take(k as int)
                    && self.rest() == enc_code_list(m.skip(k as int)) + t) by {
                    let j = k - 1;
                    assert(m.skip(j)[0] == m[j]);
                    assert(m.skip(j).drop_first() =~= m.skip(k as int));
                    assert(enc_code_list(m.skip(j)) =~= seq![m[j]] + enc_code_list(m.skip(k as int)));
                    assert(sp.rest() =~= seq![m[j]] + (enc_code_list(m.skip(k as int)) + t));
                    assert(frag_byte(sp.rest(), m[j], enc_code_list(m.skip(k as int)) + t));
                    assert(seq_id(out@) =~= seq_id(outp).push(m[j]));
                    assert(m.take(j).push(m[j]) =~= m.take(k as int));
                }
            }
        }
        proof {
            assert forall|m: Seq<u8>, t: Seq<u8>| (s0.ok && #[trigger] frag_codes(
                s0.rest(),
                m,
                t,
            )) implies (self.ok && seq_id(out@) == m && self.rest() == t) by {
                assert(m.take(m.len() as int) =~= m);
                assert(m.skip(m.len() as int) =~= Seq::<u8>::empty());
                assert(enc_code_list(m.skip(m.len() as int)) =~= Seq::<u8>::empty());
                assert(enc_code_list(m.skip(m.len() as int)) + t =~= t);
            }
        }
        out
    }

    #[verifier::rlimit(100)]
    fn global_map(&mut self) -> (r: Vec<(Vec<u8>, GlobalIface)>)
        requires
            old(self).wf(),
        ensures
            final(self).buf == old(self).buf,
            final(self).wf(),
            final(self).ok ==> old(self).ok,
            forall|m: Seq<(Seq<u8>, GlobalIface)>, t: Seq<u8>| (old(self).ok && #[trigger] frag_globals(
                old(self).rest(),
                m,
                t,
            )) ==> (final(self).ok && view_globals(r@) == m && final(self).rest() == t),
    {
        let ghost s0 = *self;
        let c = self.byte();
        let mut out: Vec<(Vec<u8>, GlobalIface)> = Vec::new();
        proof {
            assert forall|m: Seq<(Seq<u8>, GlobalIface)>, t: Seq<u8>| (s0.ok && #[trigger] frag_globals(
                s0.rest(),
                m,
                t,
            )) implies (self.ok && c as int == m.len() && view_globals(out@) == m.take(0)
                && self.rest() == enc_global_list(m.skip(0)) + t) by {
                assert(seq![(m.len() as u8)] + enc_global_list(m) + t =~= seq![(m.len() as u8)] + (enc_global_list(m) + t));
                assert(frag_byte(s0.rest(), m.len() as u8, enc_global_list(m) + t));
                assert(m.take(0) =~= Seq::<(Seq<u8>, GlobalIface)>::empty());
                assert(view_globals(out@) =~= Seq::<(Seq<u8>, GlobalIface)>::empty());
                assert(m.skip(0) =~= m);
            }
        }
        let mut k: u8 = 0;
        while k < c
            invariant
                self.wf(),
                self.buf == old(self).buf,
                self.ok ==> old(self).ok,
                s0 == *old(self),
                k <= c,
                forall|m: Seq<(Seq<u8>, GlobalIface)>, t: Seq<u8>| (s0.ok && #[trigger] frag_globals(
                    s0.rest(),
                    m,
                    t,
                )) ==> (self.ok && c as int == m.len() && view_globals(out@) == m.take(k as int)
                    && self.rest() == enc_global_list(m.skip(k as int)) + t),
            decreases c - k,
        {
            let ghost sp = *self;
            let ghost outp = out@;
            let key = self.name();
            let ghost sm1 = *self;
            let x = self.word();
            let ghost sm2 = *self;
            let o = self.occurrence();
            out.push((key, GlobalIface { sem_id: TypeId(x), occ: o }));
            k = k + 1;
            proof {
                assert forall|m: Seq<(Seq<u8>, GlobalIface)>, t: Seq<u8>| (s0.ok && #[trigger] frag_globals(
                    s0.rest(),
                    m,
                    t,
                )) implies (self.ok && c as int == m.len() && view_globals(out@) == m.take(k as int)
                    && self.rest() == enc_global_list(m.skip(k as int)) + t) by {
                    let j = k - 1;
                    assert(m.skip(j)[0] == m[j]);
                    assert(m.skip(j).drop_first() =~= m.skip(k as int));
                    assert(sp.rest() =~= enc_bytes(m[j].0) + (enc_u64(m[j].1.sem_id.0)
                        + (seq![occ_tag(m[j].1.occ)] + (enc_global_list(m.skip(k as int)) + t))));
                    assert(m[j].0.len() <= 255);
                    assert(frag_bytes(sp.rest(), m[j].0, enc_u64(m[j].1.sem_id.0)
                        + (seq![occ_tag(m[j].1.occ)] + (enc_global_list(m.skip(k as int)) + t))));
                    assert(frag_u64(sm1.rest(), m[j].1.sem_id.0, seq![occ_tag(m[j].1.occ)]
                        + (enc_global_list(m.skip(k as int)) + t)));
                    assert(frag_occ(sm2.rest(), m[j].1.occ, enc_global_list(m.skip(k as int)) + t));
                    assert(GlobalIface { sem_id: TypeId(m[j].1.sem_id.0), occ: m[j].1.occ } == m[j].1);
                    assert(view_globals(out@) =~= view_globals(outp).push(m[j]));
                    assert(m.take(j).push(m[j]) =~= m.take(k as int));
                }
            }
        }
        proof {
            assert forall|m: Seq<(Seq<u8>, GlobalIface)>, t: Seq<u8>| (s0.ok && #[trigger] frag_globals(
                s0.rest(),
                m,
                t,
            )) implies (self.ok && view_globals(out@) == m && self.rest() == t) by {
                assert(m.take(m.len() as int) =~= m);
                assert(m.skip(m.len() as int) =~= Seq::<(Seq<u8>, GlobalIface)>::empty());
                assert(enc_global_list(m.skip(m.len() as int)) =~= Seq::<u8>::empty());
                assert(enc_global_list(m.skip(m.len() as int)) + t =~= t);
            }
        }
        out
    }

    #[verifier::rlimit(100)]
    fn assign_map(&mut self) -> (r: Vec<(Vec<u8>, AssignIface)>)
        requires
            old(self).wf(),
        ensures
            final(self).buf == old(self).buf,
            final(self).wf(),
            final(self).ok ==> old(self).ok,
            forall|m: Seq<(Seq<u8>, AssignIface)>, t: Seq<u8>| (old(self).ok && #[trigger] frag_assigns(
                old(self).rest(),
                m,
                t,
            )) ==> (final(self).ok && view_assigns(r@) == m && final(self).rest() == t),
    {
        let ghost s0 = *self;
        let c = self.byte();
        let mut out: Vec<(Vec<u8>, AssignIface)> = Vec::new();
        proof {
            assert forall|m: Seq<(Seq<u8>, AssignIface)>, t: Seq<u8>| (s0.ok && #[trigger] frag_assigns(
                s0.rest(),
                m,
                t,
            )) implies (self.ok && c as int == m.len() && view_assigns(out@) == m.take(0)
                && self.rest() == enc_assign_list(m.skip(0)) + t) by {
                assert(seq![(m.len() as u8)] + enc_assign_list(m) + t =~= seq![(m.len() as u8)] + (enc_assign_list(m) + t));
                assert(frag_byte(s0.rest(), m.len() as u8, enc_assign_list(m) + t));
                assert(m.take(0) =~= Seq::<(Seq<u8>, AssignIface)>::empty());
                assert(view_assigns(out@) =~= Seq::<(Seq<u8>, AssignIface)>::empty());
                assert(m.skip(0) =~= m);
            }
        }
        let mut k: u8 = 0;
        while k < c
            invariant
                self.wf(),
                self.buf == old(self).buf,
                self.ok ==> old(self).ok,
                s0 == *old(self),
                k <= c,
                forall|m: Seq<(Seq<u8>, AssignIface)>, t: Seq<u8>| (s0.ok && #[trigger] frag_assigns(
                    s0.rest(),
                    m,
                    t,
                )) ==> (self.ok && c as int == m.len() && view_assigns(out@) == m.take(k as int)
                    && self.rest() == enc_assign_list(m.skip(k as int)) + t),
            decreases c - k,
        {
            let ghost sp = *self;
            let ghost outp = out@;
            let key = self.name();
            let ghost sm1 = *self;
            let ow = self.owned_kind();
            let ghost sm2 = *self;
            let pb = self.flag();
            let ghost sm3 = *self;
            let rq = self.req_kind();
            out.push((key, AssignIface { owned_state: ow, public: pb, req: rq }));
            k = k + 1;
            proof {
                assert forall|m: Seq<(Seq<u8>, AssignIface)>, t: Seq<u8>| (s0.ok && #[trigger] frag_assigns(
                    s0.rest(),
                    m,
                    t,
                )) implies (self.ok && c as int == m.len() && view_assigns(out@) == m.take(k as int)
                    && self.rest() == enc_assign_list(m.skip(k as int)) + t) by {
                    let j = k - 1;
                    assert(m.skip(j)[0] == m[j]);
                    assert(m.skip(j).drop_first() =~= m.skip(k as int));
                    assert(seq![owned_tag(m[j].1.owned_state), bool_byte(m[j].1.public), req_tag(m[j].1.req)]
                        =~= seq![owned_tag(m[j].1.owned_state)] + (seq![bool_byte(m[j].1.public)]
                            + seq![req_tag(m[j].1.req)]));
                    assert(sp.rest() =~= enc_bytes(m[j].0) + (seq![owned_tag(m[j].1.owned_state)]
                        + (seq![bool_byte(m[j].1.public)] + (seq![req_tag(m[j].1.req)]
                            + (enc_assign_list(m.skip(k as int)) + t)))));
                    assert(m[j].0.len() <= 255);
                    assert(frag_bytes(sp.rest(), m[j].0, seq![owned_tag(m[j].1.owned_state)]
                        + (seq![bool_byte(m[j].1.public)] + (seq![req_tag(m[j].1.req)]
                            + (enc_assign_list(m.skip(k as int)) + t)))));
                    assert(frag_owned(sm1.rest(), m[j].1.owned_state, seq![bool_byte(m[j].1.public)]
                        + (seq![req_tag(m[j].1.req)] + (enc_assign_list(m.skip(k as int)) + t))));
                    assert(sm2.rest() == seq![bool_byte(m[j].1.public)]
                        + (seq![req_tag(m[j].1.req)] + (enc_assign_list(m.skip(k as int)) + t)));
                    assert(frag_req(sm3.rest(), m[j].1.req, enc_assign_list(m.skip(k as int)) + t));
                    assert(AssignIface { owned_state: m[j].1.owned_state, public: m[j].1.public, req: m[j].1.req } == m[j].1);
                    assert(view_assigns(out@) =~= view_assigns(outp).push(m[j]));
                    assert(m.take(j).push(m[j]) =~= m.take(k as int));
                }
            }
        }
        proof {
            assert forall|m: Seq<(Seq<u8>, AssignIface)>, t: Seq<u8>| (s0.ok && #[trigger] frag_assigns(
                s0.rest(),
                m,
                t,
            )) implies (self.ok && view_assigns(out@) == m && self.rest() == t) by {
                assert(m.take(m.len() as int) =~= m);
                assert(m.skip(m.len() as int) =~= Seq::<(Seq<u8>, AssignIface)>::empty());
                assert(enc_assign_list(m.skip(m.len() as int)) =~= Seq::<u8>::empty());
                assert(enc_assign_list(m.skip(m.len() as int)) + t =~= t);
            }
        }
        out
    }

    #[verifier::rlimit(100)]
    fn error_map(&mut self) -> (r: Vec<(Variant, Vec<u8>)>)
        requires
            old(self).wf(),
        ensures
            final(self).buf == old(self).buf,
            final(self).wf(),
            final(self).ok ==> old(self).ok,
            forall|m: Seq<ErrorV>, t: Seq<u8>| (old(self).ok && #[trigger] frag_errors(
                old(self).rest(),
                m,
                t,
            )) ==> (final(self).ok && view_errors(r@) == m && final(self).rest() == t),
    {
        let ghost s0 = *self;
        let c = self.byte();
        let mut out: Vec<(Variant, Vec<u8>)> = Vec::new();
        proof {
            assert forall|m: Seq<ErrorV>, t: Seq<u8>| (s0.ok && #[trigger] frag_errors(
                s0.rest(),
                m,
                t,
            )) implies (self.ok && c as int == m.len() && view_errors(out@) == m.take(0)
                && self.rest() == enc_error_list(m.skip(0)) + t) by {
                assert(seq![(m.len() as u8)] + enc_error_list(m) + t =~= seq![(m.len() as u8)] + (enc_error_list(m) + t));
                assert(frag_byte(s0.rest(), m.len() as u8, enc_error_list(m) + t));
                assert(m.take(0) =~= Seq::<ErrorV>::empty());
                assert(view_errors(out@) =~= Seq::<ErrorV>::empty());
                assert(m.skip(0) =~= m);
            }
        }
        let mut k: u8 = 0;
        while k < c
            invariant
                self.wf(),
                self.buf == old(self).buf,
                self.ok ==> old(self).ok,
                s0 == *old(self),
                k <= c,
                forall|m: Seq<ErrorV>, t: Seq<u8>| (s0.ok && #[trigger] frag_errors(
                    s0.rest(),
                    m,
                    t,
                )) ==> (self.ok && c as int == m.len() && view_errors(out@) == m.take(k as int)
                    && self.rest() == enc_error_list(m.skip(k as int)) + t),
            decreases c - k,
        {
            let ghost sp = *self;
            let ghost outp = out@;
            let code = self.byte();
            let ghost sm1 = *self;
            let nm = self.name();
            let ghost sm2 = *self;
            let ds = self.name();
            out.push((Variant { code, name: nm }, ds));
            k = k + 1;
            proof {
                assert forall|m: Seq<ErrorV>, t: Seq<u8>| (s0.ok && #[trigger] frag_errors(
                    s0.rest(),
                    m,
                    t,
                )) implies (self.ok && c as int == m.len() && view_errors(out@) == m.take(k as int)
                    && self.rest() == enc_error_list(m.skip(k as int)) + t) by {
                    let j = k - 1;
                    assert(m.skip(j)[0] == m[j]);
                    assert(m.skip(j).drop_first() =~= m.skip(k as int));
                    assert(sp.rest() =~= seq![m[j].code] + (enc_bytes(m[j].name)
                        + (enc_bytes(m[j].description) + (enc_error_list(m.skip(k as int)) + t))));
                    assert(m[j].name.len() <= 255);
                    assert(m[j].description.len() <= 255);
                    assert(frag_byte(sp.rest(), m[j].code, enc_bytes(m[j].name)
                        + (enc_bytes(m[j].description) + (enc_error_list(m.skip(k as int)) + t))));
                    assert(frag_bytes(sm1.rest(), m[j].name, enc_bytes(m[j].description)
                        + (enc_error_list(m.skip(k as int)) + t)));
                    assert(frag_bytes(sm2.rest(), m[j].description, enc_error_list(m.skip(k as int)) + t));
                    assert((ErrorV { code: m[j].code, name: m[j].name, description: m[j].description })
                        =~~= m[j]);
                    assert(view_errors(out@) =~= view_errors(outp).push(m[j]));
                    assert(m.take(j).push(m[j]) =~= m.take(k as int));
                }
            }
        }
        proof {
            assert forall|m: Seq<ErrorV>, t: Seq<u8>| (s0.ok && #[trigger] frag_errors(
                s0.rest(),
                m,
                t,
            )) implies (self.ok && view_errors(out@) == m && self.rest() == t) by {
                assert(m.take(m.len() as int) =~= m);
                assert(m.skip(m.len() as int) =~= Seq::<ErrorV>::empty());
                assert(enc_error_list(m.skip(m.len() as int)) =~= Seq::<u8>::empty());
                assert(enc_error_list(m.skip(m.len() as int)) + t =~= t);
            }
        }
        out
    }

    #[verifier::rlimit(100)]
    fn genesis(&mut self) -> (r: GenesisIface)
        requires
            old(self).wf(),
        ensures
            final(self).buf == old(self).buf,
            final(self).wf(),
            final(self).ok ==> old(self).ok,
            forall|g: GenesisV, t: Seq<u8>| (old(self).ok && #[trigger] frag_genesis(
                old(self).rest(),
                g,
                t,
            )) ==> (final(self).ok && r@ == g && final(self).rest() == t),
    {
        let ghost s0 = *self;
        let metadata = self.opt_type();
        let ghost s1 = *self;
        let globals = self.occ_map();
        let ghost s2 = *self;
        let assignments = self.occ_map();
        let ghost s3 = *self;
        let valencies = self.name_list();
        let ghost s4 = *self;
        let errors = self.code_list();
        let r = GenesisIface { metadata, globals, assignments, valencies, errors };
        proof {
            assert forall|g: GenesisV, t: Seq<u8>| (s0.ok && #[trigger] frag_genesis(
                s0.rest(),
                g,
                t,
            )) implies (self.ok && r@ == g && self.rest() == t) by {
                let r4 = seq![(g.errors.len() as u8)] + enc_code_list(g.errors) + t;
                let r3 = seq![(g.valencies.len() as u8)] + enc_name_list(g.valencies) + r4;
                let r2 = seq![(g.assignments.len() as u8)] + enc_occ_list(g.assignments) + r3;
                let r1 = seq![(g.globals.len() as u8)] + enc_occ_list(g.globals) + r2;
                assert(s0.rest() =~= enc_opt_type(g.metadata) + r1);
                assert(frag_opt_type(s0.rest(), g.metadata, r1));
                lemma_occ_bounds(g.globals);
                assert(frag_occ_map(s1.rest(), g.globals, r2));
                lemma_occ_bounds(g.assignments);
                assert(frag_occ_map(s2.rest(), g.assignments, r3));
                lemma_names_bounds(g.valencies);
                assert(frag_names(s3.rest(), g.valencies, r4));
                assert(frag_codes(s4.rest(), g.errors, t));
                assert(r@ =~~= g);
            }
        }
        r
    }

    #[verifier::rlimit(100)]
    fn transition(&mut self) -> (r: TransitionIface)
        requires
            old(self).wf(),
        ensures
            final(self).buf == old(self).buf,
            final(self).wf(),
            final(self).ok ==> old(self).ok,
            forall|tr: TransitionV, t: Seq<u8>| (old(self).ok && #[trigger] frag_transition(
                old(self).rest(),
                tr,
                t,
            )) ==> (final(self).ok && r@ == tr && final(self).rest() == t),
    {
        let ghost s0 = *self;
        let optional = self.flag();
        let ghost s1 = *self;
        let metadata = self.opt_type();
        let ghost s2 = *self;
        let globals = self.occ_map();
        let ghost s3 = *self;
        let inputs = self.occ_map();
        let ghost s4 = *self;
        let assignments = self.occ_map();
        let ghost s5 = *self;
        let valencies = self.name_list();
        let ghost s6 = *self;
        let errors = self.code_list();
        let ghost s7 = *self;
        let default_assignment = self.opt_name();
        let r = TransitionIface {
            optional,
            metadata,
            globals,
            inputs,
            assignments,
            valencies,
            errors,
            default_assignment,
        };
        proof {
            assert forall|tr: TransitionV, t: Seq<u8>| (s0.ok && #[trigger] frag_transition(
                s0.rest(),
                tr,
                t,
            )) implies (self.ok && r@ == tr && self.rest() == t) by {
                let r7 = enc_opt_name(tr.default_assignment) + t;
                let r6 = seq![(tr.errors.len() as u8)] + enc_code_list(tr.errors) + r7;
                let r5 = seq![(tr.valencies.len() as u8)] + enc_name_list(tr.valencies) + r6;
                let r4 = seq![(tr.assignments.len() as u8)] + enc_occ_list(tr.assignments) + r5;
                let r3 = seq![(tr.inputs.len() as u8)] + enc_occ_list(tr.inputs) + r4;
                let r2 = seq![(tr.globals.len() as u8)] + enc_occ_list(tr.globals) + r3;
                let r1 = enc_opt_type(tr.metadata) + r2;
                lemma_transition_chain(tr, t);
                assert(s0.rest() == seq![bool_byte(tr.optional)] + r1);
                assert(frag_opt_type(s1.rest(), tr.metadata, r2));
                lemma_occ_bounds(tr.globals);
                assert(frag_occ_map(s2.rest(), tr.globals, r3));
                lemma_occ_bounds(tr.inputs);
                assert(frag_occ_map(s3.rest(), tr.inputs, r4));
                lemma_occ_bounds(tr.assignments);
                assert(frag_occ_map(s4.rest(), tr.assignments, r5));
                lemma_names_bounds(tr.valencies);
                assert(frag_names(s5.rest(), tr.valencies, r6));
                assert(frag_codes(s6.rest(), tr.errors, r7));
                match tr.default_assignment {
                    Some(d) => {
                        assert(crate::ident::ascii_text(d));
                    },
                    None => {},
                }
                assert(frag_opt_name(s7.rest(), tr.default_assignment, t));
                assert(r@ =~~= tr);
            }
        }
        r
    }

    #[verifier::rlimit(100)]
    fn transition_map(&mut self) -> (r: Vec<(Vec<u8>, TransitionIface)>)
        requires
            old(self).wf(),
        ensures
            final(self).buf == old(self).buf,
            final(self).wf(),
            final(self).ok ==> old(self).ok,
            forall|m: Seq<(Seq<u8>, TransitionV)>, t: Seq<u8>| (old(self).ok
                && #[trigger] frag_transs(old(self).rest(), m, t))
                ==> (final(self).ok && view_transs(r@) == m && final(self).rest() == t),
    {
        let ghost s0 = *self;
        let c = self.byte();
        let mut out: Vec<(Vec<u8>, TransitionIface)> = Vec::new();
        proof {
            assert forall|m: Seq<(Seq<u8>, TransitionV)>, t: Seq<u8>| (s0.ok
                && #[trigger] frag_transs(s0.rest(), m, t))
                implies (self.ok && c as int == m.len() && view_transs(out@) == m.take(0)
                    && self.rest() == enc_trans_list(m.skip(0)) + t) by {
                assert(seq![(m.len() as u8)] + enc_trans_list(m) + t =~= seq![(m.len() as u8)]
                    + (enc_trans_list(m) + t));
                assert(frag_byte(s0.rest(), m.len() as u8, enc_trans_list(m) + t));
                assert(m.take(0) =~= Seq::<(Seq<u8>, TransitionV)>::empty());
                assert(view_transs(out@) =~= Seq::<(Seq<u8>, TransitionV)>::empty());
                assert(m.skip(0) =~= m);
            }
        }
        let mut k: u8 = 0;
        while k < c
            invariant
                self.wf(),
                self.buf == old(self).buf,
                self.ok ==> old(self).ok,
                s0 == *old(self),
                k <= c,
                forall|m: Seq<(Seq<u8>, TransitionV)>, t: Seq<u8>| (s0.ok
                    && #[trigger] frag_transs(s0.rest(), m, t))
                    ==> (self.ok && c as int == m.len() && view_transs(out@) == m.take(k as int)
                        && self.rest() == enc_trans_list(m.skip(k as int)) + t),
            decreases c - k,
        {
            let ghost sp = *self;
            let ghost outp = out@;
            let key = self.name();
            let ghost sm = *self;
            let tv = self.transition();
            out.push((key, tv));
            k = k + 1;
            proof {
                assert forall|m: Seq<(Seq<u8>, TransitionV)>, t: Seq<u8>| (s0.ok
                    && #[trigger] frag_transs(s0.rest(), m, t))
                    implies (self.ok && c as int == m.len() && view_transs(out@) == m.take(
                    k as int) && self.rest() == enc_trans_list(m.skip(k as int)) + t) by {
                    let j = k - 1;
                    assert(m.skip(j)[0] == m[j]);
                    assert(m.skip(j).drop_first() =~= m.skip(k as int));
                    assert(sp.rest() =~= enc_bytes(m[j].0) + (enc_transition(m[j].1)
                        + (enc_trans_list(m.skip(k as int)) + t)));
                    assert(m[j].0.len() <= 255);
                    assert(frag_bytes(sp.rest(), m[j].0, enc_transition(m[j].1)
                        + (enc_trans_list(m.skip(k as int)) + t)));
                    assert(m[j].1.wf());
                    assert(frag_transition(sm.rest(), m[j].1, enc_trans_list(m.skip(k as int))
                        + t));
                    assert(view_transs(out@) =~= view_transs(outp).push(m[j]));
                    assert(m.take(j).push(m[j]) =~= m.take(k as int));
                }
            }
        }
        proof {
            assert forall|m: Seq<(Seq<u8>, TransitionV)>, t: Seq<u8>| (s0.ok
                && #[trigger] frag_transs(s0.rest(), m, t))
                implies (self.ok && view_transs(out@) == m && self.rest() == t) by {
                assert(m.take(m.len() as int) =~= m);
                assert(m.skip(m.len() as int) =~= Seq::<(Seq<u8>, TransitionV)>::empty());
                assert(enc_trans_list(m.skip(m.len() as int)) =~= Seq::<u8>::empty());
                assert(enc_trans_list(m.skip(m.len() as int)) + t =~= t);
            }
        }
        out
    }

    #[verifier::rlimit(100)]
    fn schema(&mut self) -> (r: Iface)
        requires
            old(self).wf(),
        ensures
            final(self).buf == old(self).buf,
            final(self).wf(),
            final(self).ok ==> old(self).ok,
            forall|v: IfaceV, t: Seq<u8>| (old(self).ok && #[trigger] frag_iface(
                old(self).rest(),
                v,
                t,
            )) ==> (final(self).ok && r@ == v && final(self).rest() == t),
    {
        let ghost s0 = *self;
        let vb = self.byte();
        if vb != 1 {
            self.ok = false;
        }
        let ghost s1 = *self;
        let name = self.name();
        let ghost s2 = *self;
        let global_state = self.global_map();
        let ghost s3 = *self;
        let assignments = self.assign_map();
        let ghost s4 = *self;
        let valencies = self.name_list();
        let ghost s5 = *self;
        let genesis = self.genesis();
        let ghost s6 = *self;
        let transitions = self.transition_map();
        let ghost s7 = *self;
        let extensions = self.transition_map();
        let ghost s8 = *self;
        let errors = self.error_map();
        let ghost s9 = *self;
        let default_operation = self.opt_name();
        let ghost s10 = *self;
        let types_id = self.word();
        let r = Iface {
            version: VerNo::V1,
            name,
            global_state,
            assignments,
            valencies,
            genesis,
            transitions,
            extensions,
            errors,
            default_operation,
            types_id,
        };
        proof {
            assert forall|v: IfaceV, t: Seq<u8>| (s0.ok && #[trigger] frag_iface(
                s0.rest(),
                v,
                t,
            )) implies (self.ok && r@ == v && self.rest() == t) by {
                let r10 = enc_u64(v.types_id) + t;
                let r9 = enc_opt_name(v.default_operation) + r10;
                let r8 = seq![(v.errors.len() as u8)] + enc_error_list(v.errors) + r9;
                let r7 = seq![(v.extensions.len() as u8)] + enc_trans_list(v.extensions) + r8;
                let r6 = seq![(v.transitions.len() as u8)] + enc_trans_list(v.transitions) + r7;
                let r5 = enc_genesis(v.genesis) + r6;
                let r4 = seq![(v.valencies.len() as u8)] + enc_name_list(v.valencies) + r5;
                let r3 = seq![(v.assignments.len() as u8)] + enc_assign_list(v.assignments) + r4;
                let r2 = seq![(v.global_state.len() as u8)] + enc_global_list(v.global_state)
                    + r3;
                let r1 = enc_bytes(v.name) + r2;
                lemma_schema_chain(v, t);
                assert(s0.rest() == seq![ver_tag(v.version)] + r1);
                assert(frag_byte(s0.rest(), ver_tag(v.version), r1));
                assert(ver_tag(v.version) == 1);
                assert(crate::ident::ascii_text(v.name));
                assert(frag_bytes(s1.rest(), v.name, r2));
                lemma_globals_bounds(v.global_state);
                assert(frag_globals(s2.rest(), v.global_state, r3));
                lemma_assigns_bounds(v.assignments);
                assert(frag_assigns(s3.rest(), v.assignments, r4));
                lemma_names_bounds(v.valencies);
                assert(frag_names(s4.rest(), v.valencies, r5));
                assert(v.genesis.wf());
                assert(frag_genesis(s5.rest(), v.genesis, r6));
                lemma_transs_bounds(v.transitions);
                assert(frag_transs(s6.rest(), v.transitions, r7));
                lemma_transs_bounds(v.extensions);
                assert(frag_transs(s7.rest(), v.extensions, r8));
                assert(errs_short(v.errors)) by {
                    assert forall|i: int| 0 <= i < v.errors.len() implies (
                    #[trigger] v.errors[i]).name.len() <= 255 && v.errors[i].description.len()
                        <= 255 by {
                        assert(crate::ident::ascii_text(v.errors[i].name));
                        assert(crate::ident::ascii_text(v.errors[i].description));
                    }
                }
                assert(frag_errors(s8.rest(), v.errors, r9));
                match v.default_operation {
                    Some(d) => {
                        assert(crate::ident::ascii_text(d));
                    },
                    None => {},
                }
                assert(frag_opt_name(s9.rest(), v.default_operation, r10));
                assert(frag_u64(s10.rest(), v.types_id, t));
                assert(r@ =~~= v);
            }
        }
        r
    }
}

/// A byte sequence viewed as itself.
pub open spec fn seq_id(s: Seq<u8>) -> Seq<u8> {
    s
}

/// The mathematical value of a global-state map.
pub open spec fn view_globals(s: Seq<(Vec<u8>, GlobalIface)>) -> Seq<(Seq<u8>, GlobalIface)> {
    s.map_values(|p: (Vec<u8>, GlobalIface)| (p.0@, p.1))
}

/// The mathematical value of an assignment map.
pub open spec fn view_assigns(s: Seq<(Vec<u8>, AssignIface)>) -> Seq<(Seq<u8>, AssignIface)> {
    s.map_values(|p: (Vec<u8>, AssignIface)| (p.0@, p.1))
}

/// The mathematical value of an optional name, shared by reader contracts.
pub open spec fn view_opt_name2(o: Option<Vec<u8>>) -> Option<Seq<u8>> {
    crate::iface::view_opt_name(o)
}


/// The mathematical value of a transition map.
pub open spec fn view_transs(s: Seq<(Vec<u8>, TransitionIface)>) -> Seq<(Seq<u8>, TransitionV)> {
    s.map_values(|p: (Vec<u8>, TransitionIface)| (p.0@, p.1@))
}


/// Well-formed occurrence maps have short keys and bounded size.
proof fn lemma_occ_bounds(m: Seq<(Seq<u8>, Occurrence)>)
    requires
        crate::iface::wf_keyed(m),
    ensures
        m.len() <= 255,
        occ_keys_short(m),
{
    assert forall|i: int| 0 <= i < m.len() implies (#[trigger] m[i]).0.len() <= 255 by {
        assert(crate::ident::ascii_text(m[i].0));
    }
}

/// Well-formed name sets have short names and bounded size.
proof fn lemma_names_bounds(m: Seq<Seq<u8>>)
    requires
        crate::iface::wf_names(m),
    ensures
        m.len() <= 255,
        names_short(m),
{
    assert forall|i: int| 0 <= i < m.len() implies (#[trigger] m[i]).len() <= 255 by {
        assert(crate::ident::ascii_text(m[i]));
    }
}

/// Well-formed global-state maps have short keys and bounded size.
proof fn lemma_globals_bounds(m: Seq<(Seq<u8>, GlobalIface)>)
    requires
        crate::iface::wf_keyed(m),
    ensures
        m.len() <= 255,
        g_keys_short(m),
{
    assert forall|i: int| 0 <= i < m.len() implies (#[trigger] m[i]).0.len() <= 255 by {
        assert(crate::ident::ascii_text(m[i].0));
    }
}

/// Well-formed assignment maps have short keys and bounded size.
proof fn lemma_assigns_bounds(m: Seq<(Seq<u8>, AssignIface)>)
    requires
        crate::iface::wf_keyed(m),
    ensures
        m.len() <= 255,
        a_keys_short(m),
{
    assert forall|i: int| 0 <= i < m.len() implies (#[trigger] m[i]).0.len() <= 255 by {
        assert(crate::ident::ascii_text(m[i].0));
    }
}

/// Well-formed transition maps have short keys and well-formed transitions.
proof fn lemma_transs_bounds(m: Seq<(Seq<u8>, TransitionV)>)
    requires
        crate::iface::wf_keyed(m),
        forall|i: int| 0 <= i < m.len() ==> (#[trigger] m[i]).1.wf(),
    ensures
        m.len() <= 255,
        transs_ok(m),
{
    assert forall|i: int| 0 <= i < m.len() implies (#[trigger] m[i]).0.len() <= 255
        && m[i].1.wf() by {
        assert(crate::ident::ascii_text(m[i].0));
    }
}

/// The pieces of an armored text, recovered by position.
proof fn lemma_armor_parts(v: IfaceV, text: Seq<u8>)
    requires
        text == armor_spec(encode_spec(v)),
    ensures
        text.len() == armor_header().len() + hex_of(encode_spec(v)).len()
            + armor_footer().len(),
        hex_of(encode_spec(v)).len() == 2 * encode_spec(v).len(),
        text.subrange(
            armor_header().len() as int,
            text.len() - armor_footer().len(),
        ) == hex_of(encode_spec(v)),
{
    lemma_hex_len(encode_spec(v));
    assert(text.subrange(armor_header().len() as int, text.len() - armor_footer().len())
        =~= hex_of(encode_spec(v)));
}



/// Concatenation of byte strings is associative.
proof fn lemma_add_assoc(a: Seq<u8>, b: Seq<u8>, c: Seq<u8>)
    ensures
        (a + b) + c == a + (b + c),
{
    assert((a + b) + c =~= a + (b + c));
}

/// Reassociation of a transition's encoding into reader-sized fragments.
#[verifier::rlimit(100)]
proof fn lemma_transition_chain(tr: TransitionV, t: Seq<u8>)
    ensures
        enc_transition(tr) + t == seq![bool_byte(tr.optional)] + (enc_opt_type(tr.metadata)
            + (seq![(tr.globals.len() as u8)] + enc_occ_list(tr.globals) + (seq![(tr.inputs.len()
            as u8)] + enc_occ_list(tr.inputs) + (seq![(tr.assignments.len() as u8)]
            + enc_occ_list(tr.assignments) + (seq![(tr.valencies.len() as u8)] + enc_name_list(
            tr.valencies,
        ) + (seq![(tr.errors.len() as u8)] + enc_code_list(tr.errors) + (enc_opt_name(
            tr.default_assignment,
        ) + t))))))),
{
    assert(enc_transition(tr) + t =~= seq![bool_byte(tr.optional)] + (enc_opt_type(tr.metadata)
        + (seq![(tr.globals.len() as u8)] + enc_occ_list(tr.globals) + (seq![(tr.inputs.len()
        as u8)] + enc_occ_list(tr.inputs) + (seq![(tr.assignments.len() as u8)]
        + enc_occ_list(tr.assignments) + (seq![(tr.valencies.len() as u8)] + enc_name_list(
        tr.valencies,
    ) + (seq![(tr.errors.len() as u8)] + enc_code_list(tr.errors) + (enc_opt_name(
        tr.default_assignment,
    ) + t))))))));
}

/// Reassociation of a schema's encoding into reader-sized fragments.
#[verifier::rlimit(100)]
proof fn lemma_schema_chain(v: IfaceV, t: Seq<u8>)
    ensures
        encode_spec(v) + t == seq![ver_tag(v.version)] + (enc_bytes(v.name) + (seq![(
        v.global_state.len() as u8)] + enc_global_list(v.global_state) + (seq![(
        v.assignments.len() as u8)] + enc_assign_list(v.assignments) + (seq![(v.valencies.len()
            as u8)] + enc_name_list(v.valencies) + (enc_genesis(v.genesis) + (seq![(
        v.transitions.len() as u8)] + enc_trans_list(v.transitions) + (seq![(v.extensions.len()
            as u8)] + enc_trans_list(v.extensions) + (seq![(v.errors.len() as u8)]
            + enc_error_list(v.errors) + (enc_opt_name(v.default_operation) + (enc_u64(
        v.types_id,
    ) + t)))))))))),
{
    lemma_add_assoc(seq![ver_tag(v.version)] + enc_bytes(v.name) + seq![(v.global_state.len() as u8)] + enc_global_list(v.global_state) + seq![(v.assignments.len() as u8)] + enc_assign_list(v.assignments) + seq![(v.valencies.len() as u8)] + enc_name_list(v.valencies) + enc_genesis(v.genesis) + seq![(v.transitions.len() as u8)] + enc_trans_list(v.transitions) + seq![(v.extensions.len() as u8)] + enc_trans_list(v.extensions) + seq![(v.errors.len() as u8)] + enc_error_list(v.errors) + enc_opt_name(v.default_operation), enc_u64(v.types_id), t);
    lemma_add_assoc(seq![ver_tag(v.version)] + enc_bytes(v.name) + seq![(v.global_state.len() as u8)] + enc_global_list(v.global_state) + seq![(v.assignments.len() as u8)] + enc_assign_list(v.assignments) + seq![(v.valencies.len() as u8)] + enc_name_list(v.valencies) + enc_genesis(v.genesis) + seq![(v.transitions.len() as u8)] + enc_trans_list(v.transitions) + seq![(v.extensions.len() as u8)] + enc_trans_list(v.extensions) + seq![(v.errors.len() as u8)] + enc_error_list(v.errors), enc_opt_name(v.default_operation), enc_u64(v.types_id) + t);
    lemma_add_assoc(seq![ver_tag(v.version)] + enc_bytes(v.name) + seq![(v.global_state.len() as u8)] + enc_global_list(v.global_state) + seq![(v.assignments.len() as u8)] + enc_assign_list(v.assignments) + seq![(v.valencies.len() as u8)] + enc_name_list(v.valencies) + enc_genesis(v.genesis) + seq![(v.transitions.len() as u8)] + enc_trans_list(v.transitions) + seq![(v.extensions.len() as u8)] + enc_trans_list(v.extensions) + seq![(v.errors.len() as u8)], enc_error_list(v.errors), enc_opt_name(v.default_operation) + (enc_u64(v.types_id) + t));
    lemma_add_assoc(seq![ver_tag(v.version)] + enc_bytes(v.name) + seq![(v.global_state.len() as u8)] + enc_global_list(v.global_state) + seq![(v.assignments.len() as u8)] + enc_assign_list(v.assignments) + seq![(v.valencies.len() as u8)] + enc_name_list(v.valencies) + enc_genesis(v.genesis) + seq![(v.transitions.len() as u8)] + enc_trans_list(v.transitions) + seq![(v.extensions.len() as u8)] + enc_trans_list(v.extensions), seq![(v.errors.len() as u8)], enc_error_list(v.errors) + (enc_opt_name(v.default_operation) + (enc_u64(v.types_id) + t)));
    lemma_add_assoc(seq![ver_tag(v.version)] + enc_bytes(v.name) + seq![(v.global_state.len() as u8)] + enc_global_list(v.global_state) + seq![(v.assignments.len() as u8)] + enc_assign_list(v.assignments) + seq![(v.valencies.len() as u8)] + enc_name_list(v.valencies) + enc_genesis(v.genesis) + seq![(v.transitions.len() as u8)] + enc_trans_list(v.transitions) + seq![(v.extensions.len() as u8)], enc_trans_list(v.extensions), seq![(v.errors.len() as u8)] + (enc_error_list(v.errors) + (enc_opt_name(v.default_operation) + (enc_u64(v.types_id) + t))));
    lemma_add_assoc(seq![ver_tag(v.version)] + enc_bytes(v.name) + seq![(v.global_state.len() as u8)] + enc_global_list(v.global_state) + seq![(v.assignments.len() as u8)] + enc_assign_list(v.assignments) + seq![(v.valencies.len() as u8)] + enc_name_list(v.valencies) + enc_genesis(v.genesis) + seq![(v.transitions.len() as u8)] + enc_trans_list(v.transitions), seq![(v.extensions.len() as u8)], enc_trans_list(v.extensions) + (seq![(v.errors.len() as u8)] + (enc_error_list(v.errors) + (enc_opt_name(v.default_operation) + (enc_u64(v.types_id) + t)))));
    lemma_add_assoc(seq![ver_tag(v.version)] + enc_bytes(v.name) + seq![(v.global_state.len() as u8)] + enc_global_list(v.global_state) + seq![(v.assignments.len() as u8)] + enc_assign_list(v.assignments) + seq![(v.valencies.len() as u8)] + enc_name_list(v.valencies) + enc_genesis(v.genesis) + seq![(v.transitions.len() as u8)], enc_trans_list(v.transitions), seq![(v.extensions.len() as u8)] + (enc_trans_list(v.extensions) + (seq![(v.errors.len() as u8)] + (enc_error_list(v.errors) + (enc_opt_name(v.default_operation) + (enc_u64(v.types_id) + t))))));
    lemma_add_assoc(seq![ver_tag(v.version)] + enc_bytes(v.name) + seq![(v.global_state.len() as u8)] + enc_global_list(v.global_state) + seq![(v.assignments.len() as u8)] + enc_assign_list(v.assignments) + seq![(v.valencies.len() as u8)] + enc_name_list(v.valencies) + enc_genesis(v.genesis), seq![(v.transitions.len() as u8)], enc_trans_list(v.transitions) + (seq![(v.extensions.len() as u8)] + (enc_trans_list(v.extensions) + (seq![(v.errors.len() as u8)] + (enc_error_list(v.errors) + (enc_opt_name(v.default_operation) + (enc_u64(v.types_id) + t)))))));
    lemma_add_assoc(seq![ver_tag(v.version)] + enc_bytes(v.name) + seq![(v.global_state.len() as u8)] + enc_global_list(v.global_state) + seq![(v.assignments.len() as u8)] + enc_assign_list(v.assignments) + seq![(v.valencies.len() as u8)] + enc_name_list(v.valencies), enc_genesis(v.genesis), seq![(v.transitions.len() as u8)] + (enc_trans_list(v.transitions) + (seq![(v.extensions.len() as u8)] + (enc_trans_list(v.extensions) + (seq![(v.errors.len() as u8)] + (enc_error_list(v.errors) + (enc_opt_name(v.default_operation) + (enc_u64(v.types_id) + t))))))));
    lemma_add_assoc(seq![ver_tag(v.version)] + enc_bytes(v.name) + seq![(v.global_state.len() as u8)] + enc_global_list(v.global_state) + seq![(v.assignments.len() as u8)] + enc_assign_list(v.assignments) + seq![(v.valencies.len() as u8)], enc_name_list(v.valencies), enc_genesis(v.genesis) + (seq![(v.transitions.len() as u8)] + (enc_trans_list(v.transitions) + (seq![(v.extensions.len() as u8)] + (enc_trans_list(v.extensions) + (seq![(v.errors.len() as u8)] + (enc_error_list(v.errors) + (enc_opt_name(v.default_operation) + (enc_u64(v.types_id) + t)))))))));
    lemma_add_assoc(seq![ver_tag(v.version)] + enc_bytes(v.name) + seq![(v.global_state.len() as u8)] + enc_global_list(v.global_state) + seq![(v.assignments.len() as u8)] + enc_assign_list(v.assignments), seq![(v.valencies.len() as u8)], enc_name_list(v.valencies) + (enc_genesis(v.genesis) + (seq![(v.transitions.len() as u8)] + (enc_trans_list(v.transitions) + (seq![(v.extensions.len() as u8)] + (enc_trans_list(v.extensions) + (seq![(v.errors.len() as u8)] + (enc_error_list(v.errors) + (enc_opt_name(v.default_operation) + (enc_u64(v.types_id) + t))))))))));
    lemma_add_assoc(seq![ver_tag(v.version)] + enc_bytes(v.name) + seq![(v.global_state.len() as u8)] + enc_global_list(v.global_state) + seq![(v.assignments.len() as u8)], enc_assign_list(v.assignments), seq![(v.valencies.len() as u8)] + (enc_name_list(v.valencies) + (enc_genesis(v.genesis) + (seq![(v.transitions.len() as u8)] + (enc_trans_list(v.transitions) + (seq![(v.extensions.len() as u8)] + (enc_trans_list(v.extensions) + (seq![(v.errors.len() as u8)] + (enc_error_list(v.errors) + (enc_opt_name(v.default_operation) + (enc_u64(v.types_id) + t)))))))))));
    lemma_add_assoc(seq![ver_tag(v.version)] + enc_bytes(v.name) + seq![(v.global_state.len() as u8)] + enc_global_list(v.global_state), seq![(v.assignments.len() as u8)], enc_assign_list(v.assignments) + (seq![(v.valencies.len() as u8)] + (enc_name_list(v.valencies) + (enc_genesis(v.genesis) + (seq![(v.transitions.len() as u8)] + (enc_trans_list(v.transitions) + (seq![(v.extensions.len() as u8)] + (enc_trans_list(v.extensions) + (seq![(v.errors.len() as u8)] + (enc_error_list(v.errors) + (enc_opt_name(v.default_operation) + (enc_u64(v.types_id) + t))))))))))));
    lemma_add_assoc(seq![ver_tag(v.version)] + enc_bytes(v.name) + seq![(v.global_state.len() as u8)], enc_global_list(v.global_state), seq![(v.assignments.len() as u8)] + (enc_assign_list(v.assignments) + (seq![(v.valencies.len() as u8)] + (enc_name_list(v.valencies) + (enc_genesis(v.genesis) + (seq![(v.transitions.len() as u8)] + (enc_trans_list(v.transitions) + (seq![(v.extensions.len() as u8)] + (enc_trans_list(v.extensions) + (seq![(v.errors.len() as u8)] + (enc_error_list(v.errors) + (enc_opt_name(v.default_operation) + (enc_u64(v.types_id) + t)))))))))))));
    lemma_add_assoc(seq![ver_tag(v.version)] + enc_bytes(v.name), seq![(v.global_state.len() as u8)], enc_global_list(v.global_state) + (seq![(v.assignments.len() as u8)] + (enc_assign_list(v.assignments) + (seq![(v.valencies.len() as u8)] + (enc_name_list(v.valencies) + (enc_genesis(v.genesis) + (seq![(v.transitions.len() as u8)] + (enc_trans_list(v.transitions) + (seq![(v.extensions.len() as u8)] + (enc_trans_list(v.extensions) + (seq![(v.errors.len() as u8)] + (enc_error_list(v.errors) + (enc_opt_name(v.default_operation) + (enc_u64(v.types_id) + t))))))))))))));
    lemma_add_assoc(seq![ver_tag(v.version)], enc_bytes(v.name), seq![(v.global_state.len() as u8)] + (enc_global_list(v.global_state) + (seq![(v.assignments.len() as u8)] + (enc_assign_list(v.assignments) + (seq![(v.valencies.len() as u8)] + (enc_name_list(v.valencies) + (enc_genesis(v.genesis) + (seq![(v.transitions.len() as u8)] + (enc_trans_list(v.transitions) + (seq![(v.extensions.len() as u8)] + (enc_trans_list(v.extensions) + (seq![(v.errors.len() as u8)] + (enc_error_list(v.errors) + (enc_opt_name(v.default_operation) + (enc_u64(v.types_id) + t)))))))))))))));
    lemma_add_assoc(seq![(v.global_state.len() as u8)], enc_global_list(v.global_state), seq![(v.assignments.len() as u8)] + (enc_assign_list(v.assignments) + (seq![(v.valencies.len() as u8)] + (enc_name_list(v.valencies) + (enc_genesis(v.genesis) + (seq![(v.transitions.len() as u8)] + (enc_trans_list(v.transitions) + (seq![(v.extensions.len() as u8)] + (enc_trans_list(v.extensions) + (seq![(v.errors.len() as u8)] + (enc_error_list(v.errors) + (enc_opt_name(v.default_operation) + (enc_u64(v.types_id) + t)))))))))))));
    lemma_add_assoc(seq![(v.assignments.len() as u8)], enc_assign_list(v.assignments), seq![(v.valencies.len() as u8)] + (enc_name_list(v.valencies) + (enc_genesis(v.genesis) + (seq![(v.transitions.len() as u8)] + (enc_trans_list(v.transitions) + (seq![(v.extensions.len() as u8)] + (enc_trans_list(v.extensions) + (seq![(v.errors.len() as u8)] + (enc_error_list(v.errors) + (enc_opt_name(v.default_operation) + (enc_u64(v.types_id) + t)))))))))));
    lemma_add_assoc(seq![(v.valencies.len() as u8)], enc_name_list(v.valencies), enc_genesis(v.genesis) + (seq![(v.transitions.len() as u8)] + (enc_trans_list(v.transitions) + (seq![(v.extensions.len() as u8)] + (enc_trans_list(v.extensions) + (seq![(v.errors.len() as u8)] + (enc_error_list(v.errors) + (enc_opt_name(v.default_operation) + (enc_u64(v.types_id) + t)))))))));
    lemma_add_assoc(seq![(v.transitions.len() as u8)], enc_trans_list(v.transitions), seq![(v.extensions.len() as u8)] + (enc_trans_list(v.extensions) + (seq![(v.errors.len() as u8)] + (enc_error_list(v.errors) + (enc_opt_name(v.default_operation) + (enc_u64(v.types_id) + t))))));
    lemma_add_assoc(seq![(v.extensions.len() as u8)], enc_trans_list(v.extensions), seq![(v.errors.len() as u8)] + (enc_error_list(v.errors) + (enc_opt_name(v.default_operation) + (enc_u64(v.types_id) + t))));
    lemma_add_assoc(seq![(v.errors.len() as u8)], enc_error_list(v.errors), enc_opt_name(v.default_operation) + (enc_u64(v.types_id) + t));
}

/// Hex text is twice as long as what it encodes.
pub proof fn lemma_hex_len(b: Seq<u8>)
    ensures
        hex_of(b).len() == 2 * b.len(),
    decreases b.len(),
{
    if b.len() > 0 {
        lemma_hex_len(b.drop_first());
    }
}

/// Value of one hex digit, or none; complete for every digit the encoder
/// emits.
fn hex_val(c: u8) -> (r: Option<u8>)
    ensures
        match r {
            Some(x) => x < 16,
            None => true,
        },
        forall|n: u8| (n < 16 && c == #[trigger] hex_digit(n)) ==> r == Some(n),
{
    if 48 <= c && c <= 57 {
        Some(c - 48)
    } else if 97 <= c && c <= 102 {
        Some(c - 87)
    } else {
        None
    }
}

/// Decodes hex text into bytes; rejects odd lengths and stray characters,
/// and accepts every text the encoder emits.
#[verifier::rlimit(100)]
fn from_hex(v: &[u8]) -> (r: Option<Vec<u8>>)
    ensures
        forall|b: Seq<u8>| (v@ == #[trigger] hex_of(b)) ==> (r matches Some(d) && d@ == b),
{
    if v.len() % 2 != 0 {
        proof {
            assert forall|b: Seq<u8>| (v@ == #[trigger] hex_of(b)) implies (None::<Vec<
                u8,
            >> matches Some(d) && d@ == b) by {
                lemma_hex_len(b);
            }
        }
        return None;
    }
    let mut out: Vec<u8> = Vec::new();
    let mut i: usize = 0;
    proof {
        assert forall|b: Seq<u8>| (v@ == #[trigger] hex_of(b)) implies (v@.len() == 2 * b.len()
            && out@ == b.take(0) && v@.skip(0) == hex_of(b.skip(0))) by {
            lemma_hex_len(b);
            assert(b.take(0) =~= Seq::<u8>::empty());
            assert(b.skip(0) =~= b);
            assert(v@.skip(0) =~= v@);
        }
    }
    while i + 1 < v.len()
        invariant
            i % 2 == 0,
            i <= v@.len(),
            v@.len() % 2 == 0,
            forall|b: Seq<u8>| (v@ == #[trigger] hex_of(b)) ==> (v@.len() == 2 * b.len()
                && out@ == b.take(i as int / 2) && v@.skip(i as int) == hex_of(b.skip(
                i as int / 2,
            ))),
        decreases v@.len() - i,
    {
        let ghost outp = out@;
        let hi = match hex_val(v[i]) {
            Some(x) => x,
            None => {
                proof {
                    assert forall|b: Seq<u8>| (v@ == #[trigger] hex_of(b)) implies (None::<Vec<
                        u8,
                    >> matches Some(d) && d@ == b) by {
                        lemma_hex_len(b);
                        let k = i as int / 2;
                        lemma_hex_len(b.skip(k));
                        assert(b.skip(k)[0] == b[k]);
                        assert(hex_of(b.skip(k))[0] == hex_digit(b[k] / 16));
                        assert(v@[i as int] == hex_digit(b[k] / 16));
                        assert(b[k] / 16 < 16);
                    }
                }
                return None;
            },
        };
        let lo = match hex_val(v[i + 1]) {
            Some(x) => x,
            None => {
                proof {
                    assert forall|b: Seq<u8>| (v@ == #[trigger] hex_of(b)) implies (None::<Vec<
                        u8,
                    >> matches Some(d) && d@ == b) by {
                        lemma_hex_len(b);
                        let k = i as int / 2;
                        lemma_hex_len(b.skip(k));
                        assert(b.skip(k)[0] == b[k]);
                        assert(hex_of(b.skip(k))[1] == hex_digit(b[k] % 16));
                        assert(v@[i as int + 1] == hex_digit(b[k] % 16));
                        assert(b[k] % 16 < 16);
                    }
                }
                return None;
            },
        };
        out.push(hi * 16 + lo);
        i = i + 2;
        proof {
            assert forall|b: Seq<u8>| (v@ == #[trigger] hex_of(b)) implies (v@.len() == 2
                * b.len() && out@ == b.take(i as int / 2) && v@.skip(i as int) == hex_of(
                b.skip(i as int / 2),
            )) by {
                lemma_hex_len(b);
                let k = (i - 2) as int / 2;
                lemma_hex_len(b.skip(k));
                assert(b.skip(k)[0] == b[k]);
                assert(hex_of(b.skip(k))[0] == hex_digit(b[k] / 16));
                assert(hex_of(b.skip(k))[1] == hex_digit(b[k] % 16));
                assert(v@[(i - 2) as int] == hex_digit(b[k] / 16));
                assert(v@[(i - 2) as int + 1] == hex_digit(b[k] % 16));
                assert(hi == b[k] / 16);
                assert(lo == b[k] % 16);
                assert(hi * 16 + lo == b[k]);
                assert(out@ == outp.push(b[k]));
                assert(b.take(k).push(b[k]) =~= b.take(k + 1));
                assert(b.skip(k).drop_first() =~= b.skip(k + 1));
                assert(v@.skip((i - 2) as int).skip(2) =~= v@.skip(i as int));
                assert(hex_of(b.skip(k)).skip(2) =~= hex_of(b.skip(k + 1)));
                assert(v@.skip(i as int) =~= hex_of(b.skip(k + 1)));
            }
        }
    }
    proof {
        assert forall|b: Seq<u8>| (v@ == #[trigger] hex_of(b)) implies (Some(out) matches Some(
            d,
        ) && d@ == b) by {
            lemma_hex_len(b);
            assert(i == v@.len());
            assert(b.take(b.len() as int) =~= b);
        }
    }
    Some(out)
}

/// Decodes canonical bytes back into a schema. Decoding succeeds exactly
/// when some well-formed, closed schema has the input as its canonical
/// encoding, and then returns that schema.
pub fn decode(bytes: &[u8]) -> (r: Option<Iface>)
    ensures
        match r {
            Some(s) => {
                &&& s@.wf()
                &&& s@.closed()
                &&& bytes@ == encode_spec(s@)
                &&& forall|v: IfaceV| (v.wf() && v.closed() && bytes@ == #[trigger] encode_spec(
                    v,
                )) ==> v == s@
            },
            None => forall|v: IfaceV| !(v.wf() && v.closed() && bytes@ == #[trigger] encode_spec(
                v,
            )),
        },
{
    let mut rd = Rd { buf: bytes, pos: 0, ok: true };
    let ghost rd0 = rd;
    let iface = rd.schema();
    let complete = rd.ok && rd.pos == bytes.len();
    proof {
        assert forall|v: IfaceV| (v.wf() && bytes@ == #[trigger] encode_spec(v)) implies (
        complete && iface@ == v) by {
            assert(rd0.rest() =~= bytes@);
            assert(encode_spec(v) + Seq::<u8>::empty() =~= bytes@);
            assert(frag_iface(rd0.rest(), v, Seq::<u8>::empty()));
            assert(rd.rest().len() == 0);
        }
    }
    if !complete {
        return None;
    }
    if !iface.check_wf() {
        return None;
    }
    if !iface.check_closed() {
        return None;
    }
    let re = iface.encode();
    if crate::ident::bytes_eq(re.as_slice(), bytes) {
        Some(iface)
    } else {
        None
    }
}

/// Decodes an armored envelope back into a schema. Decoding succeeds exactly
/// when some well-formed, closed schema has the input as its armored text,
/// and then returns that schema.
#[verifier::rlimit(100)]
pub fn from_armored(text: &[u8]) -> (r: Option<Iface>)
    ensures
        match r {
            Some(s) => {
                &&& s@.wf()
                &&& s@.closed()
                &&& text@ == armor_spec(encode_spec(s@))
                &&& forall|v: IfaceV| (v.wf() && v.closed() && text@ == #[trigger] armor_spec(
                    encode_spec(v),
                )) ==> v == s@
            },
            None => forall|v: IfaceV| !(v.wf() && v.closed() && text@ == #[trigger] armor_spec(
                encode_spec(v),
            )),
        },
{
    let header = header_bytes();
    let footer = footer_bytes();
    if text.len() < header.len() {
        proof {
            assert forall|v: IfaceV| (v.wf() && v.closed() && text@ == #[trigger] armor_spec(
                encode_spec(v),
            )) implies false by {
                lemma_armor_parts(v, text@);
            }
        }
        return None;
    }
    if text.len() - header.len() < footer.len() {
        proof {
            assert forall|v: IfaceV| (v.wf() && v.closed() && text@ == #[trigger] armor_spec(
                encode_spec(v),
            )) implies false by {
                lemma_armor_parts(v, text@);
            }
        }
        return None;
    }
    let start = header.len();
    let end = text.len() - footer.len();
    let mut hexpart: Vec<u8> = Vec::new();
    let mut i: usize = start;
    while i < end
        invariant
            start <= i <= end,
            end <= text@.len(),
            start == armor_header().len(),
            hexpart@ == text@.subrange(start as int, i as int),
        decreases end - i,
    {
        hexpart.push(text[i]);
        proof {
            assert(text@.subrange(start as int, i + 1) =~= text@.subrange(
                start as int,
                i as int,
            ).push(text@[i as int]));
        }
        i = i + 1;
    }
    let ghost hx = text@.subrange(start as int, end as int);
    let body = match from_hex(hexpart.as_slice()) {
        Some(b) => b,
        None => {
            proof {
                assert forall|v: IfaceV| (v.wf() && v.closed() && text@
                    == #[trigger] armor_spec(encode_spec(v))) implies false by {
                    lemma_armor_parts(v, text@);
                }
            }
            return None;
        },
    };
    proof {
        assert forall|v: IfaceV| (v.wf() && v.closed() && text@ == #[trigger] armor_spec(
            encode_spec(v),
        )) implies body@ == encode_spec(v) by {
            lemma_armor_parts(v, text@);
        }
    }
    let iface = match decode(body.as_slice()) {
        Some(s) => s,
        None => {
            return None;
        },
    };
    let re = iface.to_armored();
    if crate::ident::bytes_eq(re.as_slice(), text) {
        Some(iface)
    } else {
        proof {
            assert forall|v: IfaceV| (v.wf() && v.closed() && text@ == #[trigger] armor_spec(
                encode_spec(v),
            )) implies false by {
                assert(body@ == encode_spec(v));
                assert(iface@ == v);
            }
        }
        None
    }
}

} // verus!
