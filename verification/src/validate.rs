//! Decision procedure for a schema's structural well-formedness, used when a
//! schema value arrives from outside the builder (for instance from decoding
//! an exported envelope).

use vstd::prelude::*;
use crate::ident::{ascii_text, bytes_eq, bytes_lt, lemma_lex_lt_trans, lex_lt};
use crate::iface::{
    AssignIface, code_in, GenesisIface, GlobalIface, Iface, key_in, name_in, TransitionIface,
    Variant, view_names, view_occ_map, wf_codes, wf_keyed, wf_names,
};
use crate::occurrence::Occurrence;

verus! {

/// Decides whether a byte string is a well-formed name: printable ASCII,
/// nonempty, short enough for a one-byte length prefix.
pub(crate) fn check_text(v: &Vec<u8>) -> (r: bool)
    ensures
        r == (ascii_text(v@) && v@.len() >= 1),
{
    if v.len() == 0 || v.len() > 255 {
        return false;
    }
    let mut i: usize = 0;
    while i < v.len()
        invariant
            0 <= i <= v@.len(),
            1 <= v@.len() <= 255,
            forall|j: int| 0 <= j < i ==> 32 <= #[trigger] v@[j] && v@[j] < 127,
        decreases v@.len() - i,
    {
        let b = v[i];
        if b < 32 || b >= 127 {
            return false;
        }
        i = i + 1;
    }
    true
}

/// Decides well-formedness of an occurrence map: canonical key order, ASCII
/// keys, bounded size.
pub(crate) fn check_occ_map(m: &Vec<(Vec<u8>, Occurrence)>) -> (r: bool)
    ensures
        r == wf_keyed(view_occ_map(m@)),
{
    let ghost v = view_occ_map(m@);
    proof {
        assert(v.len() == m@.len());
    }
    if m.len() > 255 {
        return false;
    }
    let mut i: usize = 0;
    while i < m.len()
        invariant
            0 <= i <= m@.len(),
            v == view_occ_map(m@),
            m@.len() <= 255,
            forall|a: int, b: int| 0 <= a < b < i
                ==> lex_lt((#[trigger] v[a]).0, (#[trigger] v[b]).0),
            forall|j: int| 0 <= j < i ==> ascii_text((#[trigger] v[j]).0) && v[j].0.len() >= 1,
        decreases m@.len() - i,
    {
        proof {
            assert(v[i as int] == (m@[i as int].0@, m@[i as int].1));
            assert(v[i as int].0 == m@[i as int].0@);
        }
        if !check_text(&m[i].0) {
            return false;
        }
        if i > 0 {
            proof {
                assert(v[i as int - 1] == (m@[i as int - 1].0@, m@[i as int - 1].1));
                assert(v[i as int - 1].0 == m@[i as int - 1].0@);
            }
            if !bytes_lt(m[i - 1].0.as_slice(), m[i].0.as_slice()) {
                return false;
            }
            proof {
                assert forall|a: int| 0 <= a < i - 1 implies lex_lt(
                    (#[trigger] v[a]).0,
                    v[i as int].0,
                ) by {
                    lemma_lex_lt_trans(v[a].0, v[i as int - 1].0, v[i as int].0);
                }
            }
        }
        i = i + 1;
    }
    true
}

/// Decides well-formedness of a name set held as a sorted list.
pub(crate) fn check_names(m: &Vec<Vec<u8>>) -> (r: bool)
    ensures
        r == wf_names(view_names(m@)),
{
    let ghost v = view_names(m@);
    proof {
        assert(v.len() == m@.len());
    }
    if m.len() > 255 {
        return false;
    }
    let mut i: usize = 0;
    while i < m.len()
        invariant
            0 <= i <= m@.len(),
            v == view_names(m@),
            m@.len() <= 255,
            forall|a: int, b: int| 0 <= a < b < i ==> lex_lt(#[trigger] v[a], #[trigger] v[b]),
            forall|j: int| 0 <= j < i ==> ascii_text(#[trigger] v[j]) && v[j].len() >= 1,
        decreases m@.len() - i,
    {
        proof {
            assert(v[i as int] == m@[i as int]@);
        }
        if !check_text(&m[i]) {
            return false;
        }
        if i > 0 {
            proof {
                assert(v[i as int - 1] == m@[i as int - 1]@);
            }
            if !bytes_lt(m[i - 1].as_slice(), m[i].as_slice()) {
                return false;
            }
            proof {
                assert forall|a: int| 0 <= a < i - 1 implies lex_lt(
                    #[trigger] v[a],
                    v[i as int],
                ) by {
                    lemma_lex_lt_trans(v[a], v[i as int - 1], v[i as int]);
                }
            }
        }
        i = i + 1;
    }
    true
}

/// Decides well-formedness of an error-code set: strictly ascending, small
/// positive codes.
pub(crate) fn check_codes(m: &Vec<u8>) -> (r: bool)
    ensures
        r == wf_codes(m@),
{
    if m.len() > 255 {
        return false;
    }
    let mut i: usize = 0;
    while i < m.len()
        invariant
            0 <= i <= m@.len(),
            m@.len() <= 255,
            forall|a: int, b: int| 0 <= a < b < i ==> #[trigger] m@[a] < #[trigger] m@[b],
            forall|j: int| 0 <= j < i ==> #[trigger] m@[j] >= 1,
        decreases m@.len() - i,
    {
        if m[i] < 1 {
            return false;
        }
        if i > 0 && m[i - 1] >= m[i] {
            return false;
        }
        i = i + 1;
    }
    true
}

/// Decides well-formedness of a global-state map.
pub(crate) fn check_global_map(m: &Vec<(Vec<u8>, GlobalIface)>) -> (r: bool)
    ensures
        r == wf_keyed(m@.map_values(|p: (Vec<u8>, GlobalIface)| (p.0@, p.1))),
{
    let ghost v = m@.map_values(|p: (Vec<u8>, GlobalIface)| (p.0@, p.1));
    proof {
        assert(v.len() == m@.len());
    }
    if m.len() > 255 {
        return false;
    }
    let mut i: usize = 0;
    while i < m.len()
        invariant
            0 <= i <= m@.len(),
            v == m@.map_values(|p: (Vec<u8>, GlobalIface)| (p.0@, p.1)),
            m@.len() <= 255,
            forall|a: int, b: int| 0 <= a < b < i
                ==> lex_lt((#[trigger] v[a]).0, (#[trigger] v[b]).0),
            forall|j: int| 0 <= j < i ==> ascii_text((#[trigger] v[j]).0) && v[j].0.len() >= 1,
        decreases m@.len() - i,
    {
        proof {
            assert(v[i as int] == (m@[i as int].0@, m@[i as int].1));
            assert(v[i as int].0 == m@[i as int].0@);
        }
        if !check_text(&m[i].0) {
            return false;
        }
        if i > 0 {
            proof {
                assert(v[i as int - 1] == (m@[i as int - 1].0@, m@[i as int - 1].1));
                assert(v[i as int - 1].0 == m@[i as int - 1].0@);
            }
            if !bytes_lt(m[i - 1].0.as_slice(), m[i].0.as_slice()) {
                return false;
            }
            proof {
                assert forall|a: int| 0 <= a < i - 1 implies lex_lt(
                    (#[trigger] v[a]).0,
                    v[i as int].0,
                ) by {
                    lemma_lex_lt_trans(v[a].0, v[i as int - 1].0, v[i as int].0);
                }
            }
        }
        i = i + 1;
    }
    true
}

/// Decides well-formedness of an assignment map.
pub(crate) fn check_assign_map(m: &Vec<(Vec<u8>, AssignIface)>) -> (r: bool)
    ensures
        r == wf_keyed(m@.map_values(|p: (Vec<u8>, AssignIface)| (p.0@, p.1))),
{
    let ghost v = m@.map_values(|p: (Vec<u8>, AssignIface)| (p.0@, p.1));
    proof {
        assert(v.len() == m@.len());
    }
    if m.len() > 255 {
        return false;
    }
    let mut i: usize = 0;
    while i < m.len()
        invariant
            0 <= i <= m@.len(),
            v == m@.map_values(|p: (Vec<u8>, AssignIface)| (p.0@, p.1)),
            m@.len() <= 255,
            forall|a: int, b: int| 0 <= a < b < i
                ==> lex_lt((#[trigger] v[a]).0, (#[trigger] v[b]).0),
            forall|j: int| 0 <= j < i ==> ascii_text((#[trigger] v[j]).0) && v[j].0.len() >= 1,
        decreases m@.len() - i,
    {
        proof {
            assert(v[i as int] == (m@[i as int].0@, m@[i as int].1));
            assert(v[i as int].0 == m@[i as int].0@);
        }
        if !check_text(&m[i].0) {
            return false;
        }
        if i > 0 {
            proof {
                assert(v[i as int - 1] == (m@[i as int - 1].0@, m@[i as int - 1].1));
                assert(v[i as int - 1].0 == m@[i as int - 1].0@);
            }
            if !bytes_lt(m[i - 1].0.as_slice(), m[i].0.as_slice()) {
                return false;
            }
            proof {
                assert forall|a: int| 0 <= a < i - 1 implies lex_lt(
                    (#[trigger] v[a]).0,
                    v[i as int].0,
                ) by {
                    lemma_lex_lt_trans(v[a].0, v[i as int - 1].0, v[i as int].0);
                }
            }
        }
        i = i + 1;
    }
    true
}

/// Decides well-formedness of a genesis schema.
pub(crate) fn check_genesis(g: &GenesisIface) -> (r: bool)
    ensures
        r == g@.wf(),
{
    if !check_occ_map(&g.globals) {
        return false;
    }
    if !check_occ_map(&g.assignments) {
        return false;
    }
    if !check_names(&g.valencies) {
        return false;
    }
    check_codes(&g.errors)
}

/// Decides well-formedness of a transition schema.
pub(crate) fn check_transition(t: &TransitionIface) -> (r: bool)
    ensures
        r == t@.wf(),
{
    if !check_occ_map(&t.globals) {
        return false;
    }
    if !check_occ_map(&t.inputs) {
        return false;
    }
    if !check_occ_map(&t.assignments) {
        return false;
    }
    if !check_names(&t.valencies) {
        return false;
    }
    if !check_codes(&t.errors) {
        return false;
    }
    match &t.default_assignment {
        Some(d) => check_text(d),
        None => true,
    }
}

/// Decides well-formedness of a transition map.
pub(crate) fn check_trans_map(m: &Vec<(Vec<u8>, TransitionIface)>) -> (r: bool)
    ensures
        r == (wf_keyed(m@.map_values(|p: (Vec<u8>, TransitionIface)| (p.0@, p.1@)))
            && forall|i: int| 0 <= i < m@.len() ==> (#[trigger] m@[i]).1@.wf()),
{
    let ghost v = m@.map_values(|p: (Vec<u8>, TransitionIface)| (p.0@, p.1@));
    proof {
        assert(v.len() == m@.len());
    }
    if m.len() > 255 {
        return false;
    }
    let mut i: usize = 0;
    while i < m.len()
        invariant
            0 <= i <= m@.len(),
            v == m@.map_values(|p: (Vec<u8>, TransitionIface)| (p.0@, p.1@)),
            m@.len() <= 255,
            forall|a: int, b: int| 0 <= a < b < i
                ==> lex_lt((#[trigger] v[a]).0, (#[trigger] v[b]).0),
            forall|j: int| 0 <= j < i ==> ascii_text((#[trigger] v[j]).0) && v[j].0.len() >= 1,
            forall|j: int| 0 <= j < i ==> (#[trigger] m@[j]).1@.wf(),
        decreases m@.len() - i,
    {
        proof {
            assert(v[i as int] == (m@[i as int].0@, m@[i as int].1@));
            assert(v[i as int].0 == m@[i as int].0@);
        }
        if !check_text(&m[i].0) {
            return false;
        }
        if !check_transition(&m[i].1) {
            return false;
        }
        if i > 0 {
            proof {
                assert(v[i as int - 1] == (m@[i as int - 1].0@, m@[i as int - 1].1@));
                assert(v[i as int - 1].0 == m@[i as int - 1].0@);
            }
            if !bytes_lt(m[i - 1].0.as_slice(), m[i].0.as_slice()) {
                return false;
            }
            proof {
                assert forall|a: int| 0 <= a < i - 1 implies lex_lt(
                    (#[trigger] v[a]).0,
                    v[i as int].0,
                ) by {
                    lemma_lex_lt_trans(v[a].0, v[i as int - 1].0, v[i as int].0);
                }
            }
        }
        i = i + 1;
    }
    true
}

/// Decides well-formedness of the error map: strictly ascending positive
/// codes, unique ASCII names, ASCII descriptions.
pub(crate) fn check_errors(m: &Vec<(Variant, Vec<u8>)>) -> (r: bool)
    ensures
        r == ({
            let v = crate::codec::view_errors(m@);
            &&& v.len() <= 255
            &&& forall|a: int, b: int| 0 <= a < b < v.len() ==> v[a].code < v[b].code
            &&& forall|a: int, b: int| 0 <= a < b < v.len() ==> v[a].name != v[b].name
            &&& forall|i: int| 0 <= i < v.len() ==> (#[trigger] v[i]).code >= 1
            &&& forall|i: int| 0 <= i < v.len()
                ==> ascii_text((#[trigger] v[i]).name) && v[i].name.len() >= 1
            &&& forall|i: int| 0 <= i < v.len()
                ==> ascii_text((#[trigger] v[i]).description) && v[i].description.len() >= 1
        }),
{
    let ghost v = crate::codec::view_errors(m@);
    proof {
        assert(v.len() == m@.len());
    }
    if m.len() > 255 {
        return false;
    }
    let mut i: usize = 0;
    while i < m.len()
        invariant
            0 <= i <= m@.len(),
            v == crate::codec::view_errors(m@),
            m@.len() <= 255,
            forall|a: int, b: int| 0 <= a < b < i ==> (#[trigger] v[a]).code < (#[trigger] v[b]).code,
            forall|a: int, b: int| 0 <= a < b < i ==> (#[trigger] v[a]).name != (#[trigger] v[b]).name,
            forall|j: int| 0 <= j < i ==> (#[trigger] v[j]).code >= 1,
            forall|j: int| 0 <= j < i ==> ascii_text((#[trigger] v[j]).name) && v[j].name.len() >= 1,
            forall|j: int| 0 <= j < i
                ==> ascii_text((#[trigger] v[j]).description) && v[j].description.len() >= 1,
        decreases m@.len() - i,
    {
        proof {
            assert(v[i as int].code == m@[i as int].0.code);
            assert(v[i as int].name == m@[i as int].0.name@);
            assert(v[i as int].description == m@[i as int].1@);
        }
        if m[i].0.code < 1 {
            return false;
        }
        if !check_text(&m[i].0.name) {
            return false;
        }
        if !check_text(&m[i].1) {
            return false;
        }
        if i > 0 && m[i - 1].0.code >= m[i].0.code {
            proof {
                assert(v[i as int - 1].code == m@[i as int - 1].0.code);
            }
            return false;
        }
        let mut j: usize = 0;
        while j < i
            invariant
                0 <= j <= i < m@.len(),
                v == crate::codec::view_errors(m@),
                v[i as int].name == m@[i as int].0.name@,
                forall|a: int| 0 <= a < j ==> (#[trigger] v[a]).name != v[i as int].name,
            decreases i - j,
        {
            proof {
                assert(v[j as int].name == m@[j as int].0.name@);
            }
            if bytes_eq(m[j].0.name.as_slice(), m[i].0.name.as_slice()) {
                return false;
            }
            j = j + 1;
        }
        proof {
            if i > 0 {
                assert(v[i as int - 1].code == m@[i as int - 1].0.code);
            }
        }
        i = i + 1;
    }
    true
}

impl Iface {
    /// Decides whether the whole schema is structurally well-formed.
    pub fn check_wf(&self) -> (r: bool)
        ensures
            r == self@.wf(),
    {
        proof {
            let vt = self.transitions@.map_values(
                |p: (Vec<u8>, TransitionIface)| (p.0@, p.1@),
            );
            assert(vt =~= self@.transitions);
            let ve = self.extensions@.map_values(
                |p: (Vec<u8>, TransitionIface)| (p.0@, p.1@),
            );
            assert(ve =~= self@.extensions);
            assert(crate::codec::view_errors(self.errors@) =~= self@.errors);
            assert forall|i: int| 0 <= i < self.transitions@.len() implies ((
            #[trigger] self.transitions@[i]).1@.wf() <==> self@.transitions[i].1.wf()) by {
                assert(self@.transitions[i].1 == self.transitions@[i].1@);
            }
            assert forall|i: int| 0 <= i < self.extensions@.len() implies ((
            #[trigger] self.extensions@[i]).1@.wf() <==> self@.extensions[i].1.wf()) by {
                assert(self@.extensions[i].1 == self.extensions@[i].1@);
            }
        }
        if !check_text(&self.name) {
            return false;
        }
        if !check_global_map(&self.global_state) {
            return false;
        }
        if !check_assign_map(&self.assignments) {
            return false;
        }
        if !check_names(&self.valencies) {
            return false;
        }
        if !check_genesis(&self.genesis) {
            return false;
        }
        if !check_trans_map(&self.transitions) {
            return false;
        }
        if !check_trans_map(&self.extensions) {
            return false;
        }
        if !check_errors(&self.errors) {
            return false;
        }
        match &self.default_operation {
            Some(d) => check_text(d),
            None => true,
        }
    }
}

/// The global-state map declares this field.
fn has_key_global(m: &Vec<(Vec<u8>, GlobalIface)>, k: &[u8]) -> (r: bool)
    ensures
        r == key_in(m@.map_values(|p: (Vec<u8>, GlobalIface)| (p.0@, p.1)), k@),
{
    let ghost v = m@.map_values(|p: (Vec<u8>, GlobalIface)| (p.0@, p.1));
    let mut i: usize = 0;
    while i < m.len()
        invariant
            0 <= i <= m@.len(),
            v == m@.map_values(|p: (Vec<u8>, GlobalIface)| (p.0@, p.1)),
            forall|j: int| 0 <= j < i ==> (#[trigger] v[j]).0 != k@,
        decreases m@.len() - i,
    {
        proof {
            assert(v[i as int].0 == m@[i as int].0@);
        }
        if bytes_eq(m[i].0.as_slice(), k) {
            return true;
        }
        i = i + 1;
    }
    false
}

/// The assignment map declares this slot.
fn has_key_assign(m: &Vec<(Vec<u8>, AssignIface)>, k: &[u8]) -> (r: bool)
    ensures
        r == key_in(m@.map_values(|p: (Vec<u8>, AssignIface)| (p.0@, p.1)), k@),
{
    let ghost v = m@.map_values(|p: (Vec<u8>, AssignIface)| (p.0@, p.1));
    let mut i: usize = 0;
    while i < m.len()
        invariant
            0 <= i <= m@.len(),
            v == m@.map_values(|p: (Vec<u8>, AssignIface)| (p.0@, p.1)),
            forall|j: int| 0 <= j < i ==> (#[trigger] v[j]).0 != k@,
        decreases m@.len() - i,
    {
        proof {
            assert(v[i as int].0 == m@[i as int].0@);
        }
        if bytes_eq(m[i].0.as_slice(), k) {
            return true;
        }
        i = i + 1;
    }
    false
}

/// An occurrence map mentions this field.
fn has_key_occ(m: &Vec<(Vec<u8>, Occurrence)>, k: &[u8]) -> (r: bool)
    ensures
        r == key_in(view_occ_map(m@), k@),
{
    let ghost v = view_occ_map(m@);
    let mut i: usize = 0;
    while i < m.len()
        invariant
            0 <= i <= m@.len(),
            v == view_occ_map(m@),
            forall|j: int| 0 <= j < i ==> (#[trigger] v[j]).0 != k@,
        decreases m@.len() - i,
    {
        proof {
            assert(v[i as int].0 == m@[i as int].0@);
        }
        if bytes_eq(m[i].0.as_slice(), k) {
            return true;
        }
        i = i + 1;
    }
    false
}

/// The transition map declares this operation.
fn has_key_trans(m: &Vec<(Vec<u8>, TransitionIface)>, k: &[u8]) -> (r: bool)
    ensures
        r == key_in(m@.map_values(|p: (Vec<u8>, TransitionIface)| (p.0@, p.1@)), k@),
{
    let ghost v = m@.map_values(|p: (Vec<u8>, TransitionIface)| (p.0@, p.1@));
    let mut i: usize = 0;
    while i < m.len()
        invariant
            0 <= i <= m@.len(),
            v == m@.map_values(|p: (Vec<u8>, TransitionIface)| (p.0@, p.1@)),
            forall|j: int| 0 <= j < i ==> (#[trigger] v[j]).0 != k@,
        decreases m@.len() - i,
    {
        proof {
            assert(v[i as int].0 == m@[i as int].0@);
        }
        if bytes_eq(m[i].0.as_slice(), k) {
            return true;
        }
        i = i + 1;
    }
    false
}

/// The valency set declares this name.
fn has_name(m: &Vec<Vec<u8>>, k: &[u8]) -> (r: bool)
    ensures
        r == name_in(view_names(m@), k@),
{
    let ghost v = view_names(m@);
    let mut i: usize = 0;
    while i < m.len()
        invariant
            0 <= i <= m@.len(),
            v == view_names(m@),
            forall|j: int| 0 <= j < i ==> #[trigger] v[j] != k@,
        decreases m@.len() - i,
    {
        proof {
            assert(v[i as int] == m@[i as int]@);
        }
        if bytes_eq(m[i].as_slice(), k) {
            return true;
        }
        i = i + 1;
    }
    false
}

/// The schema-wide error map declares this code.
fn has_code(m: &Vec<(Variant, Vec<u8>)>, c: u8) -> (r: bool)
    ensures
        r == code_in(crate::codec::view_errors(m@), c),
{
    let ghost v = crate::codec::view_errors(m@);
    let mut i: usize = 0;
    while i < m.len()
        invariant
            0 <= i <= m@.len(),
            v == crate::codec::view_errors(m@),
            forall|j: int| 0 <= j < i ==> (#[trigger] v[j]).code != c,
        decreases m@.len() - i,
    {
        proof {
            assert(v[i as int].code == m@[i as int].0.code);
        }
        if m[i].0.code == c {
            return true;
        }
        i = i + 1;
    }
    false
}

impl Iface {
    /// Decides whether one transition's references are all declared by this
    /// schema.
    fn check_transition_closed(&self, t: &TransitionIface) -> (r: bool)
        ensures
            r == t@.closed_in(self@),
    {
        proof {
            assert(self.global_state@.map_values(|p: (Vec<u8>, GlobalIface)| (p.0@, p.1))
                =~= self@.global_state);
            assert(self.assignments@.map_values(|p: (Vec<u8>, AssignIface)| (p.0@, p.1))
                =~= self@.assignments);
            assert(view_names(self.valencies@) =~= self@.valencies);
            assert(crate::codec::view_errors(self.errors@) =~= self@.errors);
        }
        let ghost tv = t@;
        let mut i: usize = 0;
        while i < t.globals.len()
            invariant
                0 <= i <= t.globals@.len(),
                tv == t@,
                forall|j: int| 0 <= j < i
                    ==> key_in(self@.global_state, (#[trigger] tv.globals[j]).0),
            decreases t.globals@.len() - i,
        {
            proof {
                assert(tv.globals[i as int].0 == t.globals@[i as int].0@);
            }
            if !has_key_global(&self.global_state, t.globals[i].0.as_slice()) {
                return false;
            }
            i = i + 1;
        }
        let mut i: usize = 0;
        while i < t.inputs.len()
            invariant
                0 <= i <= t.inputs@.len(),
                tv == t@,
                forall|j: int| 0 <= j < i
                    ==> key_in(self@.assignments, (#[trigger] tv.inputs[j]).0),
            decreases t.inputs@.len() - i,
        {
            proof {
                assert(tv.inputs[i as int].0 == t.inputs@[i as int].0@);
            }
            if !has_key_assign(&self.assignments, t.inputs[i].0.as_slice()) {
                return false;
            }
            i = i + 1;
        }
        let mut i: usize = 0;
        while i < t.assignments.len()
            invariant
                0 <= i <= t.assignments@.len(),
                tv == t@,
                forall|j: int| 0 <= j < i
                    ==> key_in(self@.assignments, (#[trigger] tv.assignments[j]).0),
            decreases t.assignments@.len() - i,
        {
            proof {
                assert(tv.assignments[i as int].0 == t.assignments@[i as int].0@);
            }
            if !has_key_assign(&self.assignments, t.assignments[i].0.as_slice()) {
                return false;
            }
            i = i + 1;
        }
        let mut i: usize = 0;
        while i < t.valencies.len()
            invariant
                0 <= i <= t.valencies@.len(),
                tv == t@,
                forall|j: int| 0 <= j < i ==> name_in(self@.valencies, #[trigger] tv.valencies[j]),
            decreases t.valencies@.len() - i,
        {
            proof {
                assert(tv.valencies[i as int] == t.valencies@[i as int]@);
            }
            if !has_name(&self.valencies, t.valencies[i].as_slice()) {
                return false;
            }
            i = i + 1;
        }
        let mut i: usize = 0;
        while i < t.errors.len()
            invariant
                0 <= i <= t.errors@.len(),
                tv == t@,
                forall|j: int| 0 <= j < i ==> code_in(self@.errors, #[trigger] tv.errors[j]),
            decreases t.errors@.len() - i,
        {
            proof {
                assert(tv.errors[i as int] == t.errors@[i as int]);
            }
            if !has_code(&self.errors, t.errors[i]) {
                return false;
            }
            i = i + 1;
        }
        match &t.default_assignment {
            Some(d) => {
                proof {
                    assert(t@.default_assignment == Some(d@));
                }
                has_key_occ(&t.assignments, d.as_slice())
            },
            None => true,
        }
    }

    /// Decides referential closure of the whole schema: every field, valency,
    /// error code and operation referenced by the genesis or by any
    /// transition or extension is declared by the schema itself.
    pub fn check_closed(&self) -> (r: bool)
        ensures
            r == self@.closed(),
    {
        proof {
            assert(self.global_state@.map_values(|p: (Vec<u8>, GlobalIface)| (p.0@, p.1))
                =~= self@.global_state);
            assert(self.assignments@.map_values(|p: (Vec<u8>, AssignIface)| (p.0@, p.1))
                =~= self@.assignments);
            assert(view_names(self.valencies@) =~= self@.valencies);
            assert(crate::codec::view_errors(self.errors@) =~= self@.errors);
            assert(self.transitions@.map_values(|p: (Vec<u8>, TransitionIface)| (p.0@, p.1@))
                =~= self@.transitions);
            assert(self.extensions@.map_values(|p: (Vec<u8>, TransitionIface)| (p.0@, p.1@))
                =~= self@.extensions);
        }
        let ghost gv = self.genesis@;
        let mut i: usize = 0;
        while i < self.genesis.globals.len()
            invariant
                0 <= i <= self.genesis.globals@.len(),
                gv == self.genesis@,
                forall|j: int| 0 <= j < i
                    ==> key_in(self@.global_state, (#[trigger] gv.globals[j]).0),
            decreases self.genesis.globals@.len() - i,
        {
            proof {
                assert(gv.globals[i as int].0 == self.genesis.globals@[i as int].0@);
            }
            if !has_key_global(&self.global_state, self.genesis.globals[i].0.as_slice()) {
                return false;
            }
            i = i + 1;
        }
        let mut i: usize = 0;
        while i < self.genesis.assignments.len()
            invariant
                0 <= i <= self.genesis.assignments@.len(),
                gv == self.genesis@,
                forall|j: int| 0 <= j < i
                    ==> key_in(self@.assignments, (#[trigger] gv.assignments[j]).0),
            decreases self.genesis.assignments@.len() - i,
        {
            proof {
                assert(gv.assignments[i as int].0 == self.genesis.assignments@[i as int].0@);
            }
            if !has_key_assign(&self.assignments, self.genesis.assignments[i].0.as_slice()) {
                return false;
            }
            i = i + 1;
        }
        let mut i: usize = 0;
        while i < self.genesis.valencies.len()
            invariant
                0 <= i <= self.genesis.valencies@.len(),
                gv == self.genesis@,
                forall|j: int| 0 <= j < i ==> name_in(self@.valencies, #[trigger] gv.valencies[j]),
            decreases self.genesis.valencies@.len() - i,
        {
            proof {
                assert(gv.valencies[i as int] == self.genesis.valencies@[i as int]@);
            }
            if !has_name(&self.valencies, self.genesis.valencies[i].as_slice()) {
                return false;
            }
            i = i + 1;
        }
        let mut i: usize = 0;
        while i < self.genesis.errors.len()
            invariant
                0 <= i <= self.genesis.errors@.len(),
                gv == self.genesis@,
                forall|j: int| 0 <= j < i ==> code_in(self@.errors, #[trigger] gv.errors[j]),
            decreases self.genesis.errors@.len() - i,
        {
            proof {
                assert(gv.errors[i as int] == self.genesis.errors@[i as int]);
            }
            if !has_code(&self.errors, self.genesis.errors[i]) {
                return false;
            }
            i = i + 1;
        }
        let mut i: usize = 0;
        while i < self.transitions.len()
            invariant
                0 <= i <= self.transitions@.len(),
                forall|j: int| 0 <= j < i ==> (#[trigger] self@.transitions[j]).1.closed_in(self@),
            decreases self.transitions@.len() - i,
        {
            proof {
                assert(self@.transitions[i as int].1 == self.transitions@[i as int].1@);
            }
            if !self.check_transition_closed(&self.transitions[i].1) {
                return false;
            }
            i = i + 1;
        }
        let mut i: usize = 0;
        while i < self.extensions.len()
            invariant
                0 <= i <= self.extensions@.len(),
                forall|j: int| 0 <= j < i ==> (#[trigger] self@.extensions[j]).1.closed_in(self@),
            decreases self.extensions@.len() - i,
        {
            proof {
                assert(self@.extensions[i as int].1 == self.extensions@[i as int].1@);
            }
            if !self.check_transition_closed(&self.extensions[i].1) {
                return false;
            }
            i = i + 1;
        }
        match &self.default_operation {
            Some(d) => {
                proof {
                    assert(self@.default_operation == Some(d@));
                }
                has_key_trans(&self.transitions, d.as_slice())
            },
            None => true,
        }
    }
}

} // verus!
