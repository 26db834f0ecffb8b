//! Short ASCII identifiers, held as byte strings, and their lexicographic
//! order, which fixes the canonical serialization order of every schema map.

use vstd::prelude::*;
use vstd::string::StrSliceExecFns;

verus! {

/// The byte string of an ASCII string slice, character by character.
pub open spec fn ident_of(s: &str) -> Seq<u8> {
    Seq::new(s@.len(), |i: int| s@[i] as u8)
}

/// Builds the byte string of an ASCII name.
pub fn ident(s: &str) -> (r: Vec<u8>)
    requires
        s.is_ascii(),
    ensures
        r@ == ident_of(s),
{
    broadcast use vstd::string::is_ascii_spec_bytes;

    let r = s.as_bytes_vec();
    proof {
        assert(r@ =~= ident_of(s));
    }
    r
}

/// Printable ASCII text of bounded length, as the canonical encoding's
/// one-byte length prefix requires.
pub open spec fn ascii_text(s: Seq<u8>) -> bool {
    s.len() <= 255 && forall|i: int| 0 <= i < s.len() ==> 32 <= #[trigger] s[i] && s[i] < 127
}

/// Byte-string equality.
pub fn bytes_eq(a: &[u8], b: &[u8]) -> (r: bool)
    ensures
        r == (a@ == b@),
{
    if a.len() != b.len() {
        return false;
    }
    let mut i: usize = 0;
    while i < a.len()
        invariant
            0 <= i <= a.len(),
            a@.len() == b@.len(),
            forall|j: int| 0 <= j < i ==> a@[j] == b@[j],
        decreases a@.len() - i,
    {
        if a[i] != b[i] {
            return false;
        }
        i = i + 1;
    }
    proof {
        assert(a@ =~= b@);
    }
    true
}

/// Witness form of the lexicographic order: the two byte strings agree before
/// position `i`, and at `i` either the first ends or its byte is smaller.
pub open spec fn lex_lt_at(a: Seq<u8>, b: Seq<u8>, i: int) -> bool {
    &&& 0 <= i <= a.len()
    &&& i <= b.len()
    &&& forall|j: int| 0 <= j < i ==> a[j] == b[j]
    &&& ((i == a.len() && i < b.len()) || (i < a.len() && i < b.len() && a[i] < b[i]))
}

/// Strict lexicographic order on byte strings.
pub open spec fn lex_lt(a: Seq<u8>, b: Seq<u8>) -> bool {
    exists|i: int| lex_lt_at(a, b, i)
}

/// A position that witnesses the order establishes it.
pub proof fn lemma_lex_lt_at(a: Seq<u8>, b: Seq<u8>, i: int)
    requires
        lex_lt_at(a, b, i),
    ensures
        lex_lt(a, b),
{
}

/// The lexicographic order is transitive.
pub proof fn lemma_lex_lt_trans(a: Seq<u8>, b: Seq<u8>, c: Seq<u8>)
    requires
        lex_lt(a, b),
        lex_lt(b, c),
    ensures
        lex_lt(a, c),
{
    let i = choose|i: int| lex_lt_at(a, b, i);
    let j = choose|j: int| lex_lt_at(b, c, j);
    if i <= j {
        assert(lex_lt_at(a, c, i));
    } else {
        assert(forall|k: int| 0 <= k < j ==> a[k] == c[k]);
        assert(j < b.len());
        assert(b[j] < c[j]);
        assert(a[j] == b[j]);
        assert(lex_lt_at(a, c, j));
    }
}

/// Decides the lexicographic order on byte strings.
pub fn bytes_lt(a: &[u8], b: &[u8]) -> (r: bool)
    ensures
        r == lex_lt(a@, b@),
{
    let n: usize = if a.len() < b.len() { a.len() } else { b.len() };
    let mut i: usize = 0;
    while i < n
        invariant
            0 <= i <= n,
            n <= a@.len(),
            n <= b@.len(),
            n == if a@.len() < b@.len() { a@.len() } else { b@.len() },
            forall|j: int| 0 <= j < i ==> a@[j] == b@[j],
        decreases n - i,
    {
        if a[i] < b[i] {
            proof {
                lemma_lex_lt_at(a@, b@, i as int);
            }
            return true;
        }
        if a[i] > b[i] {
            proof {
                assert forall|k: int| !lex_lt_at(a@, b@, k) by {
                    if 0 <= k && k <= i {
                        assert(!lex_lt_at(a@, b@, k));
                    } else if k > i {
                        if lex_lt_at(a@, b@, k) {
                            assert(a@[i as int] == b@[i as int]);
                        }
                    }
                }
            }
            return false;
        }
        i = i + 1;
    }
    if a.len() < b.len() {
        proof {
            lemma_lex_lt_at(a@, b@, a@.len() as int);
        }
        true
    } else {
        proof {
            assert forall|k: int| !lex_lt_at(a@, b@, k) by {
                if lex_lt_at(a@, b@, k) {
                    assert(k < b@.len());
                    assert(k < a@.len() || a@.len() < b@.len());
                }
            }
        }
        false
    }
}

} // verus!
