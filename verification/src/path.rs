//! Path identity encoding.
//!
//! The identity of a batch target is the encoded form of its absolute
//! directory path: every literal `%` is doubled, then every `/` becomes a
//! single `%`. The result is a single path component (it holds no `/`), and
//! the mapping is reversible byte for byte.

use vstd::prelude::*;

verus! {

/// The escape byte `%`.
pub const ESCAPE_BYTE: u8 = 37;
/// The path separator byte `/`.
pub const SLASH_BYTE: u8 = 47;

/// Encoding of a single byte: `%` doubles, `/` becomes `%`, the rest stay.
pub open spec fn spec_encode_byte(b: u8) -> Seq<u8> {
    if b == ESCAPE_BYTE {
        seq![ESCAPE_BYTE, ESCAPE_BYTE]
    } else if b == SLASH_BYTE {
        seq![ESCAPE_BYTE]
    } else {
        seq![b]
    }
}

/// The encoded form of a byte path.
pub open spec fn spec_encode(s: Seq<u8>) -> Seq<u8>
    decreases s.len(),
{
    if s.len() == 0 {
        Seq::empty()
    } else {
        spec_encode_byte(s[0]) + spec_encode(s.skip(1))
    }
}

/// The decoded form: `%%` yields `%`, any other `%` yields `/`.
pub open spec fn spec_decode(s: Seq<u8>) -> Seq<u8>
    decreases s.len(),
{
    if s.len() == 0 {
        Seq::empty()
    } else if s[0] == ESCAPE_BYTE {
        if s.len() >= 2 && s[1] == ESCAPE_BYTE {
            seq![ESCAPE_BYTE] + spec_decode(s.skip(2))
        } else {
            seq![SLASH_BYTE] + spec_decode(s.skip(1))
        }
    } else {
        seq![s[0]] + spec_decode(s.skip(1))
    }
}

/// Encode an absolute byte path into a single-component file name.
pub fn encode(p: &Vec<u8>) -> (r: Vec<u8>)
    ensures
        r@ == spec_encode(p@),
{
    let mut r: Vec<u8> = Vec::new();
    let mut i: usize = 0;
    proof {
        assert(p@.skip(0) =~= p@);
        assert(r@ + spec_encode(p@) =~= spec_encode(p@));
    }
    while i < p.len()
        invariant
            i <= p.len(),
            spec_encode(p@) == r@ + spec_encode(p@.skip(i as int)),
        decreases p.len() - i,
    {
        let b = p[i];
        proof {
            assert(p@.skip(i as int).len() > 0);
            assert(p@.skip(i as int)[0] == p@[i as int]);
            assert(p@.skip(i as int).skip(1) =~= p@.skip(i + 1));
        }
        if b == ESCAPE_BYTE {
            r.push(ESCAPE_BYTE);
            r.push(ESCAPE_BYTE);
        } else if b == SLASH_BYTE {
            r.push(ESCAPE_BYTE);
        } else {
            r.push(b);
        }
        assert(spec_encode(p@) == r@ + spec_encode(p@.skip(i + 1)));
        i = i + 1;
    }
    proof {
        assert(p@.skip(p@.len() as int) =~= Seq::<u8>::empty());
        assert(r@ =~= spec_encode(p@));
    }
    r
}

/// Decode an encoded file name back into the byte path it stands for.
pub fn decode(p: &Vec<u8>) -> (r: Vec<u8>)
    ensures
        r@ == spec_decode(p@),
{
    let mut r: Vec<u8> = Vec::new();
    let mut i: usize = 0;
    proof {
        assert(p@.skip(0) =~= p@);
        assert(r@ + spec_decode(p@) =~= spec_decode(p@));
    }
    while i < p.len()
        invariant
            i <= p.len(),
            spec_decode(p@) == r@ + spec_decode(p@.skip(i as int)),
        decreases p.len() - i,
    {
        let b = p[i];
        proof {
            assert(p@.skip(i as int).len() > 0);
            assert(p@.skip(i as int)[0] == p@[i as int]);
            assert(p@.skip(i as int).skip(1) =~= p@.skip(i + 1));
        }
        if b == ESCAPE_BYTE {
            if i + 1 < p.len() && p[i + 1] == ESCAPE_BYTE {
                proof {
                    assert(p@.skip(i as int)[1] == p@[i + 1]);
                    assert(p@.skip(i as int).skip(2) =~= p@.skip(i + 2));
                }
                r.push(ESCAPE_BYTE);
                assert(spec_decode(p@) == r@ + spec_decode(p@.skip(i + 2)));
                i = i + 2;
            } else {
                r.push(SLASH_BYTE);
                assert(spec_decode(p@) == r@ + spec_decode(p@.skip(i + 1)));
                i = i + 1;
            }
        } else {
            r.push(b);
            assert(spec_decode(p@) == r@ + spec_decode(p@.skip(i + 1)));
            i = i + 1;
        }
    }
    proof {
        assert(p@.skip(p@.len() as int) =~= Seq::<u8>::empty());
        assert(r@ =~= spec_decode(p@));
    }
    r
}

/// A byte path survives the encode/decode round trip exactly when no `/` is
/// immediately followed by `/` or `%`: a `/` encodes to a lone `%`, and a
/// following escape byte would pair with it during decoding. Canonical
/// absolute paths never repeat `/`; a component starting with `%` is the one
/// shape this identity scheme cannot carry.
pub open spec fn round_trip_safe(p: Seq<u8>) -> bool {
    forall|i: int|
        0 <= i && i + 1 < p.len() && #[trigger] p[i] == SLASH_BYTE ==> p[i + 1] != SLASH_BYTE
            && p[i + 1] != ESCAPE_BYTE
}

/// Decoding inverts encoding on every round-trip-safe byte path.
pub proof fn lemma_decode_encode(p: Seq<u8>)
    requires
        round_trip_safe(p),
    ensures
        spec_decode(spec_encode(p)) == p,
    decreases p.len(),
{
    if p.len() == 0 {
    } else {
        let q = p.skip(1);
        assert(round_trip_safe(q)) by {
            assert(forall|i: int|
                0 <= i && i + 1 < q.len() ==> #[trigger] q[i] == p[i + 1] && q[i + 1] == p[i
                    + 2]);
        }
        lemma_decode_encode(q);
        let head = spec_encode_byte(p[0]);
        let tail = spec_encode(q);
        let e = spec_encode(p);
        assert(e == head + tail);
        if p[0] == ESCAPE_BYTE {
            assert(e[0] == ESCAPE_BYTE && e[1] == ESCAPE_BYTE);
            assert(e.skip(2) =~= tail);
            assert(spec_decode(e) =~= seq![p[0]] + spec_decode(tail));
        } else if p[0] == SLASH_BYTE {
            assert(e[0] == ESCAPE_BYTE);
            if q.len() == 0 {
                assert(e =~= seq![ESCAPE_BYTE]);
                assert(e.skip(1) =~= Seq::<u8>::empty());
                assert(spec_decode(e) =~= seq![SLASH_BYTE]);
            } else {
                // Safety of the pair (p[0], p[1]) says p[1] is an ordinary
                // byte, so the tail encoding cannot open with `%`.
                assert(q[0] == p[1]);
                assert(q[0] != ESCAPE_BYTE && q[0] != SLASH_BYTE);
                assert(tail == spec_encode_byte(q[0]) + spec_encode(q.skip(1)));
                assert(tail[0] == q[0]);
                assert(e[1] == tail[0]);
                assert(e[1] != ESCAPE_BYTE);
                assert(e.skip(1) =~= tail);
                assert(spec_decode(e) =~= seq![SLASH_BYTE] + spec_decode(tail));
            }
        } else {
            assert(e[0] == p[0]);
            assert(e[0] != ESCAPE_BYTE);
            assert(e.skip(1) =~= tail);
            assert(spec_decode(e) =~= seq![p[0]] + spec_decode(tail));
        }
        assert(spec_decode(e) =~= p);
    }
}

/// The encoded form holds no `/`: it is a single path component.
pub proof fn lemma_encode_no_slash(p: Seq<u8>)
    ensures
        forall|i: int| 0 <= i < spec_encode(p).len() ==> spec_encode(p)[i] != SLASH_BYTE,
    decreases p.len(),
{
    if p.len() == 0 {
    } else {
        lemma_encode_no_slash(p.skip(1));
        let head = spec_encode_byte(p[0]);
        let tail = spec_encode(p.skip(1));
        let e = spec_encode(p);
        assert(e == head + tail);
        assert(forall|i: int| 0 <= i < head.len() ==> head[i] != SLASH_BYTE);
        assert forall|i: int| 0 <= i < e.len() implies e[i] != SLASH_BYTE by {
            if i < head.len() {
                assert(e[i] == head[i]);
            } else {
                assert(e[i] == tail[i - head.len()]);
            }
        }
    }
}

/// Which state directory a path belongs to.
#[derive(Clone, Copy, Debug, PartialEq, Eq, Structural)]
pub enum Kind {
    Runtime,
    Persistent,
}

/// The last occurrence of a byte, if any.
pub open spec fn spec_rfind(s: Seq<u8>, b: u8) -> Option<int>
    decreases s.len(),
{
    if s.len() == 0 {
        None
    } else if s.last() == b {
        Some(s.len() - 1)
    } else {
        spec_rfind(s.drop_last(), b)
    }
}

/// The parent of a byte path: everything before the last `/`, the root
/// when the last `/` opens the path, nothing when there is no `/` at all.
pub open spec fn spec_parent(p: Seq<u8>) -> Option<Seq<u8>> {
    match spec_rfind(p, SLASH_BYTE) {
        None => None,
        Some(k) => if k == 0 {
            Some(seq![SLASH_BYTE])
        } else {
            Some(p.take(k))
        },
    }
}

/// The position of the last `/` of a byte path, if it has one.
fn rfind_slash(p: &Vec<u8>) -> (r: Option<usize>)
    ensures
        match r {
            Some(k) => k < p@.len() && spec_rfind(p@, SLASH_BYTE) == Some(k as int),
            None => spec_rfind(p@, SLASH_BYTE) is None,
        },
{
    let mut k: usize = p.len();
    proof {
        assert(p@.take(p@.len() as int) =~= p@);
    }
    while k > 0
        invariant
            k <= p.len(),
            spec_rfind(p@, SLASH_BYTE) == spec_rfind(p@.take(k as int), SLASH_BYTE),
        decreases k,
    {
        proof {
            assert(p@.take(k as int).last() == p@[k - 1]);
            assert(p@.take(k as int).drop_last() =~= p@.take(k - 1));
        }
        if p[k - 1] == SLASH_BYTE {
            return Some(k - 1);
        }
        k = k - 1;
    }
    proof {
        assert(p@.take(0) =~= Seq::<u8>::empty());
    }
    None
}

/// Whether a state file path lies directly in the given runtime directory:
/// its parent is that directory.
pub fn is_runtime(p: &Vec<u8>, runtime_dir: &Vec<u8>) -> (r: bool)
    ensures
        r == (spec_parent(p@) == Some(runtime_dir@)),
{
    match rfind_slash(p) {
        None => false,
        Some(k) => {
            if k == 0 {
                let root: Vec<u8> = vec![SLASH_BYTE];
                proof {
                    assert(root@ =~= seq![SLASH_BYTE]);
                }
                crate::bytes_eq(&root, runtime_dir)
            } else {
                let parent = vstd::slice::slice_to_vec(
                    vstd::slice::slice_subrange(p.as_slice(), 0, k),
                );
                proof {
                    assert(parent@ =~= p@.take(k as int));
                }
                crate::bytes_eq(&parent, runtime_dir)
            }
        },
    }
}

} // verus!
