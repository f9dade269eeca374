//! Fixed-width integer encoding for the wire protocol.
//!
//! Every multi-byte integer on the wire is an 8-byte unsigned value in
//! big-endian byte order; that order is a protocol constant, identical on
//! both ends of a connection.

use vstd::prelude::*;

verus! {

/// The eight big-endian bytes of `v`, most significant first.
pub open spec fn u64_be_bytes(v: u64) -> Seq<u8> {
    seq![
        (v >> 56) as u8,
        (v >> 48) as u8,
        (v >> 40) as u8,
        (v >> 32) as u8,
        (v >> 24) as u8,
        (v >> 16) as u8,
        (v >> 8) as u8,
        v as u8,
    ]
}

/// The value read back from eight big-endian bytes.
pub open spec fn be_u64_value(s: Seq<u8>) -> u64
    recommends
        s.len() == 8,
{
    ((s[0] as u64) << 56) | ((s[1] as u64) << 48) | ((s[2] as u64) << 40)
        | ((s[3] as u64) << 32) | ((s[4] as u64) << 24) | ((s[5] as u64) << 16)
        | ((s[6] as u64) << 8) | (s[7] as u64)
}

/// Decoding inverts encoding: the eight bytes of a value read back as
/// that value.
pub proof fn lemma_u64_round_trip(v: u64)
    ensures
        be_u64_value(u64_be_bytes(v)) == v,
{
    assert((((v >> 56) as u8) as u64) << 56 | (((v >> 48) as u8) as u64) << 48
        | (((v >> 40) as u8) as u64) << 40 | (((v >> 32) as u8) as u64) << 32
        | (((v >> 24) as u8) as u64) << 24 | (((v >> 16) as u8) as u64) << 16
        | (((v >> 8) as u8) as u64) << 8 | ((v as u8) as u64) == v) by (bit_vector);
}

/// Encoding inverts decoding as well: the two are a bijection between
/// values and eight-byte sequences, so equal encodings mean equal values
/// and a received prefix determines the value that was sent.
pub proof fn lemma_be_bytes_id(b: Seq<u8>)
    requires
        b.len() == 8,
    ensures
        u64_be_bytes(be_u64_value(b)) == b,
{
    let b0 = b[0];
    let b1 = b[1];
    let b2 = b[2];
    let b3 = b[3];
    let b4 = b[4];
    let b5 = b[5];
    let b6 = b[6];
    let b7 = b[7];
    let v = ((b0 as u64) << 56) | ((b1 as u64) << 48) | ((b2 as u64) << 40)
        | ((b3 as u64) << 32) | ((b4 as u64) << 24) | ((b5 as u64) << 16)
        | ((b6 as u64) << 8) | (b7 as u64);
    assert((v >> 56) as u8 == b0 && (v >> 48) as u8 == b1 && (v >> 40) as u8 == b2
        && (v >> 32) as u8 == b3 && (v >> 24) as u8 == b4 && (v >> 16) as u8 == b5
        && (v >> 8) as u8 == b6 && v as u8 == b7) by (bit_vector)
        requires
            v == ((b0 as u64) << 56) | ((b1 as u64) << 48) | ((b2 as u64) << 40)
                | ((b3 as u64) << 32) | ((b4 as u64) << 24) | ((b5 as u64) << 16)
                | ((b6 as u64) << 8) | (b7 as u64),
    ;
    assert(u64_be_bytes(be_u64_value(b)) =~= b);
}

/// Encode `v` as its eight big-endian bytes.
pub fn u64_to_be(v: u64) -> (r: Vec<u8>)
    ensures
        r@ == u64_be_bytes(v),
{
    let mut r: Vec<u8> = Vec::new();
    r.push((v >> 56) as u8);
    r.push((v >> 48) as u8);
    r.push((v >> 40) as u8);
    r.push((v >> 32) as u8);
    r.push((v >> 24) as u8);
    r.push((v >> 16) as u8);
    r.push((v >> 8) as u8);
    r.push(v as u8);
    proof {
        assert(r@ =~= u64_be_bytes(v));
    }
    r
}

/// Decode eight big-endian bytes, starting at `pos`, back into a value.
pub fn be_to_u64_at(b: &Vec<u8>, pos: usize) -> (r: u64)
    requires
        pos + 8 <= b@.len(),
    ensures
        r == be_u64_value(b@.subrange(pos as int, pos + 8)),
{
    // Binding the length keeps the usize bound on `pos + 7` in scope.
    let _len: usize = b.len();
    let r = ((b[pos] as u64) << 56) | ((b[pos + 1] as u64) << 48)
        | ((b[pos + 2] as u64) << 40) | ((b[pos + 3] as u64) << 32)
        | ((b[pos + 4] as u64) << 24) | ((b[pos + 5] as u64) << 16)
        | ((b[pos + 6] as u64) << 8) | (b[pos + 7] as u64);
    proof {
        let s = b@.subrange(pos as int, pos + 8);
        assert(s[0] == b@[pos as int]);
        assert(s[1] == b@[pos + 1]);
        assert(s[2] == b@[pos + 2]);
        assert(s[3] == b@[pos + 3]);
        assert(s[4] == b@[pos + 4]);
        assert(s[5] == b@[pos + 5]);
        assert(s[6] == b@[pos + 6]);
        assert(s[7] == b@[pos + 7]);
    }
    r
}

/// Decode a whole eight-byte buffer back into a value.
pub fn be_to_u64(b: &Vec<u8>) -> (r: u64)
    requires
        b@.len() == 8,
    ensures
        r == be_u64_value(b@),
{
    let r = be_to_u64_at(b, 0);
    proof {
        assert(b@.subrange(0, 8) =~= b@);
    }
    r
}

/// A file descriptor on the wire, sent before each file's bytes: the
/// name's length, the name's bytes, then the file size.
pub open spec fn descriptor_bytes(name: Seq<u8>, size: u64) -> Seq<u8> {
    u64_be_bytes(name.len() as u64) + name + u64_be_bytes(size)
}

/// Encode a file descriptor for the wire.
pub fn encode_descriptor(name: &Vec<u8>, size: u64) -> (r: Vec<u8>)
    ensures
        r@ == descriptor_bytes(name@, size),
{
    let mut out = u64_to_be(name.len() as u64);
    let mut name_bytes = vstd::slice::slice_to_vec(name.as_slice());
    out.append(&mut name_bytes);
    let mut size_bytes = u64_to_be(size);
    out.append(&mut size_bytes);
    proof {
        assert(out@ =~= descriptor_bytes(name@, size));
    }
    out
}

/// Parse the file descriptor at byte `pos`: the name, the declared size,
/// and the bytes consumed.  Exactly the descriptors that `encode` emits
/// are read back, with the same name and size; too few bytes parse to
/// nothing.
pub fn parse_descriptor(b: &Vec<u8>, pos: usize) -> (r: Option<(Vec<u8>, u64, usize)>)
    requires
        pos <= b@.len(),
    ensures
        r matches Some(t) ==> pos + t.2 <= b@.len() && t.2 == 16 + t.0@.len() && b@.subrange(
            pos as int,
            pos + t.2,
        ) == descriptor_bytes(t.0@, t.1),
        forall|name: Seq<u8>, size: u64|
            pos + 16 + name.len() <= b@.len() && b@.subrange(pos as int, pos + 16 + name.len())
                == #[trigger] descriptor_bytes(name, size) ==> (r matches Some(t) && t.0@ == name
                && t.1 == size && t.2 == 16 + name.len()),
{
    let total = b.len();
    if total - pos < 8 {
        proof {
            assert forall|name: Seq<u8>, size: u64|
                pos + 16 + name.len() <= b@.len() && b@.subrange(pos as int, pos + 16 + name.len())
                    == #[trigger] descriptor_bytes(name, size) implies false by {}
        }
        return None;
    }
    let name_len64 = be_to_u64_at(b, pos);
    proof {
        assert forall|name: Seq<u8>, size: u64|
            pos + 16 + name.len() <= b@.len() && b@.subrange(pos as int, pos + 16 + name.len())
                == #[trigger] descriptor_bytes(name, size) implies name_len64 == name.len() by {
            let d = descriptor_bytes(name, size);
            assert forall|k: int| 0 <= k < 8 implies #[trigger] (b@.subrange(pos as int, pos + 8)[k])
                == u64_be_bytes(name.len() as u64)[k] by {
                assert(b@.subrange(pos as int, pos + 16 + name.len())[k] == d[k]);
            }
            assert(b@.subrange(pos as int, pos + 8) =~= u64_be_bytes(name.len() as u64));
            lemma_u64_round_trip(name.len() as u64);
        }
    }
    if name_len64 > (total - pos - 8) as u64 {
        return None;
    }
    let name_len = name_len64 as usize;
    if total - pos - 8 - name_len < 8 {
        return None;
    }
    let mut name: Vec<u8> = Vec::new();
    let mut i: usize = 0;
    while i < name_len
        invariant
            i <= name_len,
            total == b@.len(),
            pos + 8 + name_len <= total,
            name@ == b@.subrange(pos + 8, pos + 8 + i),
        decreases name_len - i,
    {
        name.push(b[pos + 8 + i]);
        proof {
            assert(name@ =~= b@.subrange(pos + 8, pos + 8 + i + 1));
        }
        i = i + 1;
    }
    let size = be_to_u64_at(b, pos + 8 + name_len);
    let consumed = 16 + name_len;
    proof {
        lemma_be_bytes_id(b@.subrange(pos as int, pos + 8));
        lemma_be_bytes_id(b@.subrange(pos + 8 + name_len, pos + 16 + name_len));
        assert(b@.subrange(pos as int, pos + consumed) =~= descriptor_bytes(name@, size));
        assert forall|name2: Seq<u8>, size2: u64|
            pos + 16 + name2.len() <= b@.len() && b@.subrange(pos as int, pos + 16 + name2.len())
                == #[trigger] descriptor_bytes(name2, size2) implies (name@ == name2 && size
            == size2 && consumed == 16 + name2.len()) by {
            let d = descriptor_bytes(name2, size2);
            assert(name2.len() == name_len);
            assert forall|k: int| 0 <= k < name_len implies name@[k] == name2[k] by {
                assert(b@.subrange(pos as int, pos + 16 + name2.len())[8 + k] == d[8 + k]);
                assert(d[8 + k] == name2[k]);
                assert(name@[k] == b@[pos + 8 + k]);
            }
            assert(name@ =~= name2);
            assert forall|k: int| 0 <= k < 8 implies b@.subrange(
                pos + 8 + name_len,
                pos + 16 + name_len,
            )[k] == u64_be_bytes(size2)[k] by {
                assert(b@.subrange(pos as int, pos + 16 + name2.len())[8 + name_len + k] == d[8
                    + name_len + k]);
            }
            assert(b@.subrange(pos + 8 + name_len, pos + 16 + name_len) =~= u64_be_bytes(size2));
            lemma_u64_round_trip(size2);
        }
    }
    Some((name, size, consumed))
}

/// Whether two byte vectors hold exactly the same bytes.
pub fn bytes_equal(a: &Vec<u8>, b: &Vec<u8>) -> (r: bool)
    ensures
        r == (a@ == b@),
{
    if a.len() != b.len() {
        return false;
    }
    let mut i: usize = 0;
    while i < a.len()
        invariant
            i <= a@.len(),
            a@.len() == b@.len(),
            forall|j: int| 0 <= j < i ==> a@[j] == b@[j],
        decreases a@.len() - i,
    {
        if a[i] != b[i] {
            return false;
        }
        i = i + 1;
    }
    proof {
        assert(a@ =~= b@);
    }
    true
}

} // verus!
