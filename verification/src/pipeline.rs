//! The chunked authenticated-encryption streaming pipeline.
//!
//! A file's bytes travel as a sequence of frames.  Each frame is an 8-byte
//! big-endian length prefix over nonce plus ciphertext-plus-tag, then the
//! 12-byte nonce, then the ciphertext with its 16-byte tag.  A zero length
//! prefix ends the file's chunk stream.  Chunk order is significant: the
//! plaintexts, concatenated in arrival order, are the file's exact bytes.
//!
//! The sender cuts the plaintext into chunks of at most `CHUNK_SIZE`
//! bytes, seals each under the session key and a fresh nonce, and frames
//! it.  The receiver walks the frames, opens each chunk, and concatenates.
//! `open_stream` returns exactly the bytes that were sealed (never a
//! corrupted plaintext), and classifies every failure: a malformed frame,
//! a stream that ends too early, or an inauthentic chunk.

use vstd::prelude::*;
use vstd::slice::slice_subrange;
use vstd::slice::slice_to_vec;

use crate::TransferError;
use crate::crypto;
use crate::crypto::CHUNK_SIZE;
use crate::crypto::KEY_LEN;
use crate::crypto::NONCE_LEN;
use crate::crypto::TAG_LEN;
use crate::crypto::gcm_seal;
use crate::wire;
use crate::wire::be_u64_value;
use crate::wire::u64_be_bytes;

verus! {

/// All chunk plaintexts of a list, concatenated in order.
pub open spec fn concat_all(cs: Seq<Seq<u8>>) -> Seq<u8>
    decreases cs.len(),
{
    if cs.len() == 0 {
        Seq::empty()
    } else {
        cs[0] + concat_all(cs.skip(1))
    }
}

/// The canonical sender-side chunking: full `CHUNK_SIZE` chunks, then the
/// remainder; an empty input has no chunks at all.
pub open spec fn chunks_of(p: Seq<u8>) -> Seq<Seq<u8>>
    decreases p.len(),
{
    if p.len() == 0 {
        Seq::empty()
    } else if p.len() <= CHUNK_SIZE {
        seq![p] + chunks_of(p.skip(p.len() as int))
    } else {
        seq![p.take(CHUNK_SIZE as int)] + chunks_of(p.skip(CHUNK_SIZE as int))
    }
}

/// How many chunks a plaintext of `n` bytes cuts into.
pub open spec fn num_chunks(n: nat) -> nat
    decreases n,
{
    if n == 0 {
        0
    } else if n <= CHUNK_SIZE {
        1
    } else {
        1 + num_chunks((n - CHUNK_SIZE) as nat)
    }
}

/// Every nonce in the list is 12 bytes.
pub open spec fn wf_nonces(ns: Seq<Seq<u8>>) -> bool {
    forall|i: int| 0 <= i < ns.len() ==> (#[trigger] ns[i]).len() == NONCE_LEN
}

/// Every chunk respects the plaintext bound.
pub open spec fn wf_chunks(cs: Seq<Seq<u8>>) -> bool {
    forall|i: int| 0 <= i < cs.len() ==> (#[trigger] cs[i]).len() <= CHUNK_SIZE
}

/// Sealing each chunk appends exactly the 16-byte tag.  This is how the
/// AES-256-GCM implementation behaves; the sealing functions establish it
/// for the nonces and chunks they actually used.
pub open spec fn seal_sizes_ok(key: Seq<u8>, ns: Seq<Seq<u8>>, cs: Seq<Seq<u8>>) -> bool {
    forall|i: int|
        0 <= i < cs.len() ==> (#[trigger] gcm_seal(key, ns[i], cs[i])).len() == cs[i].len()
            + TAG_LEN
}

/// One frame: length prefix over nonce and ciphertext, nonce, ciphertext.
pub open spec fn frame_bytes(nonce: Seq<u8>, ct: Seq<u8>) -> Seq<u8> {
    u64_be_bytes((NONCE_LEN + ct.len()) as u64) + nonce + ct
}

/// The framed sealing of a chunk list: one frame per chunk, in order,
/// closed by the zero-length end-of-file frame.
pub open spec fn frames_seal(key: Seq<u8>, ns: Seq<Seq<u8>>, cs: Seq<Seq<u8>>) -> Seq<u8>
    decreases cs.len(),
{
    if cs.len() == 0 {
        u64_be_bytes(0)
    } else {
        frame_bytes(ns[0], gcm_seal(key, ns[0], cs[0])) + frames_seal(key, ns.skip(1), cs.skip(1))
    }
}

/// What the sender emits for a whole plaintext under a given nonce list.
pub open spec fn sealed_stream(key: Seq<u8>, ns: Seq<Seq<u8>>, p: Seq<u8>) -> Seq<u8> {
    frames_seal(key, ns, chunks_of(p))
}

/// How a received byte sequence parses as a chunk stream.
pub enum ParseStatus {
    /// A well-formed chunk stream: every frame authentic, closed by the
    /// zero-length frame.
    Accepted,
    /// A frame whose length prefix cannot describe a chunk: shorter than
    /// nonce plus tag, or beyond the chunk bound.
    Malformed,
    /// The bytes end in the middle of a frame.
    Premature,
    /// A chunk that no plaintext seals to under this key and nonce:
    /// corruption or tampering.
    AuthFailed,
}

/// Walk the frames of `s` under `key` and classify the outcome.
pub open spec fn parse_outcome(key: Seq<u8>, s: Seq<u8>) -> ParseStatus
    decreases s.len(),
{
    if s.len() < 8 {
        ParseStatus::Premature
    } else {
        let l = be_u64_value(s.take(8)) as int;
        if l == 0 {
            ParseStatus::Accepted
        } else if l < NONCE_LEN + TAG_LEN || l > NONCE_LEN + TAG_LEN + CHUNK_SIZE {
            ParseStatus::Malformed
        } else if s.len() < 8 + l {
            ParseStatus::Premature
        } else {
            let nonce = s.subrange(8, 8 + NONCE_LEN);
            let ct = s.subrange(8 + NONCE_LEN, 8 + l);
            if exists|p: Seq<u8>| p.len() <= CHUNK_SIZE && ct == gcm_seal(key, nonce, p) {
                parse_outcome(key, s.skip(8 + l))
            } else {
                ParseStatus::AuthFailed
            }
        }
    }
}

/// The session error a rejected chunk stream aborts with.
pub open spec fn error_of(st: ParseStatus) -> TransferError
    recommends
        !(st is Accepted),
{
    match st {
        ParseStatus::Malformed => TransferError::MalformedFrame,
        ParseStatus::Premature => TransferError::PrematureEnd,
        _ => TransferError::CryptoFailure,
    }
}

/// Chunking loses nothing: the chunks of a plaintext, concatenated in
/// order, are the plaintext itself, and every chunk respects the bound.
pub proof fn lemma_chunks_concat(p: Seq<u8>)
    ensures
        concat_all(chunks_of(p)) == p,
        wf_chunks(chunks_of(p)),
        chunks_of(p).len() == num_chunks(p.len()),
    decreases p.len(),
{
    if p.len() == 0 {
        assert(concat_all(chunks_of(p)) =~= p);
    } else {
        let first: Seq<u8> = if p.len() <= CHUNK_SIZE {
            p
        } else {
            p.take(CHUNK_SIZE as int)
        };
        let rest = p.skip(first.len() as int);
        lemma_chunks_concat(rest);
        assert(chunks_of(p).skip(1) =~= chunks_of(rest));
        assert(concat_all(chunks_of(p)) =~= first + concat_all(chunks_of(rest)));
        assert(first + rest =~= p);
        assert forall|i: int| 0 <= i < chunks_of(p).len() implies (#[trigger] chunks_of(p)[i]).len()
            <= CHUNK_SIZE by {
            if i > 0 {
                assert(chunks_of(p)[i] == chunks_of(rest)[i - 1]);
            }
        }
    }
}

/// Round trip: whatever `seal_stream` emits for a plaintext is, wherever
/// it lies in a received byte sequence, a valid framed prefix whose
/// chunks concatenate back to exactly that plaintext — so `open_stream`
/// accepts it and returns the original bytes, for plaintexts of any
/// length, empty and exact multiples of the chunk size included.
pub proof fn lemma_pipeline_round_trip(
    key: Seq<u8>,
    ns: Seq<Seq<u8>>,
    p: Seq<u8>,
    stream: Seq<u8>,
    pos: int,
)
    ensures
        (wf_nonces(ns) && ns.len() == chunks_of(p).len() && seal_sizes_ok(key, ns, chunks_of(p))
            && 0 <= pos && pos + sealed_stream(key, ns, p).len() <= stream.len()
            && stream.subrange(pos, pos + sealed_stream(key, ns, p).len()) == sealed_stream(
            key,
            ns,
            p,
        )) ==> is_valid_prefix(key, stream, pos, ns, chunks_of(p)) && concat_all(chunks_of(p))
            == p,
{
    lemma_chunks_concat(p);
}

/// A framed stream is never shorter than its closing zero frame.
proof fn lemma_frames_min_len(key: Seq<u8>, ns: Seq<Seq<u8>>, cs: Seq<Seq<u8>>)
    ensures
        frames_seal(key, ns, cs).len() >= 8,
{
}

/// How the first frame of a non-empty chunk list lies in any byte
/// sequence that the framed stream is a prefix of.
proof fn lemma_valid_prefix_first(key: Seq<u8>, ns: Seq<Seq<u8>>, cs: Seq<Seq<u8>>, s: Seq<u8>)
    requires
        wf_nonces(ns),
        wf_chunks(cs),
        ns.len() == cs.len(),
        seal_sizes_ok(key, ns, cs),
        cs.len() > 0,
        frames_seal(key, ns, cs).len() <= s.len(),
        s.subrange(0, frames_seal(key, ns, cs).len() as int) == frames_seal(key, ns, cs),
    ensures
        frames_seal(key, ns, cs).len() == 8 + NONCE_LEN + TAG_LEN + cs[0].len() + frames_seal(
            key,
            ns.skip(1),
            cs.skip(1),
        ).len(),
        s.len() >= 8,
        be_u64_value(s.subrange(0, 8)) == NONCE_LEN + TAG_LEN + cs[0].len(),
        s.subrange(8, 8 + NONCE_LEN) == ns[0],
        s.subrange(8 + NONCE_LEN, 8 + NONCE_LEN + TAG_LEN + cs[0].len()) == gcm_seal(
            key,
            ns[0],
            cs[0],
        ),
        frames_seal(key, ns.skip(1), cs.skip(1)).len() <= s.skip(
            8 + NONCE_LEN + TAG_LEN + cs[0].len(),
        ).len(),
        s.skip(8 + NONCE_LEN + TAG_LEN + cs[0].len()).subrange(
            0,
            frames_seal(key, ns.skip(1), cs.skip(1)).len() as int,
        ) == frames_seal(key, ns.skip(1), cs.skip(1)),
{
    let ct = gcm_seal(key, ns[0], cs[0]);
    let l0 = NONCE_LEN + TAG_LEN + cs[0].len();
    let f = frames_seal(key, ns, cs);
    let rest = frames_seal(key, ns.skip(1), cs.skip(1));
    assert(ct.len() == cs[0].len() + TAG_LEN);
    assert(ns[0].len() == NONCE_LEN);
    assert(f == frame_bytes(ns[0], ct) + rest);
    assert(f.len() == 8 + l0 + rest.len());
    let fb = frame_bytes(ns[0], ct);
    assert(fb.len() == 8 + l0);
    assert forall|k: int| 0 <= k < f.len() implies s[k] == f[k] by {
        assert(s.subrange(0, f.len() as int)[k] == s[k]);
    }
    assert forall|k: int| 0 <= k < 8 + l0 implies f[k] == fb[k] by {}
    assert(s.subrange(0, 8) =~= u64_be_bytes(l0 as u64));
    wire::lemma_u64_round_trip(l0 as u64);
    assert forall|j: int| 0 <= j < NONCE_LEN implies s.subrange(8, 8 + NONCE_LEN)[j]
        == ns[0][j] by {
        assert(fb[8 + j] == ns[0][j]);
    }
    assert(s.subrange(8, 8 + NONCE_LEN) =~= ns[0]);
    assert forall|j: int| 0 <= j < ct.len() implies s.subrange(8 + NONCE_LEN, 8 + l0)[j]
        == ct[j] by {
        assert(fb[8 + NONCE_LEN + j] == ct[j]);
    }
    assert(s.subrange(8 + NONCE_LEN, 8 + l0) =~= ct);
    assert forall|j: int| 0 <= j < rest.len() implies s.skip(8 + l0).subrange(
        0,
        rest.len() as int,
    )[j] == rest[j] by {
        assert(s[8 + l0 + j] == f[8 + l0 + j]);
        assert(f[8 + l0 + j] == rest[j]);
    }
    assert(s.skip(8 + l0).subrange(0, rest.len() as int) =~= rest);
}

/// Copy `v[from..to]` into a fresh vector.
fn copy_range(v: &Vec<u8>, from: usize, to: usize) -> (r: Vec<u8>)
    requires
        from <= to <= v@.len(),
    ensures
        r@ == v@.subrange(from as int, to as int),
{
    slice_to_vec(slice_subrange(v.as_slice(), from, to))
}

/// Seal and frame the tail of `plaintext` from byte `pos` on, spending the
/// nonces from index `i` on, one per chunk, and close with the zero frame.
fn seal_tail(key: &[u8], plaintext: &Vec<u8>, nonces: &Vec<Vec<u8>>, pos: usize, i: usize) -> (r:
    Vec<u8>)
    requires
        key@.len() == KEY_LEN,
        pos <= plaintext@.len(),
        i <= nonces@.len(),
        wf_nonces(nonces.deep_view()),
        nonces.deep_view().skip(i as int).len() == chunks_of(plaintext@.skip(pos as int)).len(),
    ensures
        r@ == frames_seal(
            key@,
            nonces.deep_view().skip(i as int),
            chunks_of(plaintext@.skip(pos as int)),
        ),
        seal_sizes_ok(
            key@,
            nonces.deep_view().skip(i as int),
            chunks_of(plaintext@.skip(pos as int)),
        ),
    decreases plaintext@.len() - pos,
{
    let ghost d = nonces.deep_view();
    let ghost suffix = plaintext@.skip(pos as int);
    let n = plaintext.len();
    let nlen = nonces.len();
    if pos == n {
        let r = wire::u64_to_be(0);
        proof {
            assert(chunks_of(suffix).len() == 0);
            assert(r@ == frames_seal(key@, d.skip(i as int), chunks_of(suffix)));
        }
        r
    } else {
        let csize: usize = if n - pos < CHUNK_SIZE {
            n - pos
        } else {
            CHUNK_SIZE
        };
        let ghost first: Seq<u8> = if suffix.len() <= CHUNK_SIZE {
            suffix
        } else {
            suffix.take(CHUNK_SIZE as int)
        };
        proof {
            assert(first =~= suffix.take(csize as int));
            assert(chunks_of(suffix) =~= seq![first] + chunks_of(suffix.skip(csize as int)));
            assert(i < nlen);
            assert(d[i as int] == d.skip(i as int)[0]);
            assert(d.skip(i as int).skip(1) =~= d.skip(i + 1));
            assert((seq![first] + chunks_of(suffix.skip(csize as int))).skip(1) =~= chunks_of(
                suffix.skip(csize as int),
            ));
            assert(suffix.skip(csize as int) =~= plaintext@.skip(pos + csize));
        }
        let chunk = copy_range(plaintext, pos, pos + csize);
        proof {
            assert(chunk@ =~= first);
        }
        let nonce: &Vec<u8> = &nonces[i];
        proof {
            assert(d[i as int] =~= nonces@[i as int]@);
            assert(nonce@ == nonces@[i as int]@);
        }
        let mut out = wire::u64_to_be((NONCE_LEN as u64) + (csize as u64) + (TAG_LEN as u64));
        let mut ct = crypto::seal_chunk(key, nonce.as_slice(), chunk.as_slice());
        let mut nonce_copy = slice_to_vec(nonce.as_slice());
        out.append(&mut nonce_copy);
        out.append(&mut ct);
        let mut rest = seal_tail(key, plaintext, nonces, pos + csize, i + 1);
        out.append(&mut rest);
        proof {
            let ns_t = d.skip(i as int);
            let cs_t = chunks_of(suffix);
            assert(out@ =~= frame_bytes(ns_t[0], gcm_seal(key@, ns_t[0], cs_t[0])) + frames_seal(
                key@,
                ns_t.skip(1),
                cs_t.skip(1),
            ));
            assert forall|j: int| 0 <= j < cs_t.len() implies (#[trigger] gcm_seal(
                key@,
                ns_t[j],
                cs_t[j],
            )).len() == cs_t[j].len() + TAG_LEN by {
                if j > 0 {
                    assert(ns_t[j] == d.skip(i + 1)[j - 1]);
                    assert(cs_t[j] == chunks_of(plaintext@.skip(pos + csize))[j - 1]);
                    assert(gcm_seal(key@, d.skip(i + 1)[j - 1], chunks_of(
                        plaintext@.skip(pos + csize),
                    )[j - 1]).len() == chunks_of(plaintext@.skip(pos + csize))[j - 1].len()
                        + TAG_LEN);
                }
            }
        }
        out
    }
}

/// Seal a whole plaintext into its framed chunk stream, one supplied nonce
/// per chunk: the canonical chunking, each chunk sealed under the session
/// key and its nonce, closed by the zero-length end-of-file frame.
pub fn seal_stream(key: &[u8], plaintext: &Vec<u8>, nonces: &Vec<Vec<u8>>) -> (r: Vec<u8>)
    requires
        key@.len() == KEY_LEN,
        wf_nonces(nonces.deep_view()),
        nonces.deep_view().len() == chunks_of(plaintext@).len(),
    ensures
        r@ == sealed_stream(key@, nonces.deep_view(), plaintext@),
        seal_sizes_ok(key@, nonces.deep_view(), chunks_of(plaintext@)),
{
    proof {
        assert(nonces.deep_view().skip(0) =~= nonces.deep_view());
        assert(plaintext@.skip(0) =~= plaintext@);
    }
    seal_tail(key, plaintext, nonces, 0, 0)
}

/// How many chunks a plaintext of `len` bytes will cut into.
pub fn chunk_count(len: usize) -> (r: usize)
    ensures
        r == num_chunks(len as nat),
        r <= len,
{
    let mut rem: usize = len;
    let mut c: usize = 0;
    while rem > 0
        invariant
            c + num_chunks(rem as nat) == num_chunks(len as nat),
            c <= len - rem,
        decreases rem,
    {
        if rem <= CHUNK_SIZE {
            rem = 0;
        } else {
            rem = rem - CHUNK_SIZE;
        }
        c = c + 1;
    }
    c
}

/// Draw `count` fresh random nonces, one per chunk, or report that the
/// random generator failed.
pub fn make_nonces(count: usize) -> (r: Option<Vec<Vec<u8>>>)
    ensures
        r matches Some(v) ==> v.deep_view().len() == count && wf_nonces(v.deep_view()),
        count == 0 ==> r is Some,
{
    let mut out: Vec<Vec<u8>> = Vec::new();
    let mut i: usize = 0;
    while i < count
        invariant
            i <= count,
            out.deep_view().len() == i,
            wf_nonces(out.deep_view()),
        decreases count - i,
    {
        match crypto::fresh_nonce() {
            Some(nonce) => {
                let ghost old_dv = out.deep_view();
                let ghost nv = nonce@;
                out.push(nonce);
                proof {
                    assert(out.deep_view() =~~= old_dv.push(nv));
                    assert forall|j: int| 0 <= j < out.deep_view().len() implies (
                    #[trigger] out.deep_view()[j]).len() == NONCE_LEN by {
                        if j < old_dv.len() {
                            assert(out.deep_view()[j] == old_dv[j]);
                        } else {
                            assert(out.deep_view()[j] == nv);
                        }
                    }
                }
            },
            None => {
                return None;
            },
        }
        i = i + 1;
    }
    Some(out)
}

/// A well-formed framed sealing under `key` lies at byte `pos` of `stream`.
pub open spec fn is_valid_prefix(
    key: Seq<u8>,
    stream: Seq<u8>,
    pos: int,
    ns: Seq<Seq<u8>>,
    cs: Seq<Seq<u8>>,
) -> bool {
    wf_nonces(ns) && wf_chunks(cs) && ns.len() == cs.len() && seal_sizes_ok(key, ns, cs) && pos
        + frames_seal(key, ns, cs).len() <= stream.len() && stream.subrange(
        pos,
        pos + frames_seal(key, ns, cs).len(),
    ) == frames_seal(key, ns, cs)
}

/// Open the chunk stream that starts at byte `pos` of `stream`, walking
/// frames up to and including the zero-length end-of-file frame.
///
/// On success the result is the concatenated chunk plaintexts and the
/// number of bytes consumed; the consumed bytes are then exactly an
/// authentic framed sealing of the returned plaintext, so no corrupted
/// byte is ever returned.  Conversely, any well-formed framed sealing is
/// accepted and returns exactly the bytes that were sealed.  Failures are
/// classified: a frame whose length prefix is impossible, a stream that
/// ends mid-frame, or a chunk that fails authentication.
#[verifier::rlimit(100)]
pub fn open_stream(key: &[u8], stream: &Vec<u8>, pos: usize) -> (r: Result<
    (Vec<u8>, usize),
    TransferError,
>)
    requires
        key@.len() == KEY_LEN,
        pos <= stream@.len(),
    ensures
        r matches Ok(t) ==> pos + t.1 <= stream@.len() && exists|ns: Seq<Seq<u8>>, cs: Seq<Seq<u8>>|
            wf_nonces(ns) && wf_chunks(cs) && ns.len() == cs.len() && seal_sizes_ok(key@, ns, cs)
                && t.0@ == concat_all(cs) && stream@.subrange(pos as int, pos + t.1)
                == #[trigger] frames_seal(key@, ns, cs),
        forall|ns: Seq<Seq<u8>>, cs: Seq<Seq<u8>>|
            #[trigger] is_valid_prefix(key@, stream@, pos as int, ns, cs) ==> (r matches Ok(t)
                && t.0@ == concat_all(cs) && t.1 == frames_seal(key@, ns, cs).len()),
        (r is Ok) == (parse_outcome(key@, stream@.skip(pos as int)) is Accepted),
        r matches Err(e) ==> e == error_of(parse_outcome(key@, stream@.skip(pos as int))),
    decreases stream@.len() - pos,
{
    let ghost s = stream@.skip(pos as int);
    let n = stream.len();
    proof {
        assert(s.len() == n - pos);
    }
    if n - pos < 8 {
        proof {
            assert forall|ns: Seq<Seq<u8>>, cs: Seq<Seq<u8>>|
                #[trigger] is_valid_prefix(key@, stream@, pos as int, ns, cs) implies false by {
                lemma_frames_min_len(key@, ns, cs);
            }
        }
        return Err(TransferError::PrematureEnd);
    }
    let l64 = wire::be_to_u64_at(stream, pos);
    proof {
        assert(s.take(8) =~= stream@.subrange(pos as int, pos + 8));
        assert(s.subrange(0, 8) =~= s.take(8));
    }
    proof {
        // Any valid framed prefix agrees with `s` on every byte it covers.
        assert forall|ns: Seq<Seq<u8>>, cs: Seq<Seq<u8>>|
            #[trigger] is_valid_prefix(key@, stream@, pos as int, ns, cs) implies frames_seal(key@, ns, cs).len() <= s.len() && s.subrange(
            0,
            frames_seal(key@, ns, cs).len() as int,
        ) == frames_seal(key@, ns, cs) by {
            let f = frames_seal(key@, ns, cs);
            assert(s.subrange(0, f.len() as int) =~= stream@.subrange(pos as int, pos + f.len()));
        }
    }
    if l64 == 0 {
        proof {
            wire::lemma_be_bytes_id(s.subrange(0, 8));
            let ns0: Seq<Seq<u8>> = Seq::empty();
            let cs0: Seq<Seq<u8>> = Seq::empty();
            assert(frames_seal(key@, ns0, cs0) == u64_be_bytes(0));
            assert(stream@.subrange(pos as int, pos + 8) == frames_seal(key@, ns0, cs0));
            assert(Seq::<u8>::empty() =~= concat_all(cs0));
            assert forall|ns: Seq<Seq<u8>>, cs: Seq<Seq<u8>>| #[trigger] is_valid_prefix(key@, stream@, pos as int, ns, cs) implies (cs.len()
                == 0 && frames_seal(key@, ns, cs).len() == 8) by {
                if cs.len() > 0 {
                    lemma_valid_prefix_first(key@, ns, cs, s);
                    wire::lemma_u64_round_trip((NONCE_LEN + TAG_LEN + cs[0].len()) as u64);
                }
            }
        }
        let empty: Vec<u8> = Vec::new();
        return Ok((empty, 8));
    }
    if l64 < (NONCE_LEN + TAG_LEN) as u64 || l64 > (NONCE_LEN + TAG_LEN + CHUNK_SIZE) as u64 {
        proof {
            assert forall|ns: Seq<Seq<u8>>, cs: Seq<Seq<u8>>| #[trigger] is_valid_prefix(key@, stream@, pos as int, ns, cs) implies
                false by {
                if cs.len() > 0 {
                    lemma_valid_prefix_first(key@, ns, cs, s);
                    wire::lemma_u64_round_trip((NONCE_LEN + TAG_LEN + cs[0].len()) as u64);
                } else {
                    wire::lemma_u64_round_trip(0);
                }
            }
        }
        return Err(TransferError::MalformedFrame);
    }
    let l = l64 as usize;
    if n - pos - 8 < l {
        proof {
            assert forall|ns: Seq<Seq<u8>>, cs: Seq<Seq<u8>>| #[trigger] is_valid_prefix(key@, stream@, pos as int, ns, cs) implies
                false by {
                if cs.len() > 0 {
                    lemma_valid_prefix_first(key@, ns, cs, s);
                    wire::lemma_u64_round_trip((NONCE_LEN + TAG_LEN + cs[0].len()) as u64);
                    lemma_frames_min_len(key@, ns.skip(1), cs.skip(1));
                } else {
                    wire::lemma_u64_round_trip(0);
                }
            }
        }
        return Err(TransferError::PrematureEnd);
    }
    let nonce = copy_range(stream, pos + 8, pos + 8 + NONCE_LEN);
    let ct = copy_range(stream, pos + 8 + NONCE_LEN, pos + 8 + l);
    proof {
        assert(nonce@ =~= s.subrange(8, 8 + NONCE_LEN));
        assert(ct@ =~= s.subrange(8 + NONCE_LEN, 8 + l));
    }
    match crypto::open_chunk(key, nonce.as_slice(), ct.as_slice()) {
        None => {
            proof {
                assert forall|ns: Seq<Seq<u8>>, cs: Seq<Seq<u8>>| #[trigger] is_valid_prefix(key@, stream@, pos as int, ns, cs) implies
                    false by {
                    if cs.len() > 0 {
                        lemma_valid_prefix_first(key@, ns, cs, s);
                        wire::lemma_u64_round_trip((NONCE_LEN + TAG_LEN + cs[0].len()) as u64);
                        assert(ct@ == gcm_seal(key@, nonce@, cs[0]));
                        assert(cs[0].len() <= CHUNK_SIZE);
                    } else {
                        wire::lemma_u64_round_trip(0);
                    }
                }
                assert(!(exists|p: Seq<u8>|
                    p.len() <= CHUNK_SIZE && s.subrange(8 + NONCE_LEN, 8 + l) == gcm_seal(
                        key@,
                        s.subrange(8, 8 + NONCE_LEN),
                        p,
                    )));
                assert(parse_outcome(key@, s) is AuthFailed);
            }
            return Err(TransferError::CryptoFailure);
        },
        Some(plain) => {
            let ghost pv = plain@;
            proof {
                assert(pv.len() <= CHUNK_SIZE);
                assert(exists|p: Seq<u8>|
                    p.len() <= CHUNK_SIZE && s.subrange(8 + NONCE_LEN, 8 + l) == gcm_seal(
                        key@,
                        s.subrange(8, 8 + NONCE_LEN),
                        p,
                    ));
                assert(s.skip(8 + l) =~= stream@.skip(pos + 8 + l));
                assert(parse_outcome(key@, s) == parse_outcome(key@, stream@.skip(pos + 8 + l)));
            }
            match open_stream(key, stream, pos + 8 + l) {
                Err(e) => {
                    proof {
                        assert forall|ns: Seq<Seq<u8>>, cs: Seq<Seq<u8>>|
                            #[trigger] is_valid_prefix(key@, stream@, pos as int, ns, cs) implies false by {
                            if cs.len() > 0 {
                                lemma_valid_prefix_first(key@, ns, cs, s);
                                wire::lemma_u64_round_trip(
                                    (NONCE_LEN + TAG_LEN + cs[0].len()) as u64,
                                );
                                let f2 = frames_seal(key@, ns.skip(1), cs.skip(1));
                                assert(stream@.subrange(pos + 8 + l, pos + 8 + l + f2.len())
                                    =~= s.skip(8 + l).subrange(0, f2.len() as int));
                                assert(is_valid_prefix(
                                    key@,
                                    stream@,
                                    pos + 8 + l,
                                    ns.skip(1),
                                    cs.skip(1),
                                ));
                            } else {
                                wire::lemma_u64_round_trip(0);
                            }
                        }
                    }
                    return Err(e);
                },
                Ok((mut rest, used)) => {
                    let ghost rv = rest@;
                    let mut out = plain;
                    out.append(&mut rest);
                    let total = 8 + l + used;
                    proof {
                        // Authenticity: extend the witnesses of the tail.
                        let (ns_r, cs_r): (Seq<Seq<u8>>, Seq<Seq<u8>>) = choose|
                            ns_r: Seq<Seq<u8>>,
                            cs_r: Seq<Seq<u8>>,
                        |
                            wf_nonces(ns_r) && wf_chunks(cs_r) && ns_r.len() == cs_r.len()
                                && seal_sizes_ok(key@, ns_r, cs_r) && rv == concat_all(cs_r)
                                && stream@.subrange(pos + 8 + l, pos + 8 + l + used)
                                == #[trigger] frames_seal(key@, ns_r, cs_r);
                        let ns1 = seq![nonce@] + ns_r;
                        let cs1 = seq![pv] + cs_r;
                        assert(ns1.skip(1) =~= ns_r);
                        assert(cs1.skip(1) =~= cs_r);
                        assert(ct@ == gcm_seal(key@, nonce@, pv));
                        assert(pv.len() + TAG_LEN == ct@.len());
                        assert forall|i: int| 0 <= i < ns1.len() implies (#[trigger] ns1[i]).len()
                            == NONCE_LEN by {}
                        assert forall|i: int| 0 <= i < cs1.len() implies (#[trigger] cs1[i]).len()
                            <= CHUNK_SIZE by {}
                        assert forall|i: int| 0 <= i < cs1.len() implies (#[trigger] gcm_seal(
                            key@,
                            ns1[i],
                            cs1[i],
                        )).len() == cs1[i].len() + TAG_LEN by {
                            if i > 0 {
                                assert(ns1[i] == ns_r[i - 1]);
                                assert(cs1[i] == cs_r[i - 1]);
                                assert(gcm_seal(key@, ns_r[i - 1], cs_r[i - 1]).len() == cs_r[i
                                    - 1].len() + TAG_LEN);
                            }
                        }
                        assert(out@ == pv + rv);
                        assert(concat_all(cs1) == cs1[0] + concat_all(cs1.skip(1)));
                        assert(out@ == concat_all(cs1));
                        wire::lemma_be_bytes_id(s.subrange(0, 8));
                        assert(frames_seal(key@, ns1, cs1) == frame_bytes(nonce@, ct@)
                            + frames_seal(key@, ns_r, cs_r));
                        assert((NONCE_LEN + ct@.len()) as u64 == l64);
                        assert(frame_bytes(nonce@, ct@) =~= stream@.subrange(
                            pos as int,
                            pos + 8 + l,
                        ));
                        assert(stream@.subrange(pos as int, pos + total) =~= stream@.subrange(
                            pos as int,
                            pos + 8 + l,
                        ) + stream@.subrange(pos + 8 + l, pos + 8 + l + used));
                        assert(stream@.subrange(pos as int, pos + total) == frames_seal(
                            key@,
                            ns1,
                            cs1,
                        ));
                        // Completeness: any valid framed prefix is this one.
                        assert forall|ns: Seq<Seq<u8>>, cs: Seq<Seq<u8>>|
                            #[trigger] is_valid_prefix(key@, stream@, pos as int, ns, cs) implies (out@ == concat_all(cs) && total
                            == frames_seal(key@, ns, cs).len()) by {
                            if cs.len() == 0 {
                                wire::lemma_u64_round_trip(0);
                                assert(false);
                            } else {
                                lemma_valid_prefix_first(key@, ns, cs, s);
                                wire::lemma_u64_round_trip(
                                    (NONCE_LEN + TAG_LEN + cs[0].len()) as u64,
                                );
                                assert(ct@ == gcm_seal(key@, nonce@, cs[0]));
                                assert(cs[0].len() <= CHUNK_SIZE);
                                assert(pv == cs[0]);
                                let f2 = frames_seal(key@, ns.skip(1), cs.skip(1));
                                assert(stream@.subrange(pos + 8 + l, pos + 8 + l + f2.len())
                                    =~= s.skip(8 + l).subrange(0, f2.len() as int));
                                assert(is_valid_prefix(
                                    key@,
                                    stream@,
                                    pos + 8 + l,
                                    ns.skip(1),
                                    cs.skip(1),
                                ));
                                assert(rv == concat_all(cs.skip(1)) && used == f2.len());
                                assert(concat_all(cs) == cs[0] + concat_all(cs.skip(1)));
                            }
                        }
                    }
                    return Ok((out, total));
                },
            }
        },
    }
}

/// Seal one plaintext chunk into a complete frame under a fresh random
/// nonce: length prefix, nonce, ciphertext-plus-tag.  Fails only if the
/// random generator does.
pub fn seal_chunk_frame(key: &[u8], chunk: &Vec<u8>) -> (r: Result<Vec<u8>, TransferError>)
    requires
        key@.len() == KEY_LEN,
        chunk@.len() <= CHUNK_SIZE,
    ensures
        r matches Ok(f) ==> exists|n: Seq<u8>|
            n.len() == NONCE_LEN && f@ == #[trigger] frame_bytes(n, gcm_seal(key@, n, chunk@))
                && gcm_seal(key@, n, chunk@).len() == chunk@.len() + TAG_LEN,
        r matches Err(e) ==> e == TransferError::RandomnessFailure,
{
    match crypto::fresh_nonce() {
        None => Err(TransferError::RandomnessFailure),
        Some(nonce) => {
            let ghost nv = nonce@;
            let mut ct = crypto::seal_chunk(key, nonce.as_slice(), chunk.as_slice());
            let mut out = wire::u64_to_be((NONCE_LEN as u64) + (ct.len() as u64));
            let mut nonce_bytes = nonce;
            out.append(&mut nonce_bytes);
            out.append(&mut ct);
            proof {
                assert(out@ =~= frame_bytes(nv, gcm_seal(key@, nv, chunk@)));
            }
            Ok(out)
        },
    }
}

/// The zero-length frame that ends a file's chunk stream.
pub fn end_frame() -> (r: Vec<u8>)
    ensures
        r@ == u64_be_bytes(0),
{
    wire::u64_to_be(0)
}

/// Open one frame's payload — the bytes after the length prefix: the
/// 12-byte nonce, then ciphertext-plus-tag.  Success returns exactly the
/// chunk that was sealed; an inauthentic payload is a crypto failure and
/// an impossible payload length a malformed frame.
pub fn open_frame_payload(key: &[u8], payload: &Vec<u8>) -> (r: Result<Vec<u8>, TransferError>)
    requires
        key@.len() == KEY_LEN,
    ensures
        (payload@.len() < NONCE_LEN + TAG_LEN || payload@.len() > NONCE_LEN + TAG_LEN + CHUNK_SIZE)
            ==> r == Result::<Vec<u8>, TransferError>::Err(TransferError::MalformedFrame),
        r matches Ok(p) ==> payload@.skip(NONCE_LEN as int) == gcm_seal(
            key@,
            payload@.take(NONCE_LEN as int),
            p@,
        ) && p@.len() + NONCE_LEN + TAG_LEN == payload@.len(),
        NONCE_LEN + TAG_LEN <= payload@.len() <= NONCE_LEN + TAG_LEN + CHUNK_SIZE
            ==> (forall|p: Seq<u8>|
            p.len() <= CHUNK_SIZE && payload@.skip(NONCE_LEN as int) == #[trigger] gcm_seal(
                key@,
                payload@.take(NONCE_LEN as int),
                p,
            ) ==> (r matches Ok(q) && q@ == p)),
        NONCE_LEN + TAG_LEN <= payload@.len() <= NONCE_LEN + TAG_LEN + CHUNK_SIZE ==> (r matches
            Err(e) ==> e == TransferError::CryptoFailure),
{
    let len = payload.len();
    if len < NONCE_LEN + TAG_LEN || len > NONCE_LEN + TAG_LEN + CHUNK_SIZE {
        return Err(TransferError::MalformedFrame);
    }
    let nonce = copy_range(payload, 0, NONCE_LEN);
    let ct = copy_range(payload, NONCE_LEN, len);
    proof {
        assert(nonce@ =~= payload@.take(NONCE_LEN as int));
        assert(ct@ =~= payload@.skip(NONCE_LEN as int));
    }
    match crypto::open_chunk(key, nonce.as_slice(), ct.as_slice()) {
        Some(p) => Ok(p),
        None => Err(TransferError::CryptoFailure),
    }
}

/// Seal a whole plaintext under the session key, drawing a fresh random
/// nonce for every chunk.  Fails only if the random generator does.
pub fn seal_stream_fresh(key: &[u8], plaintext: &Vec<u8>) -> (r: Result<Vec<u8>, TransferError>)
    requires
        key@.len() == KEY_LEN,
    ensures
        r matches Ok(s) ==> exists|ns: Seq<Seq<u8>>|
            wf_nonces(ns) && ns.len() == chunks_of(plaintext@).len() && s@ == #[trigger] sealed_stream(
                key@,
                ns,
                plaintext@,
            ) && seal_sizes_ok(key@, ns, chunks_of(plaintext@)),
        r matches Err(e) ==> e == TransferError::RandomnessFailure,
        plaintext@.len() == 0 ==> r is Ok,
{
    proof {
        lemma_chunks_concat(plaintext@);
    }
    let count = chunk_count(plaintext.len());
    match make_nonces(count) {
        Some(nonces) => {
            let s = seal_stream(key, plaintext, &nonces);
            proof {
                let ns = nonces.deep_view();
                assert(wf_nonces(ns) && ns.len() == chunks_of(plaintext@).len() && s@
                    == sealed_stream(key@, ns, plaintext@) && seal_sizes_ok(
                    key@,
                    ns,
                    chunks_of(plaintext@),
                ));
            }
            Ok(s)
        },
        None => Err(TransferError::RandomnessFailure),
    }
}

} // verus!
