//! The framed, encrypted file stream: one length-prefixed path frame, the
//! file size, one AEAD frame per plaintext chunk, and a zero-length
//! terminator frame. The decoder accepts exactly what the encoder emits.

use vstd::prelude::*;

verus! {

use crate::CHUNKSIZE;
use crate::crypto::{aead_seal, aead_encrypt, aead_decrypt, spec_nonce_bytes, nonce_bytes};
use crate::error::FCError;
use crate::paths::{valid_rel_path, validate_relative_path};
use crate::wire::{
    spec_u64_be,
    be_val8,
    write_u64_be,
    read_u64_be,
    lemma_be_val8_of_u64_be,
};

/// One wire frame: the payload's length as big-endian u64, then the payload.
pub open spec fn spec_frame(ct: Seq<u8>) -> Seq<u8>
    recommends
        ct.len() <= u64::MAX,
{
    spec_u64_be(ct.len() as u64) + ct
}

/// A run of frames, in order.
pub open spec fn spec_frames(cts: Seq<Seq<u8>>) -> Seq<u8>
    decreases cts.len(),
{
    if cts.len() == 0 {
        Seq::empty()
    } else {
        spec_frame(cts.first()) + spec_frames(cts.drop_first())
    }
}

/// The whole stream for one file: path frame, size, data frames, and the
/// terminator frame (a zero length).
pub open spec fn spec_file_stream(path: Seq<u8>, size: u64, cts: Seq<Seq<u8>>) -> Seq<u8> {
    spec_frame(path) + spec_u64_be(size) + spec_frames(cts) + spec_u64_be(0)
}

/// The plaintext chunks of a file: full `CHUNKSIZE` pieces, with a shorter
/// final piece; an empty file has no chunks.
pub open spec fn spec_chunks(data: Seq<u8>) -> Seq<Seq<u8>>
    decreases data.len(),
{
    if data.len() == 0 {
        Seq::empty()
    } else if data.len() <= CHUNKSIZE {
        seq![data]
    } else {
        seq![data.take(CHUNKSIZE as int)] + spec_chunks(data.skip(CHUNKSIZE as int))
    }
}

/// The ciphertext chunks of a file, sealed under per-chunk counter nonces
/// starting at `counter`.
pub open spec fn spec_sealed_from(key: Seq<u8>, data: Seq<u8>, counter: int) -> Seq<Seq<u8>>
    decreases data.len(),
{
    if data.len() == 0 {
        Seq::empty()
    } else if data.len() <= CHUNKSIZE {
        seq![aead_seal(key, spec_nonce_bytes(counter as u64), data)]
    } else {
        seq![aead_seal(key, spec_nonce_bytes(counter as u64), data.take(CHUNKSIZE as int))]
            + spec_sealed_from(key, data.skip(CHUNKSIZE as int), counter + 1)
    }
}

/// The ciphertext chunks of a file as the sender emits them: counter nonces
/// from zero.
pub open spec fn spec_sealed_chunks(key: Seq<u8>, data: Seq<u8>) -> Seq<Seq<u8>> {
    spec_sealed_from(key, data, 0)
}

/// The shape the sender's chunking always has: every chunk but the last is
/// exactly `CHUNKSIZE` bytes, and the last is non-empty and no longer.
pub open spec fn canonical_chunks(pts: Seq<Seq<u8>>) -> bool {
    forall|j: int|
        0 <= j < pts.len() ==> {
            &&& 1 <= (#[trigger] pts[j]).len()
            &&& pts[j].len() <= CHUNKSIZE
            &&& (j < pts.len() - 1 ==> pts[j].len() == CHUNKSIZE)
        }
}

/// A file's chunking is canonical and concatenates back to the file.
pub proof fn lemma_chunks_canonical(data: Seq<u8>)
    ensures
        canonical_chunks(spec_chunks(data)),
        spec_chunks(data).flatten() == data,
        spec_chunks(data).len() == 0 <==> data.len() == 0,
    decreases data.len(),
{
    if data.len() == 0 {
        assert(spec_chunks(data).flatten() =~= data);
    } else if data.len() <= CHUNKSIZE {
        let cs = spec_chunks(data);
        assert(cs == seq![data]);
        cs.lemma_flatten_one_element();
        assert(cs.flatten() == data);
    } else {
        let head = data.take(CHUNKSIZE as int);
        let rest = spec_chunks(data.skip(CHUNKSIZE as int));
        lemma_chunks_canonical(data.skip(CHUNKSIZE as int));
        let cs = spec_chunks(data);
        assert(cs == seq![head] + rest);
        assert(rest.len() > 0);
        assert forall|j: int| 0 <= j < cs.len() implies {
            &&& 1 <= (#[trigger] cs[j]).len()
            &&& cs[j].len() <= CHUNKSIZE
            &&& (j < cs.len() - 1 ==> cs[j].len() == CHUNKSIZE)
        } by {
            if j == 0 {
                assert(cs[0] == head);
            } else {
                assert(cs[j] == rest[j - 1]);
            }
        }
        assert(cs.first() == head);
        assert(cs.drop_first() =~= rest);
        assert(cs.flatten() == head + rest.flatten());
        assert(cs.flatten() =~= data);
    }
}

/// Sealed chunks line up one for one with plaintext chunks.
pub proof fn lemma_sealed_matches_chunks(key: Seq<u8>, data: Seq<u8>, counter: int)
    requires
        0 <= counter,
        counter + spec_chunks(data).len() <= u64::MAX,
    ensures
        spec_sealed_from(key, data, counter).len() == spec_chunks(data).len(),
        forall|j: int|
            0 <= j < spec_chunks(data).len() ==> spec_sealed_from(key, data, counter)[j]
                == aead_seal(key, spec_nonce_bytes((counter + j) as u64), spec_chunks(data)[j]),
    decreases data.len(),
{
    if data.len() == 0 {
    } else if data.len() <= CHUNKSIZE {
        assert(spec_sealed_from(key, data, counter)[0] == aead_seal(
            key,
            spec_nonce_bytes(counter as u64),
            data,
        ));
        assert(spec_chunks(data)[0] == data);
    } else {
        let head = data.take(CHUNKSIZE as int);
        let tail = data.skip(CHUNKSIZE as int);
        lemma_sealed_matches_chunks(key, tail, counter + 1);
        let ss = spec_sealed_from(key, data, counter);
        let cs = spec_chunks(data);
        assert(ss == seq![aead_seal(key, spec_nonce_bytes(counter as u64), head)]
            + spec_sealed_from(key, tail, counter + 1));
        assert(cs == seq![head] + spec_chunks(tail));
        assert forall|j: int| 0 <= j < cs.len() implies ss[j] == aead_seal(
            key,
            spec_nonce_bytes((counter + j) as u64),
            cs[j],
        ) by {
            if j == 0 {
                assert(ss[0] == aead_seal(key, spec_nonce_bytes(counter as u64), head));
                assert(cs[0] == head);
            } else {
                assert(ss[j] == spec_sealed_from(key, tail, counter + 1)[j - 1]);
                assert(cs[j] == spec_chunks(tail)[j - 1]);
                assert(spec_sealed_from(key, tail, counter + 1)[j - 1] == aead_seal(
                    key,
                    spec_nonce_bytes((counter + 1 + (j - 1)) as u64),
                    spec_chunks(tail)[j - 1],
                ));
            }
        }
    }
}

/// Chunking inverts concatenation for canonical chunk lists.
pub proof fn lemma_chunks_of_canonical(pts: Seq<Seq<u8>>)
    requires
        canonical_chunks(pts),
    ensures
        spec_chunks(pts.flatten()) == pts,
    decreases pts.len(),
{
    if pts.len() == 0 {
        assert(pts.flatten() =~= Seq::<u8>::empty());
        assert(spec_chunks(pts.flatten()) =~= pts);
    } else if pts.len() == 1 {
        pts.lemma_flatten_one_element();
        assert(pts.flatten() == pts[0]);
        assert(1 <= pts[0].len() <= CHUNKSIZE);
        assert(spec_chunks(pts.flatten()) =~= pts);
    } else {
        let rest = pts.drop_first();
        assert forall|j: int| 0 <= j < rest.len() implies {
            &&& 1 <= (#[trigger] rest[j]).len()
            &&& rest[j].len() <= CHUNKSIZE
            &&& (j < rest.len() - 1 ==> rest[j].len() == CHUNKSIZE)
        } by {
            assert(rest[j] == pts[j + 1]);
        }
        lemma_chunks_of_canonical(rest);
        let flat = pts.flatten();
        assert(flat == pts[0] + rest.flatten());
        assert(rest.flatten().len() >= rest[0].len()) by {
            assert(rest.flatten() == rest[0] + rest.drop_first().flatten());
        }
        assert(pts[0].len() == CHUNKSIZE);
        assert(flat.len() > CHUNKSIZE);
        assert(flat.take(CHUNKSIZE as int) =~= pts[0]);
        assert(flat.skip(CHUNKSIZE as int) =~= rest.flatten());
        assert(spec_chunks(flat) == seq![flat.take(CHUNKSIZE as int)] + spec_chunks(
            flat.skip(CHUNKSIZE as int),
        ));
        assert(spec_chunks(flat) =~= pts);
    }
}

/// Frames of a one-longer list: the new frame lands at the end.
pub proof fn lemma_frames_push(cts: Seq<Seq<u8>>, c: Seq<u8>)
    ensures
        spec_frames(cts.push(c)) == spec_frames(cts) + spec_frame(c),
    decreases cts.len(),
{
    if cts.len() == 0 {
        assert(cts.push(c).first() == c);
        assert(cts.push(c).drop_first() =~= Seq::<Seq<u8>>::empty());
        assert(spec_frames(Seq::<Seq<u8>>::empty()) == Seq::<u8>::empty());
        assert(spec_frames(cts.push(c)) == spec_frame(c) + Seq::<u8>::empty());
        assert(spec_frames(cts.push(c)) =~= spec_frames(cts) + spec_frame(c));
    } else {
        lemma_frames_push(cts.drop_first(), c);
        assert(cts.push(c).first() == cts.first());
        assert(cts.push(c).drop_first() =~= cts.drop_first().push(c));
        assert(spec_frames(cts.push(c)) == spec_frame(cts.first()) + spec_frames(
            cts.drop_first().push(c),
        ));
        assert(spec_frames(cts) == spec_frame(cts.first()) + spec_frames(cts.drop_first()));
        assert(spec_frames(cts.push(c)) =~= spec_frames(cts) + spec_frame(c));
    }
}

/// What a parser that knows only the protocol finds in a byte run: the
/// payloads of the frames before the first terminator, and the offset just
/// past that terminator. `None` when the bytes are not a complete framed
/// run.
pub open spec fn parse_frames(data: Seq<u8>, start: int) -> Option<(Seq<Seq<u8>>, int)>
    decreases data.len() - start,
{
    if start < 0 || start + 8 > data.len() {
        None
    } else {
        let n = be_val8(data.subrange(start, start + 8)) as int;
        if n == 0 {
            Some((Seq::empty(), start + 8))
        } else if start + 8 + n > data.len() {
            None
        } else {
            match parse_frames(data, start + 8 + n) {
                None => None,
                Some(t) => Some(
                    (seq![data.subrange(start + 8, start + 8 + n)] + t.0, t.1),
                ),
            }
        }
    }
}

/// One file's region of the stream, parsed: relative path bytes, declared
/// size, ciphertext chunks, and the offset of whatever follows.
pub open spec fn parse_file(data: Seq<u8>, start: int) -> Option<(Seq<u8>, u64, Seq<Seq<u8>>, int)> {
    if start < 0 || start + 8 > data.len() {
        None
    } else {
        let plen = be_val8(data.subrange(start, start + 8)) as int;
        if start + 16 + plen > data.len() {
            None
        } else {
            let path = data.subrange(start + 8, start + 8 + plen);
            let size = be_val8(data.subrange(start + 8 + plen, start + 16 + plen));
            match parse_frames(data, start + 16 + plen) {
                None => None,
                Some(t) => Some((path, size, t.0, t.1)),
            }
        }
    }
}

/// Frame boundaries are recoverable: a receiver that knows only the
/// protocol parses a framed run back into exactly the emitted payloads,
/// consuming exactly the emitted bytes, whatever follows them.
pub proof fn lemma_parse_frames_round_trip(
    data: Seq<u8>,
    start: int,
    cts: Seq<Seq<u8>>,
    tail: Seq<u8>,
)
    requires
        0 <= start <= data.len(),
        data.subrange(start, data.len() as int) == spec_frames(cts) + spec_u64_be(0) + tail,
        forall|j: int| 0 <= j < cts.len() ==> 1 <= (#[trigger] cts[j]).len() <= u64::MAX,
    ensures
        parse_frames(data, start) == Some(
            (cts, start + spec_frames(cts).len() + 8),
        ),
    decreases cts.len(),
{
    let whole = spec_frames(cts) + spec_u64_be(0) + tail;
    assert(data.len() - start == whole.len());
    assert forall|i: int| #![trigger whole[i]] 0 <= i < whole.len() implies data[start + i]
        == whole[i] by {
        assert(data.subrange(start, data.len() as int)[i] == data[start + i]);
    }
    if cts.len() == 0 {
        assert(spec_frames(cts) == Seq::<u8>::empty());
        assert forall|i: int| #![trigger spec_u64_be(0)[i]] 0 <= i < 8 implies data.subrange(
            start,
            start + 8,
        )[i] == spec_u64_be(0)[i] by {
            assert(data.subrange(start, start + 8)[i] == data[start + i]);
            assert(whole[i] == spec_u64_be(0)[i]);
        }
        assert(data.subrange(start, start + 8) =~= spec_u64_be(0));
        lemma_be_val8_of_u64_be(0);
        assert(parse_frames(data, start) == Some((Seq::<Seq<u8>>::empty(), start + 8)));
        assert(Seq::<Seq<u8>>::empty() =~= cts);
    } else {
        let c0 = cts.first();
        let rest = cts.drop_first();
        let n = c0.len() as int;
        assert(spec_frames(cts) == spec_frame(c0) + spec_frames(rest));
        assert(spec_frame(c0) == spec_u64_be(c0.len() as u64) + c0);
        assert(whole.len() >= 8 + n + 8);
        assert forall|i: int| #![trigger spec_u64_be(c0.len() as u64)[i]] 0 <= i < 8 implies
            data.subrange(start, start + 8)[i] == spec_u64_be(c0.len() as u64)[i] by {
            assert(data.subrange(start, start + 8)[i] == data[start + i]);
            assert(whole[i] == spec_u64_be(c0.len() as u64)[i]);
        }
        assert(data.subrange(start, start + 8) =~= spec_u64_be(c0.len() as u64));
        lemma_be_val8_of_u64_be(c0.len() as u64);
        assert(be_val8(data.subrange(start, start + 8)) == c0.len() as u64);
        assert(c0.len() as u64 as int == n);
        assert forall|i: int| #![trigger c0[i]] 0 <= i < n implies data.subrange(
            start + 8,
            start + 8 + n,
        )[i] == c0[i] by {
            assert(data.subrange(start + 8, start + 8 + n)[i] == data[start + 8 + i]);
            assert(whole[8 + i] == c0[i]);
        }
        assert(data.subrange(start + 8, start + 8 + n) =~= c0);
        assert forall|i: int| #![trigger (spec_frames(rest) + spec_u64_be(0) + tail)[i]]
            0 <= i < whole.len() - 8 - n implies data.subrange(
            start + 8 + n,
            data.len() as int,
        )[i] == (spec_frames(rest) + spec_u64_be(0) + tail)[i] by {
            assert(data.subrange(start + 8 + n, data.len() as int)[i] == data[start + 8 + n + i]);
            assert(whole[8 + n + i] == (spec_frames(rest) + spec_u64_be(0) + tail)[i]);
        }
        assert(data.subrange(start + 8 + n, data.len() as int) =~= spec_frames(rest)
            + spec_u64_be(0) + tail);
        assert forall|j: int| 0 <= j < rest.len() implies 1 <= (#[trigger] rest[j]).len()
            <= u64::MAX by {
            assert(rest[j] == cts[j + 1]);
        }
        lemma_parse_frames_round_trip(data, start + 8 + n, rest, tail);
        assert(parse_frames(data, start + 8 + n) == Some(
            (rest, start + 8 + n + spec_frames(rest).len() + 8),
        ));
        assert(seq![data.subrange(start + 8, start + 8 + n)] + rest =~= cts);
        assert(spec_frames(cts).len() == 8 + n + spec_frames(rest).len());
        assert(parse_frames(data, start) == Some((cts, start + spec_frames(cts).len() + 8)));
    }
}

/// Sealed chunks and plaintext chunks always have the same count.
pub proof fn lemma_sealed_len(key: Seq<u8>, data: Seq<u8>, counter: int)
    ensures
        spec_sealed_from(key, data, counter).len() == spec_chunks(data).len(),
    decreases data.len(),
{
    if data.len() > CHUNKSIZE {
        lemma_sealed_len(key, data.skip(CHUNKSIZE as int), counter + 1);
    }
}

/// What a ciphertext-chunk list says about the file it seals: the file's
/// canonical chunks line up with the list, one seal per chunk.
pub proof fn lemma_sealed_chunks_shape(key: Seq<u8>, c: Seq<u8>, cts: Seq<Seq<u8>>)
    requires
        spec_sealed_chunks(key, c) == cts,
        cts.len() <= u64::MAX,
    ensures
        spec_chunks(c).len() == cts.len(),
        forall|j: int|
            0 <= j < cts.len() ==> cts[j] == aead_seal(
                key,
                spec_nonce_bytes(j as u64),
                spec_chunks(c)[j],
            ),
        forall|j: int|
            0 <= j < cts.len() ==> 1 <= (#[trigger] spec_chunks(c)[j]).len() <= CHUNKSIZE && (j
                < cts.len() - 1 ==> spec_chunks(c)[j].len() == CHUNKSIZE),
        spec_chunks(c).flatten() == c,
{
    lemma_chunks_canonical(c);
    lemma_sealed_len(key, c, 0);
    lemma_sealed_matches_chunks(key, c, 0);
    assert forall|j: int| 0 <= j < cts.len() implies cts[j] == aead_seal(
        key,
        spec_nonce_bytes(j as u64),
        spec_chunks(c)[j],
    ) by {
        assert(spec_sealed_from(key, c, 0)[j] == aead_seal(
            key,
            spec_nonce_bytes((0 + j) as u64),
            spec_chunks(c)[j],
        ));
    }
}

/// Seals one plaintext chunk exactly as the sender does: AES-256-GCM under
/// the counter nonce of the chunk's index.
pub fn seal_chunk(key: &[u8], counter: u64, plaintext: &[u8]) -> (r: Vec<u8>)
    requires
        key@.len() == 32,
        plaintext@.len() <= CHUNKSIZE,
    ensures
        r@ == aead_seal(key@, spec_nonce_bytes(counter), plaintext@),
        r@.len() == plaintext@.len() + 16,
{
    let nonce = nonce_bytes(counter);
    aead_encrypt(key, nonce.as_slice(), plaintext)
}

/// Appends bytes to an output buffer.
pub fn append_bytes(out: &mut Vec<u8>, add: &[u8])
    ensures
        final(out)@ == old(out)@ + add@,
{
    let mut i: usize = 0;
    while i < add.len()
        invariant
            i <= add@.len(),
            out@ == old(out)@ + add@.take(i as int),
        decreases add@.len() - i,
    {
        out.push(add[i]);
        proof {
            assert(out@ =~= old(out)@ + add@.take(i + 1));
        }
        i += 1;
    }
    proof {
        assert(add@.take(add@.len() as int) =~= add@);
    }
}

/// Frames and encrypts one file for the wire: the relative path, the byte
/// size, each `CHUNKSIZE` plaintext chunk as one AEAD frame under the
/// counter nonce of its index, and the terminator frame.
#[verifier::loop_isolation(false)]
pub fn encode_file(key: &[u8], rel_path: &[u8], contents: &[u8]) -> (r: Vec<u8>)
    requires
        key@.len() == 32,
    ensures
        r@ == spec_file_stream(
            rel_path@,
            contents@.len() as u64,
            spec_sealed_chunks(key@, contents@),
        ),
        forall|j: int|
            0 <= j < spec_sealed_chunks(key@, contents@).len() ==> 17 <= (
            #[trigger] spec_sealed_chunks(key@, contents@)[j]).len() <= CHUNKSIZE + 16,
{
    let ghost full: Seq<Seq<u8>> = spec_sealed_chunks(key@, contents@);
    let mut out: Vec<u8> = Vec::new();
    write_u64_be(&mut out, rel_path.len() as u64);
    append_bytes(&mut out, rel_path);
    write_u64_be(&mut out, contents.len() as u64);
    let ghost header: Seq<u8> = spec_frame(rel_path@) + spec_u64_be(contents@.len() as u64);
    proof {
        assert(out@ =~= header);
        assert(contents@.skip(0) =~= contents@);
    }
    let ghost processed: Seq<Seq<u8>> = Seq::empty();
    let mut processed_ghost: Ghost<Seq<Seq<u8>>> = Ghost(processed);
    let mut offset: usize = 0;
    let mut counter: u64 = 0;
    while offset < contents.len()
        invariant
            offset <= contents@.len(),
            counter as int <= offset as int,
            processed_ghost@ + spec_sealed_from(key@, contents@.skip(offset as int), counter as int)
                =~= full,
            counter as int == processed_ghost@.len(),
            forall|j: int|
                0 <= j < processed_ghost@.len() ==> 17 <= (#[trigger] processed_ghost@[j]).len()
                    <= CHUNKSIZE + 16,
            header + spec_frames(processed_ghost@) =~= out@,
        decreases contents@.len() - offset,
    {
        let remaining = contents.len() - offset;
        let n = if remaining < CHUNKSIZE {
            remaining
        } else {
            CHUNKSIZE
        };
        let chunk = vstd::slice::slice_subrange(contents, offset, offset + n);
        let nonce = nonce_bytes(counter);
        let ct = aead_encrypt(key, nonce.as_slice(), chunk);
        proof {
            let rest = contents@.skip(offset as int);
            assert(rest.len() == contents@.len() - offset);
            if rest.len() <= CHUNKSIZE {
                assert(chunk@ =~= rest);
                assert(spec_sealed_from(key@, rest, counter as int) == seq![
                    aead_seal(key@, spec_nonce_bytes(counter), rest),
                ]);
            } else {
                assert(chunk@ =~= rest.take(CHUNKSIZE as int));
                assert(rest.skip(CHUNKSIZE as int) =~= contents@.skip(offset + n));
            }
        }
        write_u64_be(&mut out, ct.len() as u64);
        append_bytes(&mut out, ct.as_slice());
        proof {
            let rest = contents@.skip(offset as int);
            let sealed_rest = spec_sealed_from(key@, rest, counter as int);
            assert(sealed_rest.first() == ct@);
            assert(processed_ghost@.push(ct@) + sealed_rest.drop_first() =~= processed_ghost@
                + sealed_rest);
            if rest.len() <= CHUNKSIZE {
                assert(sealed_rest.drop_first() =~= Seq::<Seq<u8>>::empty());
                assert(contents@.skip(offset + n).len() == 0);
                assert(spec_sealed_from(key@, contents@.skip(offset + n), counter + 1)
                    =~= Seq::<Seq<u8>>::empty());
            } else {
                assert(sealed_rest.drop_first() =~= spec_sealed_from(
                    key@,
                    contents@.skip(offset + n),
                    counter + 1,
                ));
            }
            lemma_frames_push(processed_ghost@, ct@);
            assert(header + spec_frames(processed_ghost@.push(ct@)) =~= out@);
        }
        proof {
            processed_ghost@ = processed_ghost@.push(ct@);
        }
        offset = offset + n;
        counter = counter + 1;
    }
    proof {
        assert(contents@.skip(contents@.len() as int).len() == 0);
        assert(spec_sealed_from(key@, contents@.skip(offset as int), counter as int)
            =~= Seq::<Seq<u8>>::empty());
        assert(processed_ghost@ =~= full);
    }
    write_u64_be(&mut out, 0);
    proof {
        assert(out@ =~= spec_file_stream(
            rel_path@,
            contents@.len() as u64,
            spec_sealed_chunks(key@, contents@),
        ));
    }
    out
}

/// A full file stream parses back to exactly what was emitted, consuming
/// exactly the stream, whatever follows it.
pub proof fn lemma_parse_file_round_trip(
    data: Seq<u8>,
    start: int,
    path: Seq<u8>,
    size: u64,
    cts: Seq<Seq<u8>>,
    tail: Seq<u8>,
)
    requires
        0 <= start <= data.len(),
        data.subrange(start, data.len() as int) == spec_file_stream(path, size, cts) + tail,
        path.len() <= u64::MAX,
        forall|j: int| 0 <= j < cts.len() ==> 1 <= (#[trigger] cts[j]).len() <= u64::MAX,
    ensures
        parse_file(data, start) == Some(
            (path, size, cts, start + spec_file_stream(path, size, cts).len()),
        ),
{
    let stream = spec_file_stream(path, size, cts);
    let plen = path.len() as int;
    let whole = stream + tail;
    assert(data.len() - start == whole.len());
    assert forall|i: int| #![trigger whole[i]] 0 <= i < whole.len() implies data[start + i]
        == whole[i] by {
        assert(data.subrange(start, data.len() as int)[i] == data[start + i]);
    }
    assert(stream == spec_frame(path) + spec_u64_be(size) + spec_frames(cts) + spec_u64_be(0));
    assert(spec_frame(path) == spec_u64_be(path.len() as u64) + path);
    assert forall|i: int| #![trigger spec_u64_be(path.len() as u64)[i]] 0 <= i < 8 implies
        data.subrange(start, start + 8)[i] == spec_u64_be(path.len() as u64)[i] by {
        assert(data.subrange(start, start + 8)[i] == data[start + i]);
        assert(whole[i] == spec_u64_be(path.len() as u64)[i]);
    }
    assert(data.subrange(start, start + 8) =~= spec_u64_be(path.len() as u64));
    lemma_be_val8_of_u64_be(path.len() as u64);
    assert(be_val8(data.subrange(start, start + 8)) == path.len() as u64);
    assert forall|i: int| #![trigger path[i]] 0 <= i < plen implies data.subrange(
        start + 8,
        start + 8 + plen,
    )[i] == path[i] by {
        assert(data.subrange(start + 8, start + 8 + plen)[i] == data[start + 8 + i]);
        assert(whole[8 + i] == path[i]);
    }
    assert(data.subrange(start + 8, start + 8 + plen) =~= path);
    assert forall|i: int| #![trigger spec_u64_be(size)[i]] 0 <= i < 8 implies data.subrange(
        start + 8 + plen,
        start + 16 + plen,
    )[i] == spec_u64_be(size)[i] by {
        assert(data.subrange(start + 8 + plen, start + 16 + plen)[i] == data[start + 8 + plen
            + i]);
        assert(whole[8 + plen + i] == spec_u64_be(size)[i]);
    }
    assert(data.subrange(start + 8 + plen, start + 16 + plen) =~= spec_u64_be(size));
    lemma_be_val8_of_u64_be(size);
    assert forall|i: int| #![trigger (spec_frames(cts) + spec_u64_be(0) + tail)[i]]
        0 <= i < whole.len() - 16 - plen implies data.subrange(
        start + 16 + plen,
        data.len() as int,
    )[i] == (spec_frames(cts) + spec_u64_be(0) + tail)[i] by {
        assert(data.subrange(start + 16 + plen, data.len() as int)[i] == data[start + 16 + plen
            + i]);
        assert(whole[16 + plen + i] == (spec_frames(cts) + spec_u64_be(0) + tail)[i]);
    }
    assert(data.subrange(start + 16 + plen, data.len() as int) =~= spec_frames(cts)
        + spec_u64_be(0) + tail);
    lemma_parse_frames_round_trip(data, start + 16 + plen, cts, tail);
    assert(stream.len() == 8 + plen + 8 + spec_frames(cts).len() + 8);
    assert(parse_file(data, start) == Some((path, size, cts, start + stream.len())));
}

/// A parsed frame run never holds more chunks than it has bytes, and ends
/// within the data.
pub proof fn lemma_parse_frames_len(data: Seq<u8>, start: int)
    requires
        parse_frames(data, start) is Some,
    ensures
        parse_frames(data, start).unwrap().0.len() <= data.len() - start,
        start + 8 <= parse_frames(data, start).unwrap().1 <= data.len(),
    decreases data.len() - start,
{
    let n = be_val8(data.subrange(start, start + 8)) as int;
    if n != 0 {
        lemma_parse_frames_len(data, start + 8 + n);
    }
}

/// `parse_frames` from the region start, given the chunks already consumed
/// and the parse of what remains.
pub open spec fn prepend_parse(
    cts: Seq<Seq<u8>>,
    o: Option<(Seq<Seq<u8>>, int)>,
) -> Option<(Seq<Seq<u8>>, int)> {
    match o {
        None => None,
        Some(t) => Some((cts + t.0, t.1)),
    }
}

/// One file decoded off the wire.
#[derive(Debug)]
pub struct DecodedFile {
    /// The relative path bytes, already checked safe.
    pub path: Vec<u8>,
    /// The size the sender declared (used for progress only).
    pub size: u64,
    /// The decrypted file contents.
    pub contents: Vec<u8>,
    /// Offset of the first byte after this file's stream.
    pub end: usize,
}

/// Decodes and decrypts one file from the received bytes.
///
/// On success the result is exactly what `parse_file` finds there: the
/// (validated) relative path, the declared size, the decrypted contents —
/// whose re-sealing reproduces the received ciphertext chunks — and the
/// offset of what follows. Conversely, whenever the bytes at `start` parse
/// as a file whose path is safe and whose chunks are the sealing of some
/// contents under this key, decoding succeeds and returns those contents:
/// nothing the sender emits is rejected, and nothing else is accepted.
#[verifier::loop_isolation(false)]
#[verifier::rlimit(60)]
pub fn decode_file(key: &[u8], data: &[u8], start: usize) -> (r: Result<DecodedFile, FCError>)
    requires
        key@.len() == 32,
        start <= data@.len(),
    ensures
        match r {
            Ok(d) => {
                &&& parse_file(data@, start as int) matches Some(pf)
                &&& d.path@ == pf.0
                &&& d.size == pf.1
                &&& d.end as int == pf.3
                &&& valid_rel_path(pf.0)
                &&& spec_sealed_chunks(key@, d.contents@) == pf.2
            },
            Err(_) => true,
        },
        forall|c: Seq<u8>|
            (match parse_file(data@, start as int) {
                Some(pf) => valid_rel_path(pf.0) && pf.2 == #[trigger] spec_sealed_chunks(
                    key@,
                    c,
                ),
                None => false,
            }) ==> {
                &&& r matches Ok(d)
                &&& d.contents@ == c
            },
{
    if data.len() - start < 8 {
        return Err(FCError::new("transfer interrupted: stream ended early"));
    }
    let plen64 = read_u64_be(data, start);
    proof {
        lemma_be_val8_of_u64_be(plen64);
    }
    let rest_after_len = data.len() - start - 8;
    if rest_after_len < 8 || plen64 > (rest_after_len - 8) as u64 {
        proof {
            assert(parse_file(data@, start as int) is None);
        }
        return Err(FCError::new("transfer interrupted: stream ended early"));
    }
    proof {
        assert(plen64 <= usize::MAX as u64);
    }
    let plen = plen64 as usize;
    let path = vstd::slice::slice_to_vec(
        vstd::slice::slice_subrange(data, start + 8, start + 8 + plen),
    );
    if !validate_relative_path(path.as_slice()) {
        proof {
            if parse_file(data@, start as int) is Some {
                assert(parse_file(data@, start as int).unwrap().0 == path@);
            }
        }
        return Err(FCError::new("received path is not a safe relative path"));
    }
    let size = read_u64_be(data, start + 8 + plen);
    proof {
        lemma_be_val8_of_u64_be(size);
    }
    let ghost fstart: int = start + 16 + plen;
    proof {
        assert(parse_file(data@, start as int) == (match parse_frames(data@, fstart) {
            None => None::<(Seq<u8>, u64, Seq<Seq<u8>>, int)>,
            Some(t) => Some((path@, size, t.0, t.1)),
        }));
    }
    let mut off: usize = start + 8 + plen + 8;
    let mut contents: Vec<u8> = Vec::new();
    let mut counter: u64 = 0;
    let mut short_seen = false;
    let mut pts_g: Ghost<Seq<Seq<u8>>> = Ghost(Seq::empty());
    let mut cts_g: Ghost<Seq<Seq<u8>>> = Ghost(Seq::empty());
    loop
        invariant
            key@.len() == 32,
            fstart <= off <= data@.len(),
            counter as int == pts_g@.len(),
            counter as int <= off as int,
            cts_g@.len() == pts_g@.len(),
            parse_frames(data@, fstart) == prepend_parse(cts_g@, parse_frames(data@, off as int)),
            forall|j: int|
                0 <= j < cts_g@.len() ==> cts_g@[j] == aead_seal(
                    key@,
                    spec_nonce_bytes(j as u64),
                    pts_g@[j],
                ),
            forall|j: int| 0 <= j < pts_g@.len() ==> 1 <= (#[trigger] pts_g@[j]).len() <= CHUNKSIZE,
            forall|j: int| 0 <= j < pts_g@.len() - 1 ==> (#[trigger] pts_g@[j]).len() == CHUNKSIZE,
            !short_seen ==> forall|j: int|
                0 <= j < pts_g@.len() ==> (#[trigger] pts_g@[j]).len() == CHUNKSIZE,
            short_seen ==> pts_g@.len() > 0 && pts_g@[pts_g@.len() - 1].len() < CHUNKSIZE,
            contents@ == pts_g@.flatten(),
            forall|j: int, pt: Seq<u8>|
                0 <= j < cts_g@.len() && pt.len() <= CHUNKSIZE && cts_g@[j] == #[trigger] aead_seal(
                    key@,
                    spec_nonce_bytes(j as u64),
                    pt,
                ) ==> pt == pts_g@[j],
        decreases data@.len() - off,
    {
        if data.len() - off < 8 {
            return Err(FCError::new("transfer interrupted: stream ended early"));
        }
        let n64 = read_u64_be(data, off);
        proof {
            lemma_be_val8_of_u64_be(n64);
        }
        if n64 == 0 {
            // Terminator frame: the file is complete.
            proof {
                assert(parse_frames(data@, off as int) == Some(
                    (Seq::<Seq<u8>>::empty(), off + 8),
                ));
                assert(cts_g@ + Seq::<Seq<u8>>::empty() =~= cts_g@);
                assert(parse_frames(data@, fstart) == Some((cts_g@, off + 8)));
                assert(canonical_chunks(pts_g@));
                lemma_chunks_of_canonical(pts_g@);
                lemma_sealed_len(key@, contents@, 0);
                lemma_sealed_matches_chunks(key@, contents@, 0);
                assert forall|j: int| 0 <= j < cts_g@.len() implies spec_sealed_chunks(
                    key@,
                    contents@,
                )[j] == cts_g@[j] by {
                    assert(spec_chunks(contents@)[j] == pts_g@[j]);
                    assert(spec_sealed_from(key@, contents@, 0)[j] == aead_seal(
                        key@,
                        spec_nonce_bytes((0 + j) as u64),
                        pts_g@[j],
                    ));
                }
                assert(spec_sealed_chunks(key@, contents@) =~= cts_g@);
                assert forall|c: Seq<u8>|
                    (match parse_file(data@, start as int) {
                        Some(pf) => valid_rel_path(pf.0) && pf.2
                            == #[trigger] spec_sealed_chunks(key@, c),
                        None => false,
                    }) implies c == contents@ by {
                    if parse_file(data@, start as int) is Some {
                        let pf = parse_file(data@, start as int).unwrap();
                        if pf.2 == spec_sealed_chunks(key@, c) {
                        assert(pf.2 == cts_g@);
                        lemma_sealed_chunks_shape(key@, c, cts_g@);
                        assert forall|j: int| 0 <= j < cts_g@.len() implies spec_chunks(
                            c,
                        )[j] == pts_g@[j] by {
                            assert(cts_g@[j] == aead_seal(
                                key@,
                                spec_nonce_bytes(j as u64),
                                spec_chunks(c)[j],
                            ));
                        }
                        assert(spec_chunks(c) =~= pts_g@);
                        assert(c == pts_g@.flatten());
                        }
                    }
                }
            }
            return Ok(DecodedFile { path, size, contents, end: off + 8 });
        }
        if short_seen {
            // A data frame after a short chunk: not a stream the sender
            // could have produced.
            proof {
                assert forall|c: Seq<u8>|
                    (match parse_file(data@, start as int) {
                        Some(pf) => valid_rel_path(pf.0) && pf.2
                            == #[trigger] spec_sealed_chunks(key@, c),
                        None => false,
                    }) implies false by {
                    if parse_file(data@, start as int) is Some && (parse_file(
                        data@,
                        start as int,
                    ).unwrap().2 == spec_sealed_chunks(key@, c)) {
                        let pf = parse_file(data@, start as int).unwrap();
                        assert(parse_frames(data@, off as int) is Some);
                        let t = parse_frames(data@, off as int).unwrap();
                        assert(t.0.len() >= 1);
                        assert(pf.2 == cts_g@ + t.0);
                        assert(pf.2.len() > counter as int);
                        lemma_parse_frames_len(data@, off as int);
                        assert(pf.2.len() <= u64::MAX);
                        lemma_sealed_chunks_shape(key@, c, pf.2);
                        let last: int = counter as int - 1;
                        assert(pf.2[last] == cts_g@[last]);
                        assert(cts_g@[last] == aead_seal(
                            key@,
                            spec_nonce_bytes(last as u64),
                            spec_chunks(c)[last],
                        ));
                        assert(spec_chunks(c)[last].len() <= CHUNKSIZE);
                        assert(spec_chunks(c)[last] == pts_g@[last]);
                        assert(spec_chunks(c)[last].len() == CHUNKSIZE);
                        assert(false);
                    }
                }
            }
            return Err(FCError::new("received chunk of unexpected size"));
        }
        if n64 > (data.len() - off - 8) as u64 {
            return Err(FCError::new("transfer interrupted: stream ended early"));
        }
        proof {
            assert(n64 <= usize::MAX as u64);
        }
        let n = n64 as usize;
        let ct = vstd::slice::slice_subrange(data, off + 8, off + 8 + n);
        let nonce = nonce_bytes(counter);
        proof {
            assert(parse_frames(data@, off as int) == (match parse_frames(
                data@,
                off + 8 + n,
            ) {
                None => None::<(Seq<Seq<u8>>, int)>,
                Some(t) => Some((seq![ct@] + t.0, t.1)),
            }));
        }
        let pt_opt = aead_decrypt(key, nonce.as_slice(), ct);
        match pt_opt {
            None => {
                proof {
                    assert forall|c: Seq<u8>|
                        (match parse_file(data@, start as int) {
                            Some(pf) => valid_rel_path(pf.0) && pf.2
                                == #[trigger] spec_sealed_chunks(key@, c),
                            None => false,
                        }) implies false by {
                        if parse_file(data@, start as int) is Some && (parse_file(
                            data@,
                            start as int,
                        ).unwrap().2 == spec_sealed_chunks(key@, c)) {
                            let pf = parse_file(data@, start as int).unwrap();
                            assert(parse_frames(data@, off + 8 + n) is Some);
                            let t = parse_frames(data@, off + 8 + n).unwrap();
                            assert(pf.2 == cts_g@ + (seq![ct@] + t.0));
                            assert(pf.2[counter as int] == ct@);
                            lemma_parse_frames_len(data@, off + 8 + n);
                            assert(pf.2.len() <= u64::MAX);
                            lemma_sealed_chunks_shape(key@, c, pf.2);
                            assert(ct@ == aead_seal(
                                key@,
                                spec_nonce_bytes(counter),
                                spec_chunks(c)[counter as int],
                            ));
                            assert(spec_chunks(c)[counter as int].len() <= CHUNKSIZE);
                            assert(false);
                        }
                    }
                }
                return Err(FCError::new("could not decrypt chunk; wrong passphrase or tampering"));
            },
            Some(pt) => {
                if pt.len() == 0 || pt.len() > CHUNKSIZE {
                    proof {
                        assert forall|c: Seq<u8>|
                            (match parse_file(data@, start as int) {
                                Some(pf) => valid_rel_path(pf.0) && pf.2
                                    == #[trigger] spec_sealed_chunks(key@, c),
                                None => false,
                            }) implies false by {
                            if parse_file(data@, start as int) is Some && (parse_file(
                                data@,
                                start as int,
                            ).unwrap().2 == spec_sealed_chunks(key@, c)) {
                                let pf = parse_file(data@, start as int).unwrap();
                                assert(parse_frames(data@, off + 8 + n) is Some);
                                let t = parse_frames(data@, off + 8 + n).unwrap();
                                assert(pf.2 == cts_g@ + (seq![ct@] + t.0));
                                assert(pf.2[counter as int] == ct@);
                                lemma_parse_frames_len(data@, off + 8 + n);
                                assert(pf.2.len() <= u64::MAX);
                                lemma_sealed_chunks_shape(key@, c, pf.2);
                                assert(ct@ == aead_seal(
                                    key@,
                                    spec_nonce_bytes(counter),
                                    spec_chunks(c)[counter as int],
                                ));
                                assert(spec_chunks(c)[counter as int].len() <= CHUNKSIZE);
                                assert(pt@ == spec_chunks(c)[counter as int]);
                                assert(1 <= spec_chunks(c)[counter as int].len());
                                assert(false);
                            }
                        }
                    }
                    return Err(FCError::new("received chunk of unexpected size"));
                }
                if pt.len() < CHUNKSIZE {
                    short_seen = true;
                }
                let ghost ptg: Seq<u8> = pt@;
                append_bytes(&mut contents, pt.as_slice());
                proof {
                    let old_pts = pts_g@;
                    let old_cts = cts_g@;
                    pts_g@ = pts_g@.push(ptg);
                    cts_g@ = cts_g@.push(ct@);
                    old_pts.push(ptg).lemma_flatten_and_flatten_alt_are_equivalent();
                    old_pts.lemma_flatten_and_flatten_alt_are_equivalent();
                    assert(old_pts.push(ptg).drop_last() =~= old_pts);
                    assert(old_pts.push(ptg).flatten_alt() == old_pts.flatten_alt() + ptg);
                    assert(contents@ == pts_g@.flatten());
                    assert forall|j: int, pt2: Seq<u8>|
                        0 <= j < cts_g@.len() && pt2.len() <= CHUNKSIZE && cts_g@[j]
                            == #[trigger] aead_seal(key@, spec_nonce_bytes(j as u64), pt2)
                        implies pt2 == pts_g@[j] by {
                        if j < old_cts.len() {
                            assert(cts_g@[j] == old_cts[j]);
                            assert(pts_g@[j] == old_pts[j]);
                        } else {
                            assert(cts_g@[j] == ct@);
                            assert(pts_g@[j] == ptg);
                        }
                    }
                    if parse_frames(data@, off + 8 + n) is Some {
                        let t = parse_frames(data@, off + 8 + n).unwrap();
                        assert(old_cts + (seq![ct@] + t.0) =~= cts_g@ + t.0);
                    }
                }
                proof {
                    assert(off as int + 8 + n as int <= data@.len());
                }
                off = off + 8 + n;
                counter = counter + 1;
            },
        }
    }
}

/// Round trip: for any file, encoding it and decoding the resulting stream
/// yields the identical path and byte-identical contents, consuming the
/// whole stream. (Stated as an executable function because it rests on the
/// contracts of the AEAD calls its body makes.)
pub fn file_round_trip(key: &[u8], rel_path: &[u8], contents: &[u8]) -> (r: DecodedFile)
    requires
        key@.len() == 32,
        valid_rel_path(rel_path@),
    ensures
        r.path@ == rel_path@,
        r.contents@ == contents@,
        r.size == contents@.len() as u64,
        r.end as int == spec_file_stream(
            rel_path@,
            contents@.len() as u64,
            spec_sealed_chunks(key@, contents@),
        ).len(),
{
    let stream = encode_file(key, rel_path, contents);
    proof {
        let cts = spec_sealed_chunks(key@, contents@);
        let size: u64 = contents@.len() as u64;
        assert(stream@.subrange(0, stream@.len() as int) =~= spec_file_stream(
            rel_path@,
            size,
            cts,
        ) + Seq::<u8>::empty());
        lemma_parse_file_round_trip(stream@, 0, rel_path@, size, cts, Seq::<u8>::empty());
    }
    let r = decode_file(key, stream.as_slice(), 0);
    match r {
        Ok(d) => d,
        Err(e) => {
            proof {
                assert(false);
            }
            DecodedFile { path: Vec::new(), size: 0, contents: Vec::new(), end: 0 }
        },
    }
}

/// The progress figure shown while streaming: `sent * 100 / total`, clamped
/// to 0 through 100; an empty file counts as complete.
pub fn progress_percent(sent: u64, total: u64) -> (r: u8)
    ensures
        total == 0 ==> r == 100,
        total > 0 ==> r as int == if ((sent as int) * 100) / (total as int) <= 100 {
            ((sent as int) * 100) / (total as int)
        } else {
            100
        },
{
    if total == 0 {
        return 100;
    }
    if sent >= total {
        proof {
            assert(((sent as int) * 100) / (total as int) >= 100) by (nonlinear_arith)
                requires
                    sent >= total,
                    total > 0,
            ;
        }
        return 100;
    }
    proof {
        assert((sent as int) * 100 <= (u64::MAX as int) * 100);
    }
    let scaled: u128 = (sent as u128) * 100;
    let pct: u64 = (scaled / (total as u128)) as u64;
    proof {
        assert(((sent as int) * 100) / (total as int) < 100) by (nonlinear_arith)
            requires
                sent < total,
                total > 0,
        ;
        assert(pct as int == ((sent as int) * 100) / (total as int));
    }
    pct as u8
}

} // verus!
