//! Persistent representation of the journal.
//!
//! The stored image of a journal is the concatenation of one frame per
//! record, in position order.  A frame is a 16-byte header followed by the
//! payload: 8 bytes holding the payload length, little endian, then 8 bytes
//! holding a checksum of the payload.  The header makes the image
//! sequentially scannable, and the checksum makes a torn or corrupted tail
//! detectable when the journal is reopened after a crash.

use vstd::prelude::*;
use vstd::bytes::*;
use vstd::assert_seqs_equal;

verus! {

/// Number of bytes in a frame header: payload length plus checksum.
pub open spec fn header_size() -> int {
    16
}

/// Rolling checksum of a byte sequence: a base-31 polynomial of the bytes,
/// reduced modulo 2^64.
pub open spec fn spec_checksum(s: Seq<u8>) -> u64
    decreases s.len(),
{
    if s.len() == 0 {
        0u64
    } else {
        (((spec_checksum(s.drop_last()) as int) * 31 + s.last() as int)
            % 0x10000000000000000) as u64
    }
}

/// Computes the checksum of `bytes`.
pub fn checksum(bytes: &[u8]) -> (c: u64)
    ensures
        c == spec_checksum(bytes@),
{
    let mut acc: u64 = 0;
    let mut i: usize = 0;
    while i < bytes.len()
        invariant
            0 <= i <= bytes@.len(),
            acc == spec_checksum(bytes@.take(i as int)),
        decreases bytes@.len() - i,
    {
        let b: u8 = *vstd::slice::slice_index_get(bytes, i);
        let wide: u128 = (acc as u128) * 31 + (b as u128);
        let next: u64 = (wide % 0x10000000000000000u128) as u64;
        proof {
            let t = bytes@.take(i + 1);
            assert_seqs_equal!(t.drop_last() == bytes@.take(i as int));
            assert(t.last() == bytes@[i as int]);
        }
        acc = next;
        i += 1;
    }
    proof {
        assert_seqs_equal!(bytes@.take(bytes@.len() as int) == bytes@);
    }
    acc
}

/// The stored frame of one record: length header, checksum header, payload.
pub open spec fn spec_frame(payload: Seq<u8>) -> Seq<u8> {
    spec_u64_to_le_bytes(payload.len() as u64) + spec_u64_to_le_bytes(spec_checksum(payload))
        + payload
}

/// A frame is its header followed by its payload.
pub proof fn lemma_frame_len(payload: Seq<u8>)
    ensures
        spec_frame(payload).len() == header_size() + payload.len(),
{
    lemma_auto_spec_u64_to_from_le_bytes();
}

/// The stored image of a record sequence: the frames in order.
pub open spec fn spec_image(records: Seq<Seq<u8>>) -> Seq<u8>
    decreases records.len(),
{
    if records.len() == 0 {
        Seq::empty()
    } else {
        spec_frame(records.first()) + spec_image(records.drop_first())
    }
}

/// Appending one record extends the image by exactly that record's frame.
pub proof fn lemma_image_push(records: Seq<Seq<u8>>, payload: Seq<u8>)
    ensures
        spec_image(records.push(payload)) == spec_image(records) + spec_frame(payload),
    decreases records.len(),
{
    if records.len() == 0 {
        let p = records.push(payload);
        assert(p.first() == payload);
        assert_seqs_equal!(p.drop_first() == Seq::<Seq<u8>>::empty());
        assert(spec_image(p.drop_first()) == Seq::<u8>::empty());
        assert(spec_image(p) == spec_frame(payload) + Seq::<u8>::empty());
        assert(spec_image(records) == Seq::<u8>::empty());
        assert(spec_frame(payload) + Seq::<u8>::empty() =~= Seq::<u8>::empty()
            + spec_frame(payload));
    } else {
        assert(records.push(payload).first() == records.first());
        assert_seqs_equal!(records.push(payload).drop_first() == records.drop_first().push(payload));
        lemma_image_push(records.drop_first(), payload);
        let head = spec_frame(records.first());
        let tail = spec_image(records.drop_first());
        assert(spec_image(records.push(payload)) == head + (tail + spec_frame(payload)));
        assert(head + (tail + spec_frame(payload)) =~= (head + tail) + spec_frame(payload));
    }
}

/// Builds the frame of one record.
pub fn encode_record(payload: &Vec<u8>) -> (out: Vec<u8>)
    ensures
        out@ == spec_frame(payload@),
{
    proof {
        lemma_auto_spec_u64_to_from_le_bytes();
    }
    let mut out = u64_to_le_bytes(payload.len() as u64);
    let mut ck_bytes = u64_to_le_bytes(checksum(payload.as_slice()));
    out.append(&mut ck_bytes);
    let mut i: usize = 0;
    while i < payload.len()
        invariant
            0 <= i <= payload@.len(),
            out@ == spec_u64_to_le_bytes(payload@.len() as u64)
                + spec_u64_to_le_bytes(spec_checksum(payload@)) + payload@.take(i as int),
        decreases payload@.len() - i,
    {
        out.push(payload[i]);
        proof {
            assert_seqs_equal!(payload@.take(i + 1) == payload@.take(i as int).push(payload@[i as int]));
        }
        i += 1;
    }
    proof {
        assert_seqs_equal!(payload@.take(payload@.len() as int) == payload@);
    }
    out
}

/// Builds the stored image of the first `upto` records.
pub fn encode_records(records: &Vec<Vec<u8>>, upto: usize) -> (out: Vec<u8>)
    requires
        upto <= records@.len(),
    ensures
        out@ == spec_image(records.deep_view().take(upto as int)),
{
    let mut out: Vec<u8> = Vec::new();
    let mut k: usize = 0;
    proof {
        assert_seqs_equal!(records.deep_view().take(0) == Seq::<Seq<u8>>::empty());
    }
    while k < upto
        invariant
            0 <= k <= upto <= records@.len(),
            records.deep_view().len() == records@.len(),
            out@ == spec_image(records.deep_view().take(k as int)),
        decreases upto - k,
    {
        let mut frame = encode_record(&records[k]);
        proof {
            let deep = records.deep_view();
            assert(deep[k as int] == records@[k as int]@);
            assert_seqs_equal!(deep.take(k + 1) == deep.take(k as int).push(deep[k as int]));
            lemma_image_push(deep.take(k as int), deep[k as int]);
        }
        out.append(&mut frame);
        k += 1;
    }
    out
}

/// What a sequential scan of stored bytes yields: the payloads of every
/// complete, checksum-valid record, in order.  An incomplete trailing frame
/// (a torn write) is discarded; a complete frame whose checksum does not
/// match is corruption, and the scan fails.
pub open spec fn spec_recover(bytes: Seq<u8>) -> Result<Seq<Seq<u8>>, ()>
    decreases bytes.len(),
{
    if bytes.len() < header_size() {
        Ok(Seq::empty())
    } else {
        let len = spec_u64_from_le_bytes(bytes.subrange(0, 8)) as int;
        let ck = spec_u64_from_le_bytes(bytes.subrange(8, 16));
        if bytes.len() < header_size() + len {
            Ok(Seq::empty())
        } else {
            let payload = bytes.subrange(16, 16 + len);
            if spec_checksum(payload) != ck {
                Err(())
            } else {
                match spec_recover(bytes.subrange(16 + len, bytes.len() as int)) {
                    Ok(rest) => Ok(seq![payload] + rest),
                    Err(e) => Err(e),
                }
            }
        }
    }
}

/// Scanning a well-formed frame consumes exactly that frame and yields its
/// payload, then continues on the remaining bytes.
pub proof fn lemma_recover_frame(payload: Seq<u8>, rest: Seq<u8>)
    requires
        payload.len() < 0x10000000000000000,
    ensures
        spec_recover(rest) is Ok ==> spec_recover(spec_frame(payload) + rest)
            == Ok::<Seq<Seq<u8>>, ()>(seq![payload] + spec_recover(rest)->Ok_0),
        spec_recover(rest) is Err ==> spec_recover(spec_frame(payload) + rest) is Err,
{
    lemma_auto_spec_u64_to_from_le_bytes();
    let lenb = spec_u64_to_le_bytes(payload.len() as u64);
    let ckb = spec_u64_to_le_bytes(spec_checksum(payload));
    let b = spec_frame(payload) + rest;
    assert(lenb.len() == 8 && ckb.len() == 8);
    assert(b.len() == 16 + payload.len() + rest.len());
    assert_seqs_equal!(b.subrange(0, 8) == lenb);
    assert_seqs_equal!(b.subrange(8, 16) == ckb);
    assert(spec_u64_from_le_bytes(b.subrange(0, 8)) == payload.len() as u64);
    let len = spec_u64_from_le_bytes(b.subrange(0, 8)) as int;
    assert(len == payload.len());
    assert_seqs_equal!(b.subrange(16, 16 + len) == payload);
    assert_seqs_equal!(b.subrange(16 + len, b.len() as int) == rest);
    assert(spec_u64_from_le_bytes(b.subrange(8, 16)) == spec_checksum(payload));
}

/// A scan of the complete image of a record sequence yields exactly that
/// sequence.
pub proof fn lemma_recover_image(records: Seq<Seq<u8>>)
    requires
        forall|i: int| 0 <= i < records.len() ==> #[trigger] records[i].len()
            < 0x10000000000000000,
    ensures
        spec_recover(spec_image(records)) == Ok::<Seq<Seq<u8>>, ()>(records),
    decreases records.len(),
{
    if records.len() == 0 {
        assert(spec_image(records) == Seq::<u8>::empty());
        assert_seqs_equal!(spec_recover(spec_image(records))->Ok_0 == records);
    } else {
        let head = records.first();
        let tail = records.drop_first();
        assert(forall|i: int| 0 <= i < tail.len() ==> #[trigger] tail[i].len()
            < 0x10000000000000000) by {
            assert(forall|i: int| 0 <= i < tail.len() ==> tail[i] == records[i + 1]);
        }
        lemma_recover_image(tail);
        lemma_recover_frame(head, spec_image(tail));
        assert_seqs_equal!(seq![head] + tail == records);
    }
}

/// A scan of a complete image followed by a torn tail — a strict prefix of
/// some record's frame — yields exactly the complete records: the torn tail
/// is discarded, and the scan still succeeds.
pub proof fn lemma_recover_torn(records: Seq<Seq<u8>>, torn: Seq<u8>, cut: int)
    requires
        forall|i: int| 0 <= i < records.len() ==> #[trigger] records[i].len()
            < 0x10000000000000000,
        torn.len() < 0x10000000000000000,
        0 <= cut < spec_frame(torn).len(),
    ensures
        spec_recover(spec_image(records) + spec_frame(torn).take(cut))
            == Ok::<Seq<Seq<u8>>, ()>(records),
    decreases records.len(),
{
    lemma_auto_spec_u64_to_from_le_bytes();
    let tail = spec_frame(torn).take(cut);
    if records.len() == 0 {
        let b = spec_image(records) + tail;
        assert_seqs_equal!(b == tail);
        if b.len() < 16 {
            assert(spec_recover(b) == Ok::<Seq<Seq<u8>>, ()>(Seq::empty()));
        } else {
            let lenb = spec_u64_to_le_bytes(torn.len() as u64);
            assert(lenb.len() == 8);
            assert(spec_frame(torn).len() == 16 + torn.len());
            assert_seqs_equal!(b.subrange(0, 8) == lenb);
            let len = spec_u64_from_le_bytes(b.subrange(0, 8)) as int;
            assert(len == torn.len());
            assert(b.len() < 16 + len);
            assert(spec_recover(b) == Ok::<Seq<Seq<u8>>, ()>(Seq::empty()));
        }
        assert_seqs_equal!(spec_recover(b)->Ok_0 == records);
    } else {
        let head = records.first();
        let rest = records.drop_first();
        assert(forall|i: int| 0 <= i < rest.len() ==> #[trigger] rest[i].len()
            < 0x10000000000000000) by {
            assert(forall|i: int| 0 <= i < rest.len() ==> rest[i] == records[i + 1]);
        }
        lemma_recover_torn(rest, torn, cut);
        lemma_recover_frame(head, spec_image(rest) + tail);
        assert(spec_image(records) + tail =~= spec_frame(head) + (spec_image(rest) + tail));
        assert_seqs_equal!(seq![head] + rest == records);
    }
}

/// A longer prefix of a record sequence never has a shorter image.
pub proof fn lemma_image_len_monotone(records: Seq<Seq<u8>>, i: int, j: int)
    requires
        0 <= i <= j <= records.len(),
    ensures
        spec_image(records.take(i)).len() <= spec_image(records.take(j)).len(),
    decreases j - i,
{
    if i < j {
        lemma_image_len_monotone(records, i, j - 1);
        assert_seqs_equal!(records.take(j) == records.take(j - 1).push(records[j - 1]));
        lemma_image_push(records.take(j - 1), records[j - 1]);
    }
}

/// The image of a record sequence splits at any record boundary.
pub proof fn lemma_image_decompose(records: Seq<Seq<u8>>, k: int)
    requires
        0 <= k <= records.len(),
    ensures
        spec_image(records) == spec_image(records.take(k)) + spec_image(records.skip(k)),
    decreases k,
{
    if k == 0 {
        assert_seqs_equal!(records.take(0) == Seq::<Seq<u8>>::empty());
        assert(spec_image(records.take(0)) == Seq::<u8>::empty());
        assert_seqs_equal!(records.skip(0) == records);
        assert_seqs_equal!(spec_image(records)
            == spec_image(records.take(0)) + spec_image(records.skip(0)));
    } else {
        let hd = records.first();
        let tl = records.drop_first();
        lemma_image_decompose(tl, k - 1);
        assert_seqs_equal!(tl.take(k - 1) == records.take(k).drop_first());
        assert_seqs_equal!(tl.skip(k - 1) == records.skip(k));
        assert(records.take(k).first() == hd);
        assert(spec_image(records.take(k)) == spec_frame(hd) + spec_image(tl.take(k - 1)));
        assert(spec_image(records) == spec_frame(hd) + (spec_image(tl.take(k - 1))
            + spec_image(records.skip(k))));
        assert(spec_frame(hd) + (spec_image(tl.take(k - 1)) + spec_image(records.skip(k)))
            =~= (spec_frame(hd) + spec_image(tl.take(k - 1))) + spec_image(records.skip(k)));
    }
}

/// A successful scan never yields records whose image is longer than the
/// bytes it scanned: the image of the result is a prefix of the store.
pub proof fn lemma_recover_len_bound(bytes: Seq<u8>)
    requires
        spec_recover(bytes) is Ok,
    ensures
        spec_image(spec_recover(bytes)->Ok_0).len() <= bytes.len(),
    decreases bytes.len(),
{
    lemma_auto_spec_u64_to_from_le_bytes();
    if bytes.len() < 16 {
        assert(spec_recover(bytes)->Ok_0 == Seq::<Seq<u8>>::empty());
    } else {
        let len = spec_u64_from_le_bytes(bytes.subrange(0, 8)) as int;
        if bytes.len() < 16 + len {
            assert(spec_recover(bytes)->Ok_0 == Seq::<Seq<u8>>::empty());
        } else {
            let payload = bytes.subrange(16, 16 + len);
            let next = bytes.subrange(16 + len, bytes.len() as int);
            lemma_recover_len_bound(next);
            let rest = spec_recover(next)->Ok_0;
            let whole = spec_recover(bytes)->Ok_0;
            assert(whole == seq![payload] + rest);
            assert(whole.first() == payload);
            assert_seqs_equal!(whole.drop_first() == rest);
            assert(spec_image(whole) == spec_frame(payload) + spec_image(rest));
        }
    }
}

/// Scans stored bytes and returns the payloads of every complete,
/// checksum-valid record in order, discarding a torn trailing frame; fails
/// if a complete frame's checksum does not match.
pub fn recover_records(bytes: &Vec<u8>) -> (r: Result<Vec<Vec<u8>>, ()>)
    ensures
        match r {
            Ok(records) => spec_recover(bytes@) == Ok::<Seq<Seq<u8>>, ()>(records.deep_view()),
            Err(e) => spec_recover(bytes@) is Err,
        },
{
    let n: usize = bytes.len();
    let mut acc: Vec<Vec<u8>> = Vec::new();
    let mut idx: usize = 0;
    proof {
        assert_seqs_equal!(bytes@.subrange(0, n as int) == bytes@);
        assert_seqs_equal!(acc.deep_view() == Seq::<Seq<u8>>::empty());
    }
    while n - idx >= 16
        invariant
            n == bytes@.len(),
            0 <= idx <= n,
            forall|rest: Seq<Seq<u8>>|
                spec_recover(bytes@.subrange(idx as int, n as int))
                    == Ok::<Seq<Seq<u8>>, ()>(rest)
                    ==> spec_recover(bytes@) == Ok::<Seq<Seq<u8>>, ()>(
                        #[trigger] (acc.deep_view() + rest),
                    ),
            spec_recover(bytes@.subrange(idx as int, n as int)) is Err
                ==> spec_recover(bytes@) is Err,
        decreases n - idx,
    {
        let ghost sub = bytes@.subrange(idx as int, n as int);
        let len_u64: u64 = u64_from_le_bytes(vstd::slice::slice_subrange(
            bytes.as_slice(), idx, idx + 8));
        let ck: u64 = u64_from_le_bytes(vstd::slice::slice_subrange(
            bytes.as_slice(), idx + 8, idx + 16));
        proof {
            assert_seqs_equal!(bytes@.subrange(idx as int, idx + 8) == sub.subrange(0, 8));
            assert_seqs_equal!(bytes@.subrange(idx + 8, idx + 16) == sub.subrange(8, 16));
        }
        let room: u64 = ((n - idx) - 16) as u64;
        if room < len_u64 {
            proof {
                assert(spec_recover(sub) == Ok::<Seq<Seq<u8>>, ()>(Seq::empty()));
                assert_seqs_equal!(acc.deep_view() + Seq::<Seq<u8>>::empty() == acc.deep_view());
            }
            return Ok(acc);
        }
        let len: usize = len_u64 as usize;
        let payload_slice = vstd::slice::slice_subrange(
            bytes.as_slice(), idx + 16, idx + 16 + len);
        let actual: u64 = checksum(payload_slice);
        proof {
            assert_seqs_equal!(bytes@.subrange(idx + 16, idx + 16 + len)
                == sub.subrange(16, 16 + len));
        }
        if actual != ck {
            proof {
                assert(spec_recover(sub) is Err);
            }
            return Err(());
        }
        let payload = vstd::slice::slice_to_vec(payload_slice);
        let ghost old_deep = acc.deep_view();
        acc.push(payload);
        proof {
            let p = sub.subrange(16, 16 + len);
            let next = bytes@.subrange(idx + 16 + len, n as int);
            assert_seqs_equal!(sub.subrange(16 + len, sub.len() as int) == next);
            assert(spec_recover(sub) == (match spec_recover(next) {
                Ok(rest) => Ok::<Seq<Seq<u8>>, ()>(seq![p] + rest),
                Err(e) => Err(e),
            }));
            assert_seqs_equal!(acc.deep_view() == old_deep.push(p));
            assert forall|rest: Seq<Seq<u8>>|
                spec_recover(next) == Ok::<Seq<Seq<u8>>, ()>(rest)
                    implies spec_recover(bytes@) == Ok::<Seq<Seq<u8>>, ()>(
                        #[trigger] (acc.deep_view() + rest),
                    ) by {
                assert(spec_recover(sub) == Ok::<Seq<Seq<u8>>, ()>(seq![p] + rest));
                assert(spec_recover(bytes@) == Ok::<Seq<Seq<u8>>, ()>(
                    old_deep + (seq![p] + rest)));
                assert(acc.deep_view() + rest =~= old_deep + (seq![p] + rest));
            }
        }
        idx = idx + 16 + len;
    }
    proof {
        assert(spec_recover(bytes@.subrange(idx as int, n as int))
            == Ok::<Seq<Seq<u8>>, ()>(Seq::empty()));
        assert_seqs_equal!(acc.deep_view() + Seq::<Seq<u8>>::empty() == acc.deep_view());
    }
    Ok(acc)
}

} // verus!
