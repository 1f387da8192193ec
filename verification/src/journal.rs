//! Local persistent journal of records.
//!
//! A journal is a strictly ordered, gap-free sequence of immutable records.
//! Appending a record allocates the next [`Position`] and stages the record;
//! a later durability step confirms persistence and advances the durable and
//! readable frontiers, which always respect position order.  Reopening a
//! journal over its stored bytes reconstructs the order and the durable
//! frontier that existed at the last durable point, discarding a torn
//! trailing write.

use vstd::prelude::*;
use vstd::assert_seqs_equal;
use core::cmp::Ordering;
use crate::codec::spec_image;
use crate::codec::spec_recover;
use crate::codec::spec_frame;
use crate::codec::lemma_image_push;
use crate::codec::lemma_frame_len;
use crate::codec::lemma_image_len_monotone;
use crate::codec::lemma_image_decompose;
use crate::codec::lemma_recover_len_bound;
use crate::codec::lemma_recover_torn;
use crate::codec::encode_records;
use crate::codec::recover_records;
use crate::completion::AppendSignal;
use crate::completion::Committed;
use crate::completion::SignalCell;
use crate::completion::signal_pair;
use crate::completion::resolve_signal;

verus! {

/// A position in a journal, identifying one slot in its record sequence.
///
/// Positions are totally ordered, consistently with append order.  They are
/// only obtained from a journal — by appending or by scanning — never
/// instantiated directly, so a journal may later encode more structure in
/// them without callers noticing.
#[derive(Clone, Copy, Debug, PartialEq, Eq, Structural, Hash, Ord)]
pub struct Position {
    position: u64,
}

impl View for Position {
    type V = int;

    /// The index of the identified slot in the record sequence.
    closed spec fn view(&self) -> int {
        self.position as int
    }
}

impl PartialOrd for Position {
    fn partial_cmp(&self, other: &Position) -> (r: Option<Ordering>) {
        if self.position < other.position {
            Some(Ordering::Less)
        } else if self.position == other.position {
            Some(Ordering::Equal)
        } else {
            Some(Ordering::Greater)
        }
    }
}

impl vstd::std_specs::cmp::PartialOrdSpecImpl for Position {
    open spec fn obeys_partial_cmp_spec() -> bool {
        true
    }

    open spec fn partial_cmp_spec(&self, other: &Position) -> Option<Ordering> {
        if self@ < other@ {
            Some(Ordering::Less)
        } else if self@ == other@ {
            Some(Ordering::Equal)
        } else {
            Some(Ordering::Greater)
        }
    }
}

/// Why a journal operation could not be carried out.
#[derive(Clone, Copy, Debug, PartialEq, Eq, Structural)]
pub enum JournalError {
    /// The journal is sealed: an earlier record could not be made durable,
    /// and the positions from that record onward are never reassigned.
    Sealed,
    /// The stored bytes are corrupt beyond the recoverable torn tail.
    Corrupt,
    /// The store cannot hold a staged record within its capacity.
    StorageFull,
}

/// An immutable payload together with the position the journal assigned it.
pub struct Record {
    payload: Vec<u8>,
    position: Position,
}

impl Record {
    /// The payload bytes.
    pub closed spec fn spec_payload(&self) -> Seq<u8> {
        self.payload@
    }

    /// The index of the record's position.
    pub closed spec fn spec_position(&self) -> int {
        self.position@
    }

    /// The payload bytes.
    pub fn payload(&self) -> (p: &Vec<u8>)
        ensures
            p@ == self.spec_payload(),
    {
        &self.payload
    }

    /// The position the journal assigned to this record.
    pub fn position(&self) -> (p: Position)
        ensures
            p@ == self.spec_position(),
    {
        self.position
    }
}

/// The durable frontier a store of capacity `cap` can reach over the staged
/// records `rs`: the length of the longest prefix whose image fits.
pub open spec fn spec_fit(rs: Seq<Seq<u8>>, cap: int) -> int
    decreases rs.len(),
{
    if rs.len() == 0 {
        0
    } else if spec_image(rs).len() <= cap {
        rs.len() as int
    } else {
        spec_fit(rs.drop_last(), cap)
    }
}

/// `spec_fit` is the unique boundary: a prefix that fits, followed either by
/// the end of the records or by a first record that no longer fits.
pub proof fn lemma_fit_unique(rs: Seq<Seq<u8>>, cap: int, k: int)
    requires
        0 <= k <= rs.len(),
        spec_image(rs.take(k)).len() <= cap,
        k < rs.len() ==> spec_image(rs.take(k + 1)).len() > cap,
    ensures
        spec_fit(rs, cap) == k,
    decreases rs.len(),
{
    if k == rs.len() {
        assert_seqs_equal!(rs.take(k) == rs);
    } else {
        lemma_image_len_monotone(rs, k + 1, rs.len() as int);
        assert_seqs_equal!(rs.take(rs.len() as int) == rs);
        let shorter = rs.drop_last();
        assert_seqs_equal!(shorter == rs.take(rs.len() - 1));
        assert_seqs_equal!(shorter.take(k) == rs.take(k));
        if k < shorter.len() {
            assert_seqs_equal!(shorter.take(k + 1) == rs.take(k + 1));
        }
        lemma_fit_unique(shorter, cap, k);
    }
}

/// A journal over an in-memory store image.
///
/// The store holds at most `capacity` bytes durably.  Records are staged by
/// [`Journal::append`] and made durable, in position order, by
/// [`Journal::sync`]; a record that cannot be made durable seals the journal
/// from that position onward.
pub struct Journal {
    records: Vec<Vec<u8>>,
    durable: usize,
    readable: usize,
    capacity: usize,
    sealed: bool,
    pending: Vec<SignalCell>,
}

impl Journal {
    /// The payloads of every record ever staged, in position order; the
    /// record at position `p` is `staged()[p@]`.
    pub closed spec fn staged(self) -> Seq<Seq<u8>> {
        self.records.deep_view()
    }

    /// How many records, counted from position zero, are durable.
    pub closed spec fn durable_count(self) -> int {
        self.durable as int
    }

    /// How many records, counted from position zero, are readable.
    pub closed spec fn readable_count(self) -> int {
        self.readable as int
    }

    /// The store's capacity in bytes.
    pub closed spec fn store_capacity(self) -> int {
        self.capacity as int
    }

    /// Whether a failed durability step has sealed the journal.
    pub closed spec fn is_sealed(self) -> bool {
        self.sealed
    }

    /// The record at position index `p` is durable.
    pub open spec fn is_durable(self, p: int) -> bool {
        0 <= p < self.durable_count()
    }

    /// The record at position index `p` is readable.
    pub open spec fn is_readable(self, p: int) -> bool {
        0 <= p < self.readable_count()
    }

    /// What a read starting at position index `from` yields: the payloads of
    /// the readable records at and after `from`, in position order.
    pub open spec fn spec_read(self, from: int) -> Seq<Seq<u8>> {
        if 0 <= from < self.readable_count() {
            self.staged().subrange(from, self.readable_count())
        } else {
            Seq::empty()
        }
    }

    /// Well-formedness: the readable frontier never exceeds the durable one,
    /// durable records are staged, the durable image fits the store, and one
    /// pending completion is held per staged-but-not-durable record.
    pub closed spec fn wf(self) -> bool {
        &&& self.readable <= self.durable <= self.records@.len()
        &&& spec_image(self.staged().take(self.durable as int)).len() <= self.capacity as int
        &&& (!self.sealed ==> self.pending@.len() == self.records@.len() - self.durable)
        &&& (self.sealed ==> self.pending@.len() == 0)
    }

    /// Opens a fresh, empty journal over a store of `capacity` bytes.
    pub fn with_capacity(capacity: usize) -> (j: Journal)
        ensures
            j.wf(),
            j.staged() == Seq::<Seq<u8>>::empty(),
            j.durable_count() == 0,
            j.readable_count() == 0,
            !j.is_sealed(),
            j.store_capacity() == capacity as int,
    {
        let j = Journal {
            records: Vec::new(),
            durable: 0,
            readable: 0,
            capacity,
            sealed: false,
            pending: Vec::new(),
        };
        proof {
            assert_seqs_equal!(j.staged() == Seq::<Seq<u8>>::empty());
            assert_seqs_equal!(j.staged().take(0) == Seq::<Seq<u8>>::empty());
        }
        j
    }

    /// Opens a fresh, empty journal over an unbounded store.
    pub fn new() -> (j: Journal)
        ensures
            j.wf(),
            j.staged() == Seq::<Seq<u8>>::empty(),
            j.durable_count() == 0,
            j.readable_count() == 0,
            !j.is_sealed(),
            j.store_capacity() == usize::MAX as int,
    {
        Journal::with_capacity(usize::MAX)
    }

    /// Reopens a journal over previously stored bytes with a store of
    /// `capacity` bytes: scans the bytes, discards a torn trailing write,
    /// and sets both frontiers at the last complete record.  Fails if the
    /// bytes are corrupt beyond the torn tail.
    pub fn open_with_capacity(stored: &Vec<u8>, capacity: usize) -> (r: Result<
        Journal,
        JournalError,
    >)
        requires
            stored@.len() <= capacity,
        ensures
            match r {
                Ok(j) => {
                    &&& spec_recover(stored@) is Ok
                    &&& j.wf()
                    &&& j.staged() == spec_recover(stored@)->Ok_0
                    &&& j.durable_count() == j.staged().len()
                    &&& j.readable_count() == j.staged().len()
                    &&& !j.is_sealed()
                    &&& j.store_capacity() == capacity as int
                },
                Err(e) => {
                    &&& e == JournalError::Corrupt
                    &&& spec_recover(stored@) is Err
                },
            },
    {
        match recover_records(stored) {
            Ok(records) => {
                let durable: usize = records.len();
                let j = Journal {
                    records,
                    durable,
                    readable: durable,
                    capacity,
                    sealed: false,
                    pending: Vec::new(),
                };
                proof {
                    lemma_recover_len_bound(stored@);
                    assert_seqs_equal!(j.staged().take(j.durable as int) == j.staged());
                }
                Ok(j)
            },
            Err(_) => Err(JournalError::Corrupt),
        }
    }

    /// Reopens a journal over previously stored bytes with an unbounded
    /// store.
    pub fn open(stored: &Vec<u8>) -> (r: Result<Journal, JournalError>)
        ensures
            match r {
                Ok(j) => {
                    &&& spec_recover(stored@) is Ok
                    &&& j.wf()
                    &&& j.staged() == spec_recover(stored@)->Ok_0
                    &&& j.durable_count() == j.staged().len()
                    &&& j.readable_count() == j.staged().len()
                    &&& !j.is_sealed()
                    &&& j.store_capacity() == usize::MAX as int
                },
                Err(e) => {
                    &&& e == JournalError::Corrupt
                    &&& spec_recover(stored@) is Err
                },
            },
    {
        proof {
            assert(stored@.len() <= usize::MAX) by {
                assert(stored@.len() == stored.len());
            }
        }
        Journal::open_with_capacity(stored, usize::MAX)
    }

    /// Appends a record: allocates the next position, stages the payload,
    /// and returns the position together with a completion signal that
    /// resolves once the record is durable.  The position equals the number
    /// of records ever staged before it, so successive appends return
    /// strictly increasing, gap-free positions.  A sealed journal rejects
    /// the append and stays unchanged.
    pub fn append(&mut self, payload: Vec<u8>) -> (r: Result<(Position, AppendSignal),
        JournalError>)
        requires
            old(self).wf(),
        ensures
            final(self).wf(),
            final(self).durable_count() == old(self).durable_count(),
            final(self).readable_count() == old(self).readable_count(),
            final(self).store_capacity() == old(self).store_capacity(),
            final(self).is_sealed() == old(self).is_sealed(),
            match r {
                Ok((pos, _)) => {
                    &&& !old(self).is_sealed()
                    &&& pos@ == old(self).staged().len()
                    &&& final(self).staged() == old(self).staged().push(payload@)
                },
                Err(e) => {
                    &&& old(self).is_sealed()
                    &&& e == JournalError::Sealed
                    &&& final(self).staged() == old(self).staged()
                },
            },
    {
        if self.sealed {
            return Err(JournalError::Sealed);
        }
        let pos = Position { position: self.records.len() as u64 };
        let (signal, cell) = signal_pair();
        let ghost old_staged = self.staged();
        let ghost old_durable = self.durable as int;
        self.records.push(payload);
        self.pending.push(cell);
        proof {
            assert_seqs_equal!(self.staged() == old_staged.push(payload@));
            assert_seqs_equal!(self.staged().take(old_durable) == old_staged.take(old_durable));
        }
        Ok((pos, signal))
    }

    /// Performs the durability step: flushes the staged records, in position
    /// order, as far as the store's capacity allows, advances the durable
    /// and readable frontiers there, and resolves each staged record's
    /// completion signal — success for records now durable, failure for
    /// records that did not fit, which seal the journal.
    pub fn sync(&mut self)
        requires
            old(self).wf(),
        ensures
            final(self).wf(),
            final(self).staged() == old(self).staged(),
            final(self).store_capacity() == old(self).store_capacity(),
            final(self).durable_count() == spec_fit(old(self).staged(),
                old(self).store_capacity()),
            final(self).readable_count() == final(self).durable_count(),
            final(self).durable_count() >= old(self).durable_count(),
            final(self).readable_count() >= old(self).readable_count(),
            final(self).is_sealed() == (old(self).is_sealed() || spec_fit(old(self).staged(),
                old(self).store_capacity()) < old(self).staged().len()),
    {
        let n: usize = self.records.len();
        let mut k: usize = 0;
        let mut total: usize = 0;
        proof {
            assert_seqs_equal!(self.staged().take(0) == Seq::<Seq<u8>>::empty());
        }
        while k < n && self.records[k].len() <= self.capacity - total && 16 <= (self.capacity
            - total) - self.records[k].len()
            invariant
                *self == *old(self),
                n == self.records@.len(),
                0 <= k <= n,
                total <= self.capacity,
                total == spec_image(self.staged().take(k as int)).len(),
            decreases n - k,
        {
            proof {
                assert(self.staged()[k as int] == self.records@[k as int]@);
                assert_seqs_equal!(self.staged().take(k + 1)
                    == self.staged().take(k as int).push(self.staged()[k as int]));
                lemma_image_push(self.staged().take(k as int), self.staged()[k as int]);
                lemma_frame_len(self.staged()[k as int]);
            }
            total = total + 16 + self.records[k].len();
            k = k + 1;
        }
        proof {
            let staged = self.staged();
            let cap = self.capacity as int;
            if k < n {
                assert(staged[k as int] == self.records@[k as int]@);
                assert_seqs_equal!(staged.take(k + 1)
                    == staged.take(k as int).push(staged[k as int]));
                lemma_image_push(staged.take(k as int), staged[k as int]);
                lemma_frame_len(staged[k as int]);
                assert(spec_image(staged.take(k + 1)).len() > cap);
            }
            lemma_fit_unique(staged, cap, k as int);
            if k < self.durable {
                lemma_image_len_monotone(staged, k + 1, self.durable as int);
                assert(false);
            }
        }
        if !self.sealed {
            let resolved: usize = k - self.durable;
            let mut i: usize = 0;
            while i < self.pending.len()
                invariant
                    *self == *old(self),
                decreases self.pending@.len() - i,
            {
                if i < resolved {
                    resolve_signal(&self.pending[i], Ok(Committed));
                } else {
                    resolve_signal(&self.pending[i], Err(JournalError::StorageFull));
                }
                i = i + 1;
            }
            self.pending = Vec::new();
            if k < n {
                self.sealed = true;
            }
        }
        self.durable = k;
        self.readable = k;
    }

    /// Reads the readable records at and after `from`, in strictly
    /// increasing position order with no gaps.  A position at or beyond the
    /// readable frontier yields an empty sequence; every yielded record is
    /// durable.
    pub fn read_from(&self, from: Position) -> (out: Vec<Record>)
        requires
            self.wf(),
        ensures
            out@.len() == self.spec_read(from@).len(),
            forall|i: int| 0 <= i < out@.len() ==> {
                &&& (#[trigger] out@[i]).spec_payload() == self.spec_read(from@)[i]
                &&& out@[i].spec_position() == from@ + i
            },
    {
        let mut out: Vec<Record> = Vec::new();
        if from.position >= self.readable as u64 {
            return out;
        }
        let mut i: usize = from.position as usize;
        while i < self.readable
            invariant
                self.wf(),
                from@ <= i <= self.readable_count(),
                out@.len() == i - from@,
                forall|j: int| 0 <= j < out@.len() ==> {
                    &&& (#[trigger] out@[j]).spec_payload() == self.staged()[from@ + j]
                    &&& out@[j].spec_position() == from@ + j
                },
            decreases self.readable_count() - i,
        {
            let payload = copy_bytes(&self.records[i]);
            proof {
                assert(self.staged()[i as int] == self.records@[i as int]@);
            }
            out.push(Record { payload, position: Position { position: i as u64 } });
            i = i + 1;
        }
        out
    }

    /// The journal's defined origin: the position of the first record ever
    /// appended.  Reading from the origin scans the whole readable
    /// sequence.
    pub fn origin(&self) -> (p: Position)
        ensures
            p@ == 0,
    {
        Position { position: 0 }
    }

    /// The position of the newest durable record, if any record is durable.
    pub fn durable_frontier(&self) -> (p: Option<Position>)
        ensures
            match p {
                Some(q) => q@ == self.durable_count() - 1 && self.durable_count() > 0,
                None => self.durable_count() == 0,
            },
    {
        if self.durable == 0 {
            None
        } else {
            Some(Position { position: (self.durable - 1) as u64 })
        }
    }

    /// The position of the newest readable record, if any record is
    /// readable.
    pub fn readable_frontier(&self) -> (p: Option<Position>)
        ensures
            match p {
                Some(q) => q@ == self.readable_count() - 1 && self.readable_count() > 0,
                None => self.readable_count() == 0,
            },
    {
        if self.readable == 0 {
            None
        } else {
            Some(Position { position: (self.readable - 1) as u64 })
        }
    }

    /// The byte image handed to the store, including bytes whose durability
    /// is not yet confirmed.  After a crash, the store may retain any prefix
    /// of this image that extends the durable image.
    pub fn staged_image(&self) -> (out: Vec<u8>)
        ensures
            out@ == spec_image(self.staged()),
    {
        let out = encode_records(&self.records, self.records.len());
        proof {
            assert_seqs_equal!(self.staged().take(self.records@.len() as int) == self.staged());
        }
        out
    }

    /// The byte image guaranteed to survive a crash: the frames of the
    /// durable records.
    pub fn durable_image(&self) -> (out: Vec<u8>)
        requires
            self.wf(),
        ensures
            out@ == spec_image(self.staged().take(self.durable_count())),
    {
        encode_records(&self.records, self.durable)
    }

    /// Closes the journal, releasing it and handing back the stored bytes
    /// that reopening is guaranteed to recover: the durable image.
    pub fn close(self) -> (out: Vec<u8>)
        requires
            self.wf(),
        ensures
            out@ == spec_image(self.staged().take(self.durable_count())),
    {
        encode_records(&self.records, self.durable)
    }
}

/// Positions are allocated strictly increasing with no gaps, starting at
/// the journal's origin: each append returns the count of records staged
/// before it (the ensures of [`Journal::append`] supply the premises), so
/// of two successive appends the second returns exactly the first position
/// plus one, and a fresh journal's first append returns position zero.
pub proof fn lemma_positions_contiguous(
    j0: Journal,
    j1: Journal,
    j2: Journal,
    p1: Seq<u8>,
    p2: Seq<u8>,
    pos1: int,
    pos2: int,
)
    requires
        j1.staged() == j0.staged().push(p1),
        pos1 == j0.staged().len(),
        j2.staged() == j1.staged().push(p2),
        pos2 == j1.staged().len(),
    ensures
        pos2 == pos1 + 1,
{
}

/// Durability respects position order: if the record at position index `b`
/// is durable, so is the record at every earlier position — the success of
/// a later append implies the success of every earlier one.
pub proof fn lemma_durable_prefix(j: Journal, a: int, b: int)
    requires
        0 <= a <= b,
        j.is_durable(b),
    ensures
        j.is_durable(a),
{
}

/// Readability respects position order and never exceeds durability: if the
/// record at position index `b` is readable, so is every earlier record,
/// and every readable record is durable.
pub proof fn lemma_readable_prefix(j: Journal, a: int, b: int)
    requires
        j.wf(),
        0 <= a <= b,
        j.is_readable(b),
    ensures
        j.is_readable(a),
        j.is_durable(a),
        j.is_durable(b),
{
}

/// A read from position index `a` reaches every later readable position:
/// the record at `a` comes first, the record at a later readable `b` comes
/// exactly `b - a` records after it, with nothing skipped or reordered.
pub proof fn lemma_read_reaches_later(j: Journal, a: int, b: int)
    requires
        j.wf(),
        0 <= a < b,
        j.is_readable(b),
    ensures
        j.spec_read(a).len() == j.readable_count() - a,
        j.spec_read(a)[0] == j.staged()[a],
        j.spec_read(a)[b - a] == j.staged()[b],
{
}

/// Round trip: the record staged at position index `pos` with payload
/// `payload` (the ensures of [`Journal::append`] supply the premises, and
/// [`Journal::sync`] keeps the staged records) is yielded back first, byte
/// for byte, by a read from `pos` once `pos` is readable.
pub proof fn lemma_round_trip(before: Journal, after: Journal, payload: Seq<u8>, pos: int)
    requires
        after.wf(),
        after.staged() == before.staged().push(payload),
        pos == before.staged().len(),
        pos < after.readable_count(),
    ensures
        after.spec_read(pos).len() >= 1,
        after.spec_read(pos)[0] == payload,
{
}

/// Reads are repeatable: what a read yields is a function of the journal
/// state and the position alone, so two reads without an intervening
/// append or durability step yield identical sequences.
pub proof fn lemma_read_repeatable(
    j: Journal,
    from: int,
    first: Seq<Seq<u8>>,
    second: Seq<Seq<u8>>,
)
    requires
        first == j.spec_read(from),
        second == j.spec_read(from),
    ensures
        first == second,
{
}

/// Crash recovery: if the store retains the staged image truncated
/// anywhere inside the frame of the record at position index `cut` — every
/// earlier frame complete, that frame torn — then a scan of the surviving
/// bytes recovers exactly the records before `cut`.  Reopening therefore
/// sets the durable frontier just before the torn record, and the next
/// append reallocates position `cut` rather than skipping it.
pub proof fn lemma_crash_recovery(records: Seq<Seq<u8>>, cut: int, keep: int)
    requires
        forall|i: int| 0 <= i < records.len() ==> (#[trigger] records[i]).len()
            < 0x10000000000000000,
        0 <= cut < records.len(),
        spec_image(records.take(cut)).len() <= keep < spec_image(records.take(cut + 1)).len(),
    ensures
        spec_recover(spec_image(records).take(keep)) == Ok::<Seq<Seq<u8>>, ()>(
            records.take(cut),
        ),
{
    let base = spec_image(records.take(cut));
    let frame = spec_frame(records[cut]);
    lemma_image_decompose(records, cut);
    assert(records.skip(cut).first() == records[cut]);
    assert_seqs_equal!(records.skip(cut).drop_first() == records.skip(cut + 1));
    assert(spec_image(records.skip(cut)) == frame + spec_image(records.skip(cut + 1)));
    assert_seqs_equal!(records.take(cut + 1) == records.take(cut).push(records[cut]));
    lemma_image_push(records.take(cut), records[cut]);
    let delta = keep - base.len();
    assert(0 <= delta < frame.len());
    assert_seqs_equal!(spec_image(records).take(keep) == base + frame.take(delta));
    assert(forall|i: int| 0 <= i < records.take(cut).len()
        ==> (#[trigger] records.take(cut)[i]).len() < 0x10000000000000000);
    lemma_recover_torn(records.take(cut), records[cut], delta);
}

/// Copies a byte vector.
fn copy_bytes(src: &Vec<u8>) -> (out: Vec<u8>)
    ensures
        out@ == src@,
{
    let mut out: Vec<u8> = Vec::new();
    let mut i: usize = 0;
    while i < src.len()
        invariant
            0 <= i <= src@.len(),
            out@ == src@.take(i as int),
        decreases src@.len() - i,
    {
        out.push(src[i]);
        proof {
            assert_seqs_equal!(src@.take(i + 1) == src@.take(i as int).push(src@[i as int]));
        }
        i = i + 1;
    }
    proof {
        assert_seqs_equal!(src@.take(src@.len() as int) == src@);
    }
    out
}

} // verus!
