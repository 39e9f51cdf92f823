//! The checkpoint: the (timestamp, identifier) marker of the last message
//! whose delivery succeeded, its byte encoding, and an atomic-replace store.
use vstd::prelude::*;

verus! {

/// Position of a message in the mailbox's total order: arrival timestamp
/// first, identifier as the tie-break.
#[derive(Clone, Copy, Debug, PartialEq, Eq, Structural)]
pub struct Marker {
    pub timestamp: u64,
    pub id: u64,
}

/// `a` comes strictly before `b` in the mailbox order.
pub open spec fn marker_lt(a: Marker, b: Marker) -> bool {
    a.timestamp < b.timestamp || (a.timestamp == b.timestamp && a.id < b.id)
}

/// A message at `m` is new relative to the checkpoint `cp` ("none" admits all).
pub open spec fn is_after(m: Marker, cp: Option<Marker>) -> bool {
    match cp {
        None => true,
        Some(c) => marker_lt(c, m),
    }
}

impl Marker {
    pub fn new(timestamp: u64, id: u64) -> (r: Marker)
        ensures
            r.timestamp == timestamp,
            r.id == id,
    {
        Marker { timestamp, id }
    }

    /// Strict mailbox order.
    pub fn precedes(&self, other: &Marker) -> (r: bool)
        ensures
            r == marker_lt(*self, *other),
    {
        self.timestamp < other.timestamp || (self.timestamp == other.timestamp && self.id
            < other.id)
    }
}

/// Whether a message at `m` is strictly after the checkpoint `cp`.
pub fn after_checkpoint(m: &Marker, cp: &Option<Marker>) -> (r: bool)
    ensures
        r == is_after(*m, *cp),
{
    match cp {
        None => true,
        Some(c) => c.precedes(m),
    }
}

/// Number of bytes of an encoded checkpoint that holds a marker.
pub const ENCODED_LEN: usize = 17;

/// Tag byte of an encoded marker.
pub const TAG_MARKER: u8 = 1;

/// Tag byte of an encoded empty checkpoint.
pub const TAG_NONE: u8 = 0;

/// Byte `k` (0 = most significant) of the big-endian form of `x`.
pub open spec fn be_byte(x: u64, k: int) -> u8 {
    ((x >> ((56 - 8 * k) as u64)) & 0xff) as u8
}

/// The eight big-endian bytes of `x`.
pub open spec fn be_bytes(x: u64) -> Seq<u8> {
    seq![
        be_byte(x, 0),
        be_byte(x, 1),
        be_byte(x, 2),
        be_byte(x, 3),
        be_byte(x, 4),
        be_byte(x, 5),
        be_byte(x, 6),
        be_byte(x, 7),
    ]
}

/// The integer whose big-endian bytes are `b[at..at + 8]`.
pub open spec fn be_value(b: Seq<u8>, at: int) -> u64 {
    (b[at] as u64) << 56u64 | (b[at + 1] as u64) << 48u64 | (b[at + 2] as u64) << 40u64 | (b[at
        + 3] as u64) << 32u64 | (b[at + 4] as u64) << 24u64 | (b[at + 5] as u64) << 16u64 | (b[at
        + 6] as u64) << 8u64 | (b[at + 7] as u64)
}

/// The stored form of a checkpoint: one tag byte, then for a marker its
/// timestamp and identifier as big-endian 64-bit integers.
pub open spec fn encoding(cp: Option<Marker>) -> Seq<u8> {
    match cp {
        None => seq![TAG_NONE],
        Some(m) => seq![TAG_MARKER] + be_bytes(m.timestamp) + be_bytes(m.id),
    }
}

/// What reading stored bytes yields: a well-formed marker record gives the
/// marker; anything else (missing, torn or corrupt) gives "none".
pub open spec fn decoding(b: Seq<u8>) -> Option<Marker> {
    if b.len() == ENCODED_LEN && b[0] == TAG_MARKER {
        Some(Marker { timestamp: be_value(b, 1), id: be_value(b, 9) })
    } else {
        None
    }
}

proof fn lemma_be_round_trip(x: u64)
    ensures
        be_value(seq![0u8] + be_bytes(x), 1) == x,
{
    let s = seq![0u8] + be_bytes(x);
    assert(s[1] == be_byte(x, 0) && s[2] == be_byte(x, 1) && s[3] == be_byte(x, 2) && s[4]
        == be_byte(x, 3) && s[5] == be_byte(x, 4) && s[6] == be_byte(x, 5) && s[7] == be_byte(
        x,
        6,
    ) && s[8] == be_byte(x, 7));
    assert(((((x >> 56u64) & 0xff) as u8) as u64) << 56u64 | ((((x >> 48u64) & 0xff) as u8)
        as u64) << 48u64 | ((((x >> 40u64) & 0xff) as u8) as u64) << 40u64 | ((((x >> 32u64)
        & 0xff) as u8) as u64) << 32u64 | ((((x >> 24u64) & 0xff) as u8) as u64) << 24u64 | ((((x
        >> 16u64) & 0xff) as u8) as u64) << 16u64 | ((((x >> 8u64) & 0xff) as u8) as u64)
        << 8u64 | ((((x >> 0u64) & 0xff) as u8) as u64) == x) by (bit_vector);
}

/// Decoding the stored form of any checkpoint gives it back.
pub proof fn lemma_decode_encode(cp: Option<Marker>)
    ensures
        decoding(encoding(cp)) == cp,
{
    match cp {
        None => {},
        Some(m) => {
            let e = encoding(cp);
            lemma_be_round_trip(m.timestamp);
            lemma_be_round_trip(m.id);
            let a = seq![0u8] + be_bytes(m.timestamp);
            let b = seq![0u8] + be_bytes(m.id);
            assert(e.len() == 17);
            assert forall|k: int| 1 <= k < 9 implies e[k] == a[k] by {}
            assert forall|k: int| 9 <= k < 17 implies e[k] == b[k - 8] by {}
        },
    }
}


fn push_be(out: &mut Vec<u8>, x: u64)
    ensures
        final(out)@ == old(out)@ + be_bytes(x),
{
    let ghost start = out@;
    out.push(((x >> 56u64) & 0xff) as u8);
    out.push(((x >> 48u64) & 0xff) as u8);
    out.push(((x >> 40u64) & 0xff) as u8);
    out.push(((x >> 32u64) & 0xff) as u8);
    out.push(((x >> 24u64) & 0xff) as u8);
    out.push(((x >> 16u64) & 0xff) as u8);
    out.push(((x >> 8u64) & 0xff) as u8);
    out.push((x & 0xff) as u8);
    assert(x >> 0u64 == x) by (bit_vector);
    assert(out@ =~= start + be_bytes(x));
}

fn read_be(b: &[u8], at: usize) -> (r: u64)
    requires
        at + 8 <= b@.len(),
    ensures
        r == be_value(b@, at as int),
{
    (b[at] as u64) << 56u64 | (b[at + 1] as u64) << 48u64 | (b[at + 2] as u64) << 40u64 | (b[at
        + 3] as u64) << 32u64 | (b[at + 4] as u64) << 24u64 | (b[at + 5] as u64) << 16u64 | (b[at
        + 6] as u64) << 8u64 | (b[at + 7] as u64)
}

/// The bytes to persist for a checkpoint.
pub fn encode(cp: &Option<Marker>) -> (r: Vec<u8>)
    ensures
        r@ == encoding(*cp),
{
    let mut out: Vec<u8> = Vec::new();
    match cp {
        None => {
            out.push(TAG_NONE);
            assert(out@ =~= encoding(*cp));
        },
        Some(m) => {
            out.push(TAG_MARKER);
            push_be(&mut out, m.timestamp);
            push_be(&mut out, m.id);
            assert(out@ =~= encoding(*cp));
        },
    }
    out
}

/// Reads persisted bytes back; a missing or corrupt record reads as "none".
pub fn decode(b: &[u8]) -> (r: Option<Marker>)
    ensures
        r == decoding(b@),
{
    if b.len() == ENCODED_LEN && b[0] == TAG_MARKER {
        Some(Marker { timestamp: read_be(b, 1), id: read_be(b, 9) })
    } else {
        None
    }
}

/// A single durable value with atomic-replace semantics: a save first
/// stages the new bytes, then replaces the committed bytes in one step.
/// A crash drops whatever was staged, so the committed bytes are always
/// a whole record written by some completed save.
pub struct CheckpointStore {
    pub committed: Vec<u8>,
    pub staged: Option<Vec<u8>>,
}

/// The abstract state of a store: committed bytes and staged bytes.
pub struct StoreModel {
    pub committed: Seq<u8>,
    pub staged: Option<Seq<u8>>,
}

pub open spec fn model_load(s: StoreModel) -> Option<Marker> {
    decoding(s.committed)
}

pub open spec fn model_stage(s: StoreModel, cp: Option<Marker>) -> StoreModel {
    StoreModel { committed: s.committed, staged: Some(encoding(cp)) }
}

pub open spec fn model_commit(s: StoreModel) -> StoreModel {
    match s.staged {
        Some(b) => StoreModel { committed: b, staged: None },
        None => s,
    }
}

pub open spec fn model_crash(s: StoreModel) -> StoreModel {
    StoreModel { committed: s.committed, staged: None }
}

pub open spec fn model_save(s: StoreModel, cp: Option<Marker>) -> StoreModel {
    model_commit(model_stage(s, cp))
}

impl CheckpointStore {
    pub open spec fn model(&self) -> StoreModel {
        StoreModel {
            committed: self.committed@,
            staged: match self.staged {
                Some(b) => Some(b@),
                None => None,
            },
        }
    }

    /// A store holding nothing yet: it loads as "none".
    pub fn new() -> (r: CheckpointStore)
        ensures
            r.model().committed == Seq::<u8>::empty(),
            r.model().staged is None,
            model_load(r.model()) is None,
    {
        CheckpointStore { committed: Vec::new(), staged: None }
    }

    /// A store over bytes read from durable storage.
    pub fn from_bytes(bytes: Vec<u8>) -> (r: CheckpointStore)
        ensures
            r.model().committed == bytes@,
            r.model().staged is None,
    {
        CheckpointStore { committed: bytes, staged: None }
    }

    /// Reads the committed checkpoint.
    pub fn load(&self) -> (r: Option<Marker>)
        ensures
            r == model_load(self.model()),
    {
        decode(self.committed.as_slice())
    }

    /// First half of a save: writes the new record beside the old one.
    pub fn stage(&mut self, cp: &Option<Marker>)
        ensures
            final(self).model() == model_stage(old(self).model(), *cp),
    {
        self.staged = Some(encode(cp));
    }

    /// Second half of a save: the staged record replaces the committed one.
    pub fn commit(&mut self)
        ensures
            final(self).model() == model_commit(old(self).model()),
    {
        let staged = self.staged.take();
        match staged {
            Some(b) => {
                self.committed = b;
            },
            None => {
                self.staged = None;
            },
        }
    }

    /// A crash: whatever was staged is lost, the committed record stays.
    pub fn crash(&mut self)
        ensures
            final(self).model() == model_crash(old(self).model()),
    {
        self.staged = None;
    }

    /// Persists `cp` as the new checkpoint.
    pub fn save(&mut self, cp: &Option<Marker>)
        ensures
            final(self).model() == model_save(old(self).model(), *cp),
            model_load(final(self).model()) == *cp,
    {
        self.stage(cp);
        self.commit();
        proof {
            lemma_decode_encode(*cp);
        }
    }

    /// The committed bytes, to be written to durable storage.
    pub fn bytes(&self) -> (r: &Vec<u8>)
        ensures
            r@ == self.model().committed,
    {
        &self.committed
    }
}

/// Saving a checkpoint and loading it back gives the same checkpoint, from
/// any prior state of the store.
pub proof fn lemma_save_load(s: StoreModel, x: Option<Marker>)
    ensures
        model_load(model_save(s, x)) == x,
{
    lemma_decode_encode(x);
}

/// A crash at any point of a save leaves the store loading either the
/// checkpoint it held before the save or the one being saved, never
/// anything else; with no crash the new one is read.
pub proof fn lemma_crash_during_save(s: StoreModel, x: Option<Marker>, y: Option<Marker>)
    requires
        model_load(s) == x,
    ensures
        model_load(model_crash(s)) == x,
        model_load(model_crash(model_stage(s, y))) == x,
        model_load(model_crash(model_commit(model_stage(s, y)))) == y,
        model_load(model_save(s, y)) == y,
{
    lemma_decode_encode(y);
}

} // verus!
