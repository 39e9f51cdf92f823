//! Messages as the engine sees them, and the mailbox reader's ordering:
//! which candidates are new relative to a checkpoint, oldest first.
use vstd::prelude::*;
use crate::checkpoint::{Marker, marker_lt, is_after, after_checkpoint};

verus! {

/// A mailbox message; read-only to the engine.
#[derive(Clone, Debug)]
pub struct Message {
    pub id: u64,
    pub timestamp: u64,
    pub sender: String,
    pub subject: String,
    pub body: String,
}

/// The message's position in the mailbox order.
pub open spec fn key(m: Message) -> Marker {
    Marker { timestamp: m.timestamp, id: m.id }
}

/// Each message comes strictly after the one before it.
pub open spec fn strictly_ascending(s: Seq<Message>) -> bool {
    forall|i: int, j: int| 0 <= i < j < s.len() ==> marker_lt(key(s[i]), key(s[j]))
}

/// No two messages share a (timestamp, identifier) pair.
pub open spec fn keys_distinct(s: Seq<Message>) -> bool {
    forall|i: int, j: int| 0 <= i < j < s.len() ==> key(s[i]) != key(s[j])
}

impl Message {
    pub fn new(id: u64, timestamp: u64, sender: String, subject: String, body: String) -> (r:
        Message)
        ensures
            r.id == id,
            r.timestamp == timestamp,
            r.sender@ == sender@,
            r.subject@ == subject@,
            r.body@ == body@,
    {
        Message { id, timestamp, sender, subject, body }
    }

    /// The marker that the checkpoint takes once this message is delivered.
    pub fn marker(&self) -> (r: Marker)
        ensures
            r == key(*self),
    {
        Marker { timestamp: self.timestamp, id: self.id }
    }
}

/// The mailbox reader's selection: of `candidates` (in any order), those
/// strictly after `since`, ascending by timestamp and then by identifier.
/// Candidates that repeat a marker already taken appear once.
pub fn fetch_since(candidates: Vec<Message>, since: &Option<Marker>) -> (r: Vec<Message>)
    ensures
        strictly_ascending(r@),
        forall|i: int|
            0 <= i < r@.len() ==> is_after(key(#[trigger] r@[i]), *since) && candidates@.contains(
                r@[i],
            ),
        forall|j: int|
            0 <= j < candidates@.len() && is_after(key(#[trigger] candidates@[j]), *since)
                ==> exists|i: int| 0 <= i < r@.len() && key(#[trigger] r@[i]) == key(candidates@[j]),
        keys_distinct(candidates@) ==> forall|j: int|
            0 <= j < candidates@.len() && is_after(key(#[trigger] candidates@[j]), *since)
                ==> r@.contains(candidates@[j]),
{
    let ghost orig = candidates@;
    let mut rest = candidates;
    let mut out: Vec<Message> = Vec::new();
    while rest.len() > 0
        invariant
            rest@ == orig.subrange(0, rest@.len() as int),
            rest@.len() <= orig.len(),
            strictly_ascending(out@),
            forall|i: int|
                0 <= i < out@.len() ==> is_after(key(#[trigger] out@[i]), *since) && orig.contains(
                    out@[i],
                ),
            forall|j: int|
                rest@.len() <= j < orig.len() && is_after(key(#[trigger] orig[j]), *since)
                    ==> exists|i: int| 0 <= i < out@.len() && key(#[trigger] out@[i]) == key(orig[j]),
        decreases rest@.len(),
    {
        let ghost n = rest@.len() - 1;
        let m = rest.pop().unwrap();
        assert(m == orig[n]);
        let mk = m.marker();
        if after_checkpoint(&mk, since) {
            let mut p: usize = 0;
            while p < out.len() && out[p].marker().precedes(&mk)
                invariant
                    p <= out@.len(),
                    forall|q: int| 0 <= q < p ==> marker_lt(key(#[trigger] out@[q]), mk),
                decreases out@.len() - p,
            {
                p = p + 1;
            }
            if p < out.len() && out[p].timestamp == mk.timestamp && out[p].id == mk.id {
                assert(key(out@[p as int]) == key(orig[n]));
            } else {
                let ghost before = out@;
                proof {
                    before.insert_ensures(p as int, m);
                }
                out.insert(p, m);
                assert(out@[p as int] == orig[n]);
                assert forall|i: int, j: int| 0 <= i < j < out@.len() implies marker_lt(
                    key(out@[i]),
                    key(out@[j]),
                ) by {
                    if j < p {
                        assert(out@[j] == before[j]);
                        assert(out@[i] == before[i]);
                    } else if j == p {
                        assert(out@[i] == before[i]);
                        assert(marker_lt(key(before[i]), mk));
                    } else if i < p {
                        assert(out@[j] == before[j - 1]);
                        assert(out@[i] == before[i]);
                        assert(marker_lt(key(before[i]), mk));
                        assert(marker_lt(mk, key(before[p as int])));
                        if j - 1 > p {
                            assert(marker_lt(key(before[p as int]), key(before[j - 1])));
                        }
                    } else if i == p {
                        assert(out@[j] == before[j - 1]);
                        assert(marker_lt(mk, key(before[p as int])));
                        if j - 1 > p {
                            assert(marker_lt(key(before[p as int]), key(before[j - 1])));
                        }
                    } else {
                        assert(out@[j] == before[j - 1]);
                        assert(out@[i] == before[i - 1]);
                    }
                }
                assert forall|i: int|
                    0 <= i < out@.len() implies is_after(key(#[trigger] out@[i]), *since)
                    && orig.contains(out@[i]) by {
                    if i < p {
                    } else if i == p {
                        assert(orig[n] == out@[i]);
                    } else {
                        assert(out@[i] == before[i - 1]);
                    }
                }
                assert forall|j: int|
                    rest@.len() <= j < orig.len() && is_after(key(#[trigger] orig[j]), *since)
                        implies exists|i: int|
                        0 <= i < out@.len() && key(#[trigger] out@[i]) == key(orig[j]) by {
                    if j == n {
                        assert(key(out@[p as int]) == key(orig[j]));
                    } else {
                        let i0 = choose|i: int|
                            0 <= i < before.len() && key(#[trigger] before[i]) == key(orig[j]);
                        if i0 < p {
                            assert(key(out@[i0]) == key(orig[j]));
                        } else {
                            assert(key(out@[i0 + 1]) == key(orig[j]));
                        }
                    }
                }
            }
        }
    }
    proof {
        assert forall|j: int|
            0 <= j < orig.len() && is_after(key(#[trigger] orig[j]), *since) && keys_distinct(orig)
                implies out@.contains(orig[j]) by {
            let i = choose|i: int| 0 <= i < out@.len() && key(#[trigger] out@[i]) == key(orig[j]);
            let k = choose|k: int| 0 <= k < orig.len() && orig[k] == out@[i];
            if k != j {
                if k < j {
                    assert(key(orig[k]) != key(orig[j]));
                } else {
                    assert(key(orig[j]) != key(orig[k]));
                }
            }
        }
    }
    out
}

} // verus!
