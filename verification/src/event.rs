//! Structured events: a type identifier and an ordered list of typed fields,
//! recorded per emitting contract in emission order.

use vstd::prelude::*;
use crate::addr::Address;
use crate::word::U256;

verus! {

/// One typed field of an event.
#[derive(Clone, Copy, PartialEq, Eq, Structural, Debug)]
pub enum Field {
    Addr(Address),
    Word(U256),
}

/// A structured event: a type identifier and its ordered fields.
#[derive(Clone, Debug)]
pub struct Event {
    pub topic: u64,
    pub fields: Vec<Field>,
}

/// One entry of the event log: the emitting contract and its event.
#[derive(Clone, Debug)]
pub struct EventRecord {
    pub emitter: Address,
    pub ev: Event,
}

/// The mathematical value of one log entry.
#[verifier::ext_equal]
pub struct EventView {
    pub emitter: Address,
    pub topic: u64,
    pub fields: Seq<Field>,
}

/// The mathematical value of one log entry.
pub open spec fn record_view(r: EventRecord) -> EventView {
    EventView { emitter: r.emitter, topic: r.ev.topic, fields: r.ev.fields@ }
}

/// The mathematical value of the whole log, in emission order.
pub open spec fn log_view(log: Seq<EventRecord>) -> Seq<EventView> {
    Seq::new(log.len(), |i: int| record_view(log[i]))
}

/// Whether an event with the given emitter, identifier and fields stands
/// somewhere in the log.
pub open spec fn emitted_in(v: Seq<EventView>, e: EventView) -> bool {
    exists|i: int| 0 <= i < v.len() && v[i] == e
}

impl Event {
    /// Structural equality: same type identifier and equal field lists.
    pub fn matches(&self, other: &Event) -> (r: bool)
        ensures
            r <==> (self.topic == other.topic && self.fields@ == other.fields@),
    {
        if self.topic != other.topic {
            return false;
        }
        if self.fields.len() != other.fields.len() {
            proof {
                assert(self.fields@ != other.fields@);
            }
            return false;
        }
        let n = self.fields.len();
        let mut i: usize = 0;
        while i < n
            invariant
                i <= n,
                n == self.fields@.len() == other.fields@.len(),
                forall|j: int| 0 <= j < i ==> self.fields@[j] == other.fields@[j],
            decreases n - i,
        {
            if self.fields[i] != other.fields[i] {
                proof {
                    assert(self.fields@[i as int] != other.fields@[i as int]);
                }
                return false;
            }
            i = i + 1;
        }
        proof {
            assert(self.fields@ =~= other.fields@);
        }
        true
    }
}

/// A log is a prefix of itself.
pub proof fn lemma_log_prefix_refl(v: Seq<EventView>)
    ensures
        v.is_prefix_of(v),
{
    assert(v =~= v.subrange(0, v.len() as int));
}

/// Appending one entry keeps the old log a prefix.
pub proof fn lemma_log_prefix_push(v: Seq<EventView>, e: EventView)
    ensures
        v.is_prefix_of(v.push(e)),
{
    assert(v =~= v.push(e).subrange(0, v.len() as int));
}

} // verus!
