//! Splitting of an outgoing message into fragments.

use crate::assembler::{joined, lemma_missing_zero, missing, payload};
use crate::assemblers_manager::slots_after;
use crate::fragment_manager::ToBeSentFragment;
use crate::packet::{Fragment, NodeId, SessionId, FRAGMENT_DSIZE};
use crate::specialized_behavior::AssembledResponse;
use vstd::prelude::*;

verus! {

/// Number of fragments that a message of `len` bytes takes.
pub open spec fn fragment_count(len: int) -> int {
    (len + FRAGMENT_DSIZE - 1) / (FRAGMENT_DSIZE as int)
}

/// Number of message bytes in fragment `index` of a message of `len` bytes.
pub open spec fn piece_len(len: int, index: int) -> int {
    if len - index * FRAGMENT_DSIZE < FRAGMENT_DSIZE {
        len - index * FRAGMENT_DSIZE
    } else {
        FRAGMENT_DSIZE as int
    }
}

/// Whether `fragment` is fragment number `index` of `message`: it carries its
/// index, the count of fragments, the number of message bytes in it, and
/// those bytes followed by zeros.
pub open spec fn is_piece(fragment: Fragment, message: Seq<u8>, index: int) -> bool {
    &&& fragment.fragment_index == index
    &&& fragment.total_n_fragments == fragment_count(message.len() as int)
    &&& fragment.length == piece_len(message.len() as int, index)
    &&& forall|j: int|
        0 <= j < FRAGMENT_DSIZE ==> #[trigger] fragment.data@[j] == if index * FRAGMENT_DSIZE + j
            < message.len() {
            message[index * FRAGMENT_DSIZE + j]
        } else {
            0u8
        }
}

/// Whether `records` is `message` cut into fragments for `dest` under
/// `session_id`: one record for each fragment, in index order.
pub open spec fn is_fragmentation(
    records: Seq<ToBeSentFragment>,
    message: Seq<u8>,
    dest: NodeId,
    session_id: SessionId,
) -> bool {
    &&& records.len() == fragment_count(message.len() as int)
    &&& forall|i: int|
        0 <= i < records.len() ==> {
            &&& (#[trigger] records[i]).dest == dest
            &&& records[i].session_id == session_id
            &&& is_piece(records[i].fragment, message, i)
        }
}

/// The session counter after a message was cut: an empty message takes no
/// session id.
pub open spec fn next_session(session_id: SessionId, message: Seq<u8>) -> int {
    if message.len() == 0 {
        session_id as int
    } else {
        session_id + 1
    }
}

/// Cuts messages into fragments and numbers the sessions from one.
pub struct Fragmenter {
    session_id: SessionId,
}

impl View for Fragmenter {
    type V = SessionId;

    /// The session id that the next message will get.
    closed spec fn view(&self) -> SessionId {
        self.session_id
    }
}

impl Fragmenter {
    /// A fragmenter whose first session is number one.
    pub fn new() -> (fragmenter: Fragmenter)
        ensures
            fragmenter@ == 1,
    {
        Self { session_id: 1 }
    }

    /// The session id that the next message will get.
    pub fn session_id(&self) -> (id: SessionId)
        ensures
            id == self@,
    {
        self.session_id
    }

    /// Cuts a response into fragments of [`FRAGMENT_DSIZE`] bytes, the last
    /// one padded with zeros, all under the current session id, and moves to
    /// the next session id. An empty response gives no fragment and keeps
    /// the session id.
    pub fn to_fragment_vec(&mut self, assembled_response: AssembledResponse) -> (fragments: Vec<
        ToBeSentFragment,
    >)
        requires
            assembled_response.data@.len() > 0 ==> old(self)@ < u64::MAX,
        ensures
            is_fragmentation(
                fragments@,
                assembled_response.data@,
                assembled_response.dest,
                old(self)@,
            ),
            final(self)@ == next_session(old(self)@, assembled_response.data@),
    {
        let data = assembled_response.data;
        let dest = assembled_response.dest;
        let len = data.len();

        let total_fragments: usize = if len % FRAGMENT_DSIZE == 0 {
            len / FRAGMENT_DSIZE
        } else {
            len / FRAGMENT_DSIZE + 1
        };

        let mut fragments: Vec<ToBeSentFragment> = Vec::new();
        let mut i: usize = 0;
        while i < total_fragments
            invariant
                i <= total_fragments,
                len == data@.len(),
                total_fragments == fragment_count(len as int),
                fragments@.len() == i,
                forall|k: int|
                    0 <= k < i ==> {
                        &&& (#[trigger] fragments@[k]).dest == dest
                        &&& fragments@[k].session_id == self.session_id
                        &&& is_piece(fragments@[k].fragment, data@, k)
                    },
                self.session_id == old(self).session_id,
            decreases total_fragments - i,
        {
            let start = i * FRAGMENT_DSIZE;
            let count: usize = if len - start < FRAGMENT_DSIZE {
                len - start
            } else {
                FRAGMENT_DSIZE
            };

            let mut fragment_data = [0u8; 128];
            let mut j: usize = 0;
            while j < count
                invariant
                    j <= count <= FRAGMENT_DSIZE,
                    start + count <= len,
                    len == data@.len(),
                    forall|k: int| 0 <= k < j ==> #[trigger] fragment_data@[k] == data@[start + k],
                    forall|k: int| j <= k < FRAGMENT_DSIZE ==> #[trigger] fragment_data@[k] == 0u8,
                decreases count - j,
            {
                fragment_data[j] = data[start + j];
                j += 1;
            }

            let fragment = Fragment {
                fragment_index: i as u64,
                total_n_fragments: total_fragments as u64,
                length: count as u8,
                data: fragment_data,
            };
            fragments.push(ToBeSentFragment { dest, session_id: self.session_id, fragment });
            i += 1;
        }

        if total_fragments > 0 {
            self.session_id += 1;
        }
        fragments
    }
}

/// The bytes of the first `n` pieces of a message are its first bytes.
proof fn lemma_joined_pieces(slots: Seq<Option<Fragment>>, message: Seq<u8>, n: int)
    requires
        slots.len() == fragment_count(message.len() as int),
        0 <= n <= slots.len(),
        forall|i: int|
            0 <= i < slots.len() ==> (#[trigger] slots[i]) is Some && is_piece(
                slots[i]->0,
                message,
                i,
            ),
    ensures
        n < slots.len() ==> joined(slots, n) == message.take(n * FRAGMENT_DSIZE),
        n == slots.len() ==> joined(slots, n) == message,
    decreases n,
{
    if n > 0 {
        lemma_joined_pieces(slots, message, n - 1);
        assert(is_piece(slots[n - 1]->0, message, n - 1));
    }
}

/// Cutting a message and joining the pieces gives the message back: slots
/// that hold the fragments of a message, each at its index, spell that
/// message. This holds for the empty message too, which has no fragment.
pub proof fn lemma_round_trip(
    records: Seq<ToBeSentFragment>,
    message: Seq<u8>,
    dest: NodeId,
    session_id: SessionId,
    slots: Seq<Option<Fragment>>,
)
    requires
        is_fragmentation(records, message, dest, session_id),
        slots.len() == records.len(),
        forall|i: int| 0 <= i < slots.len() ==> #[trigger] slots[i] == Some(records[i].fragment),
    ensures
        payload(slots) == message,
{
    lemma_joined_pieces(slots, message, slots.len() as int);
}

/// Of two messages cut one after the other, the second gets the session id
/// after the first's, unless the first was empty and took none.
pub proof fn lemma_successive_sessions(
    before: SessionId,
    first: Seq<u8>,
    first_records: Seq<ToBeSentFragment>,
    second: Seq<u8>,
    second_records: Seq<ToBeSentFragment>,
    dest1: NodeId,
    dest2: NodeId,
)
    requires
        before < u64::MAX,
        first.len() > 0,
        is_fragmentation(first_records, first, dest1, before),
        is_fragmentation(second_records, second, dest2, next_session(before, first) as u64),
    ensures
        forall|i: int, j: int|
            0 <= i < first_records.len() && 0 <= j < second_records.len()
                ==> #[trigger] second_records[j].session_id == (#[trigger] first_records[i]).session_id + 1,
{
}

/// The slots after a run of fragments arrived, in order.
pub open spec fn after_arrivals(slots: Seq<Option<Fragment>>, arrivals: Seq<Fragment>) -> Seq<
    Option<Fragment>,
>
    decreases arrivals.len(),
{
    if arrivals.len() == 0 {
        slots
    } else {
        slots_after(after_arrivals(slots, arrivals.drop_last()), arrivals.last())
    }
}

/// Whether `fragment` is one of the fragments of `records`.
pub open spec fn is_one_of(fragment: Fragment, records: Seq<ToBeSentFragment>) -> bool {
    exists|i: int| 0 <= i < records.len() && records[i].fragment == fragment
}

/// Whether `fragment` is among the first `n` of `arrivals`.
pub open spec fn has_arrived(fragment: Fragment, arrivals: Seq<Fragment>, n: int) -> bool {
    exists|k: int| 0 <= k < n && k < arrivals.len() && arrivals[k] == fragment
}

proof fn lemma_arrivals(
    records: Seq<ToBeSentFragment>,
    message: Seq<u8>,
    dest: NodeId,
    session_id: SessionId,
    arrivals: Seq<Fragment>,
)
    requires
        is_fragmentation(records, message, dest, session_id),
        forall|k: int| 0 <= k < arrivals.len() ==> is_one_of(#[trigger] arrivals[k], records),
    ensures
        ({
            let slots = after_arrivals(
                Seq::new(records.len(), |i: int| None::<Fragment>),
                arrivals,
            );
            &&& slots.len() == records.len()
            &&& forall|i: int|
                0 <= i < records.len() ==> #[trigger] slots[i] == if has_arrived(
                    records[i].fragment,
                    arrivals,
                    arrivals.len() as int,
                ) {
                    Some(records[i].fragment)
                } else {
                    None::<Fragment>
                }
        }),
    decreases arrivals.len(),
{
    let empty = Seq::new(records.len(), |i: int| None::<Fragment>);
    if arrivals.len() > 0 {
        let earlier = arrivals.drop_last();
        let last = arrivals.last();
        lemma_arrivals(records, message, dest, session_id, earlier);
        let slots = after_arrivals(empty, arrivals);
        let at = choose|i: int| 0 <= i < records.len() && records[i].fragment == last;
        assert forall|i: int| 0 <= i < records.len() implies #[trigger] slots[i] == if has_arrived(
            records[i].fragment,
            arrivals,
            arrivals.len() as int,
        ) {
            Some(records[i].fragment)
        } else {
            None::<Fragment>
        } by {
            let wanted = records[i].fragment;
            if has_arrived(wanted, earlier, earlier.len() as int) {
                let k = choose|k: int| 0 <= k < earlier.len() && earlier[k] == wanted;
                assert(arrivals[k] == wanted);
            }
            if i != at && has_arrived(wanted, arrivals, arrivals.len() as int) {
                let k = choose|k: int| 0 <= k < arrivals.len() && arrivals[k] == wanted;
                assert(earlier[k] == wanted);
            }
        }
    }
}

/// Reassembly gives the message back whatever the order of arrival: when
/// only fragments of a message arrive at empty slots, in any order and any
/// number of times, and each of them arrives at least once, the slots end
/// up full and spell the message.
pub proof fn lemma_round_trip_any_order(
    records: Seq<ToBeSentFragment>,
    message: Seq<u8>,
    dest: NodeId,
    session_id: SessionId,
    arrivals: Seq<Fragment>,
)
    requires
        is_fragmentation(records, message, dest, session_id),
        forall|k: int| 0 <= k < arrivals.len() ==> is_one_of(#[trigger] arrivals[k], records),
        forall|i: int|
            0 <= i < records.len() ==> has_arrived(
                (#[trigger] records[i]).fragment,
                arrivals,
                arrivals.len() as int,
            ),
    ensures
        missing(after_arrivals(Seq::new(records.len(), |i: int| None::<Fragment>), arrivals)) == 0,
        payload(after_arrivals(Seq::new(records.len(), |i: int| None::<Fragment>), arrivals))
            == message,
{
    let slots = after_arrivals(Seq::new(records.len(), |i: int| None::<Fragment>), arrivals);
    lemma_arrivals(records, message, dest, session_id, arrivals);
    lemma_round_trip(records, message, dest, session_id, slots);
    lemma_missing_zero(slots, slots.len() as int);
}

} // verus!
