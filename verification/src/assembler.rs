//! Reassembly of one fragmented message.

use crate::packet::{Fragment, FRAGMENT_DSIZE};
use vstd::prelude::*;

verus! {

/// State of a reassembly after a fragment went in.
#[derive(Debug, Clone, Copy, PartialEq, Eq, Structural)]
pub enum AssemblerStatus {
    Complete,
    Incomplete,
}

/// Why a fragment was refused.
#[derive(Debug, Clone, Copy, PartialEq, Eq, Structural)]
pub enum InsertFragmentError {
    CapacityDoesNotMatch,
    IndexOutOfBounds,
}

/// Why no message was handed out.
#[derive(Debug, Clone, Copy, PartialEq, Eq, Structural)]
pub enum RetrieveError {
    Incomplete,
    UnknownSessionId,
}

/// Number of empty slots among the first `n`.
pub open spec fn missing_in(slots: Seq<Option<Fragment>>, n: int) -> nat
    decreases n,
{
    if n <= 0 {
        0
    } else {
        missing_in(slots, n - 1) + if slots[n - 1] is None {
            1nat
        } else {
            0nat
        }
    }
}

/// Number of empty slots.
pub open spec fn missing(slots: Seq<Option<Fragment>>) -> nat {
    missing_in(slots, slots.len() as int)
}

/// Number of bytes of a fragment that count when it closes a message.
pub open spec fn valid_len(fragment: Fragment) -> int {
    if fragment.length as int <= FRAGMENT_DSIZE {
        fragment.length as int
    } else {
        FRAGMENT_DSIZE as int
    }
}

/// The bytes that a fragment contributes: its whole block, or, when it is
/// the last of the message, the valid part of its block.
pub open spec fn block(fragment: Fragment, last: bool) -> Seq<u8> {
    if last {
        fragment.data@.take(valid_len(fragment))
    } else {
        fragment.data@
    }
}

/// The bytes of the first `n` slots, in order. Empty slots contribute
/// nothing.
pub open spec fn joined(slots: Seq<Option<Fragment>>, n: int) -> Seq<u8>
    decreases n,
{
    if n <= 0 {
        Seq::empty()
    } else {
        match slots[n - 1] {
            Some(fragment) => joined(slots, n - 1) + block(fragment, n == slots.len()),
            None => joined(slots, n - 1),
        }
    }
}

/// The message that full slots spell.
pub open spec fn payload(slots: Seq<Option<Fragment>>) -> Seq<u8> {
    joined(slots, slots.len() as int)
}

/// Filling an empty slot takes one from the count of empty slots; filling a
/// slot again does not change the count.
pub proof fn lemma_missing_update(slots: Seq<Option<Fragment>>, index: int, fragment: Fragment, n: int)
    requires
        0 <= index < slots.len(),
        0 <= n <= slots.len(),
    ensures
        missing_in(slots.update(index, Some(fragment)), n) + (if index < n && slots[index] is None {
            1nat
        } else {
            0nat
        }) == missing_in(slots, n),
    decreases n,
{
    if n > 0 {
        lemma_missing_update(slots, index, fragment, n - 1);
    }
}

/// A fragment for a slot that is already filled leaves the count of empty
/// slots as it is.
pub proof fn lemma_refill_keeps_missing(slots: Seq<Option<Fragment>>, index: int, fragment: Fragment)
    requires
        0 <= index < slots.len(),
        slots[index] is Some,
    ensures
        missing(slots.update(index, Some(fragment))) == missing(slots),
{
    lemma_missing_update(slots, index, fragment, slots.len() as int);
}

/// No slot is empty exactly when the count of empty slots is zero.
pub proof fn lemma_missing_zero(slots: Seq<Option<Fragment>>, n: int)
    requires
        0 <= n <= slots.len(),
    ensures
        missing_in(slots, n) <= n,
        missing_in(slots, n) == 0 <==> forall|i: int| 0 <= i < n ==> slots[i] is Some,
    decreases n,
{
    if n > 0 {
        lemma_missing_zero(slots, n - 1);
    }
}

/// Full slots spell whole blocks but for the last one, which ends at its
/// valid length.
pub proof fn lemma_joined_len(slots: Seq<Option<Fragment>>, n: int)
    requires
        0 <= n <= slots.len(),
        forall|i: int| 0 <= i < n ==> slots[i] is Some,
    ensures
        n < slots.len() ==> joined(slots, n).len() == n * FRAGMENT_DSIZE,
        n == slots.len() && n > 0 ==> joined(slots, n).len() == (n - 1) * FRAGMENT_DSIZE + valid_len(
            slots[n - 1]->0,
        ),
        n == 0 ==> joined(slots, n).len() == 0,
    decreases n,
{
    if n > 0 {
        lemma_joined_len(slots, n - 1);
    }
}

/// The slots of one message being put together.
pub struct Assembler {
    data: Vec<Option<Fragment>>,
    fragments_left: usize,
}

impl View for Assembler {
    type V = Seq<Option<Fragment>>;

    closed spec fn view(&self) -> Seq<Option<Fragment>> {
        self.data@
    }
}

impl Assembler {
    /// The counter of empty slots is right.
    pub closed spec fn wf(&self) -> bool {
        self.fragments_left == missing(self.data@)
    }

    /// The counter of empty slots.
    pub closed spec fn remaining(&self) -> nat {
        self.fragments_left as nat
    }

    /// In a well-formed assembler the counter is the number of empty slots.
    pub proof fn lemma_remaining(&self)
        requires
            self.wf(),
        ensures
            self.remaining() == missing(self@),
    {
    }

    /// `total_fragments` empty slots.
    pub fn new(total_fragments: u64) -> (assembler: Assembler)
        ensures
            assembler.wf(),
            assembler@ == Seq::new(total_fragments as nat, |i: int| None::<Fragment>),
    {
        let mut data: Vec<Option<Fragment>> = Vec::new();
        let mut i: u64 = 0;
        while i < total_fragments
            invariant
                i <= total_fragments,
                data@.len() == i,
                forall|k: int| 0 <= k < i ==> data@[k] is None,
                missing_in(data@, i as int) == i,
            decreases total_fragments - i,
        {
            let ghost before = data@;
            data.push(None);
            proof {
                lemma_missing_prefix(before, data@, i as int);
            }
            i += 1;
        }
        let fragments_left = data.len();
        Assembler { data, fragments_left }
    }

    /// Number of slots.
    pub fn capacity(&self) -> (n: usize)
        ensures
            n == self@.len(),
    {
        self.data.len()
    }

    /// Number of slots still empty.
    pub fn fragments_left(&self) -> (n: usize)
        requires
            self.wf(),
        ensures
            n == missing(self@),
    {
        self.fragments_left
    }

    /// Whether the slot at `index` is filled.
    pub fn has_fragment(&self, index: usize) -> (filled: bool)
        ensures
            filled == (index < self@.len() && self@[index as int] is Some),
    {
        index < self.data.len() && self.data[index].is_some()
    }

    /// Whether every slot is filled.
    pub fn is_complete(&self) -> (complete: bool)
        requires
            self.wf(),
        ensures
            complete == (missing(self@) == 0),
            complete == (forall|i: int| 0 <= i < self@.len() ==> self@[i] is Some),
    {
        proof {
            lemma_missing_zero(self.data@, self.data@.len() as int);
        }
        self.fragments_left == 0
    }

    /// Stores a fragment in the slot that its index names. A fragment that
    /// announces another total than the number of slots is refused, then one
    /// whose index is past the last slot; nothing changes in either case. A
    /// fragment for a slot already filled replaces what was there.
    pub fn insert_fragment(&mut self, fragment: Fragment) -> (result: Result<
        AssemblerStatus,
        InsertFragmentError,
    >)
        requires
            old(self).wf(),
        ensures
            final(self).wf(),
            fragment.total_n_fragments != old(self)@.len() ==> result == Err::<
                AssemblerStatus,
                InsertFragmentError,
            >(InsertFragmentError::CapacityDoesNotMatch) && final(self)@ == old(self)@,
            fragment.total_n_fragments == old(self)@.len() && fragment.fragment_index >= old(
                self,
            )@.len() ==> result == Err::<AssemblerStatus, InsertFragmentError>(
                InsertFragmentError::IndexOutOfBounds,
            ) && final(self)@ == old(self)@,
            fragment.total_n_fragments == old(self)@.len() && fragment.fragment_index < old(
                self,
            )@.len() ==> {
                &&& final(self)@ == old(self)@.update(fragment.fragment_index as int, Some(fragment))
                &&& result == Ok::<AssemblerStatus, InsertFragmentError>(
                    if missing(final(self)@) == 0 {
                        AssemblerStatus::Complete
                    } else {
                        AssemblerStatus::Incomplete
                    },
                )
            },
    {
        if fragment.total_n_fragments != self.data.len() as u64 {
            return Err(InsertFragmentError::CapacityDoesNotMatch);
        }
        if fragment.fragment_index >= self.data.len() as u64 {
            return Err(InsertFragmentError::IndexOutOfBounds);
        }
        let index = fragment.fragment_index as usize;
        proof {
            lemma_missing_update(self.data@, index as int, fragment, self.data@.len() as int);
        }
        if self.data[index].is_none() {
            self.fragments_left -= 1;
        }
        self.data[index] = Some(fragment);

        if self.is_complete() {
            Ok(AssemblerStatus::Complete)
        } else {
            Ok(AssemblerStatus::Incomplete)
        }
    }

    /// The message, once every slot is filled: the blocks in order, the last
    /// one cut at its valid length.
    pub fn retrieve_assembled(self) -> (result: Result<Vec<u8>, RetrieveError>)
        requires
            self.wf(),
        ensures
            missing(self@) == 0 ==> result is Ok && result->Ok_0@ == payload(self@),
            missing(self@) != 0 ==> result == Err::<Vec<u8>, RetrieveError>(RetrieveError::Incomplete),
    {
        proof {
            lemma_missing_zero(self.data@, self.data@.len() as int);
        }
        let mut assembled: Vec<u8> = Vec::new();
        let total = self.data.len();
        let mut i: usize = 0;
        while i < total
            invariant
                i <= total,
                total == self.data@.len(),
                forall|k: int| 0 <= k < i ==> self.data@[k] is Some,
                missing(self.data@) == 0 <==> forall|k: int|
                    0 <= k < self.data@.len() ==> self.data@[k] is Some,
                assembled@ == joined(self.data@, i as int),
            decreases total - i,
        {
            match &self.data[i] {
                Some(fragment) => {
                    let keep: usize = if i + 1 == total {
                        if fragment.length as usize <= FRAGMENT_DSIZE {
                            fragment.length as usize
                        } else {
                            FRAGMENT_DSIZE
                        }
                    } else {
                        FRAGMENT_DSIZE
                    };
                    let ghost before = assembled@;
                    let mut j: usize = 0;
                    while j < keep
                        invariant
                            j <= keep <= FRAGMENT_DSIZE,
                            assembled@ == before + fragment.data@.take(j as int),
                        decreases keep - j,
                    {
                        assembled.push(fragment.data[j]);
                        j += 1;
                    }
                },
                None => {
                    return Err(RetrieveError::Incomplete);
                },
            }
            i += 1;
        }
        Ok(assembled)
    }
}

/// Appending a slot does not change the count over the slots before it.
proof fn lemma_missing_prefix(short: Seq<Option<Fragment>>, long: Seq<Option<Fragment>>, n: int)
    requires
        0 <= n <= short.len() <= long.len(),
        forall|i: int| 0 <= i < short.len() ==> short[i] == long[i],
    ensures
        missing_in(long, n) == missing_in(short, n),
    decreases n,
{
    if n > 0 {
        lemma_missing_prefix(short, long, n - 1);
    }
}

} // verus!
