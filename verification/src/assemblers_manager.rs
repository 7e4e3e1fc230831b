//! The reassemblies in progress, one for each session.

use crate::assembler::{
    missing, payload, Assembler, AssemblerStatus, InsertFragmentError, RetrieveError,
};
use crate::packet::{Fragment, SessionId};
use std::collections::HashMap;
use vstd::prelude::*;

verus! {

broadcast use vstd::std_specs::hash::group_hash_axioms;

/// The slots of a session as they stand when `fragment` arrives: those it
/// has, or as many empty slots as the fragment announces.
pub open spec fn slots_for(
    sessions: Map<SessionId, Seq<Option<Fragment>>>,
    session_id: SessionId,
    fragment: Fragment,
) -> Seq<Option<Fragment>> {
    if sessions.contains_key(session_id) {
        sessions[session_id]
    } else {
        Seq::new(fragment.total_n_fragments as nat, |i: int| None::<Fragment>)
    }
}

/// Whether the slots take `fragment`: it announces as many fragments as
/// there are slots, and its index names one of them.
pub open spec fn fits(slots: Seq<Option<Fragment>>, fragment: Fragment) -> bool {
    fragment.total_n_fragments == slots.len() && fragment.fragment_index < slots.len()
}

/// The slots after `fragment` arrived: filled at its index if it fits, as
/// they were if it does not.
pub open spec fn slots_after(slots: Seq<Option<Fragment>>, fragment: Fragment) -> Seq<
    Option<Fragment>,
> {
    if fits(slots, fragment) {
        slots.update(fragment.fragment_index as int, Some(fragment))
    } else {
        slots
    }
}

/// The answer to a fragment that met `slots`.
pub open spec fn insert_outcome(slots: Seq<Option<Fragment>>, fragment: Fragment) -> Result<
    AssemblerStatus,
    InsertFragmentError,
> {
    if fragment.total_n_fragments != slots.len() {
        Err(InsertFragmentError::CapacityDoesNotMatch)
    } else if fragment.fragment_index >= slots.len() {
        Err(InsertFragmentError::IndexOutOfBounds)
    } else if missing(slots_after(slots, fragment)) == 0 {
        Ok(AssemblerStatus::Complete)
    } else {
        Ok(AssemblerStatus::Incomplete)
    }
}

/// One assembler for each session that has sent a fragment.
pub struct AssemblersManager {
    assembly_buffer: HashMap<SessionId, Assembler>,
}

impl View for AssemblersManager {
    type V = Map<SessionId, Seq<Option<Fragment>>>;

    /// The slots of each session.
    closed spec fn view(&self) -> Map<SessionId, Seq<Option<Fragment>>> {
        Map::new(
            |session_id: SessionId| self.assembly_buffer@.contains_key(session_id),
            |session_id: SessionId| self.assembly_buffer@[session_id]@,
        )
    }
}

impl AssemblersManager {
    /// Every assembler is well formed.
    pub closed spec fn wf(&self) -> bool {
        forall|session_id: SessionId| #[trigger]
            self.assembly_buffer@.contains_key(session_id)
                ==> self.assembly_buffer@[session_id].wf()
    }

    /// No session.
    pub fn new() -> (manager: AssemblersManager)
        ensures
            manager.wf(),
            manager@ == Map::<SessionId, Seq<Option<Fragment>>>::empty(),
    {
        let manager = Self { assembly_buffer: HashMap::new() };
        manager
    }

    /// Whether the session has slots.
    pub fn has_session(&self, session_id: SessionId) -> (known: bool)
        ensures
            known == self@.contains_key(session_id),
    {
        self.assembly_buffer.contains_key(&session_id)
    }

    /// Whether the session has the fragment at `index`.
    pub fn has_fragment(&self, session_id: SessionId, index: u64) -> (filled: bool)
        ensures
            filled == (self@.contains_key(session_id) && index < self@[session_id].len()
                && self@[session_id][index as int] is Some),
    {
        match self.assembly_buffer.get(&session_id) {
            Some(assembler) => index < assembler.capacity() as u64 && assembler.has_fragment(
                index as usize,
            ),
            None => false,
        }
    }

    /// Hands a fragment to the assembler of its session. A session seen for
    /// the first time gets as many slots as the fragment announces, whether
    /// or not the fragment is then refused.
    pub fn insert_fragment(&mut self, fragment: Fragment, session_id: SessionId) -> (result: Result<
        AssemblerStatus,
        InsertFragmentError,
    >)
        requires
            old(self).wf(),
        ensures
            final(self).wf(),
            final(self)@ == old(self)@.insert(
                session_id,
                slots_after(slots_for(old(self)@, session_id, fragment), fragment),
            ),
            result == insert_outcome(slots_for(old(self)@, session_id, fragment), fragment),
    {
        let mut entry = match self.assembly_buffer.remove(&session_id) {
            Some(assembler) => assembler,
            None => Assembler::new(fragment.total_n_fragments),
        };
        let result = entry.insert_fragment(fragment);
        self.assembly_buffer.insert(session_id, entry);
        result
    }

    /// Hands out the message of a session and forgets the session. Fails,
    /// and changes nothing, for a session that is unknown or has an empty
    /// slot.
    pub fn retrieve_assembled(&mut self, session_id: SessionId) -> (result: Result<
        Vec<u8>,
        RetrieveError,
    >)
        requires
            old(self).wf(),
        ensures
            final(self).wf(),
            !old(self)@.contains_key(session_id) ==> result == Err::<Vec<u8>, RetrieveError>(
                RetrieveError::UnknownSessionId,
            ) && final(self)@ == old(self)@,
            old(self)@.contains_key(session_id) && missing(old(self)@[session_id]) != 0
                ==> result == Err::<Vec<u8>, RetrieveError>(RetrieveError::Incomplete)
                && final(self)@ == old(self)@,
            old(self)@.contains_key(session_id) && missing(old(self)@[session_id]) == 0
                ==> result is Ok && result->Ok_0@ == payload(old(self)@[session_id])
                && final(self)@ == old(self)@.remove(session_id),
    {
        let complete = match self.assembly_buffer.get(&session_id) {
            Some(assembler) => assembler.is_complete(),
            None => {
                return Err(RetrieveError::UnknownSessionId);
            },
        };
        if complete {
            match self.assembly_buffer.remove(&session_id) {
                Some(assembler) => {
                    assembler.retrieve_assembled()
                },
                None => Err(RetrieveError::UnknownSessionId),
            }
        } else {
            Err(RetrieveError::Incomplete)
        }
    }
}

} // verus!
