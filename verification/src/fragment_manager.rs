//! Outbound fragments: those waiting to be sent, and those sent and not yet
//! acknowledged.

use crate::packet::{Fragment, FragmentId, NodeId, SessionId};
use std::collections::{HashMap, VecDeque};
use vstd::prelude::*;

verus! {

broadcast use vstd::std_specs::hash::group_hash_axioms;

/// A fragment on its way out: where it goes and which session it belongs to.
#[derive(Clone, Copy, Debug, PartialEq, Eq)]
pub struct ToBeSentFragment {
    pub dest: NodeId,
    pub session_id: SessionId,
    pub fragment: Fragment,
}

/// The key under which a fragment is cached: its session and its index.
pub open spec fn fragment_id(record: ToBeSentFragment) -> FragmentId {
    (record.session_id, record.fragment.fragment_index)
}

/// The manager as mathematics.
pub struct FragmentManagerView {
    /// The fragments kept for sending again, by session and index.
    pub cache: Map<FragmentId, ToBeSentFragment>,
    /// The fragments waiting to be sent, the next one first.
    pub buffer: Seq<ToBeSentFragment>,
}

impl FragmentManagerView {
    /// The state after one fragment was handed in: cached under its key and
    /// last in line.
    pub open spec fn insert_fragment(self, record: ToBeSentFragment) -> Self {
        FragmentManagerView {
            cache: self.cache.insert(fragment_id(record), record),
            buffer: self.buffer.push(record),
        }
    }

    /// The state after the first `n` of `records` were handed in, in order.
    pub open spec fn insert_bulk(self, records: Seq<ToBeSentFragment>, n: int) -> Self
        decreases n,
    {
        if n <= 0 {
            self
        } else {
            self.insert_bulk(records, n - 1).insert_fragment(records[n - 1])
        }
    }

    /// The state after a cached fragment was asked for again: last in line,
    /// if it is cached; nothing changes if it is not.
    pub open spec fn insert_from_cache(self, id: FragmentId) -> Self {
        if self.cache.contains_key(id) {
            FragmentManagerView { buffer: self.buffer.push(self.cache[id]), ..self }
        } else {
            self
        }
    }

    /// The state after a fragment was acknowledged: no longer cached.
    pub open spec fn remove_from_cache(self, id: FragmentId) -> Self {
        FragmentManagerView { cache: self.cache.remove(id), ..self }
    }

    /// The state after each of `ids` was acknowledged, in order.
    pub open spec fn remove_all(self, ids: Seq<FragmentId>) -> Self
        decreases ids.len(),
    {
        if ids.len() == 0 {
            self
        } else {
            self.remove_all(ids.drop_last()).remove_from_cache(ids.last())
        }
    }
}

/// The key of the hash map for a fragment: session in the upper half, index
/// in the lower.
pub open spec fn key_of(id: FragmentId) -> u128 {
    (id.0 as u128 * 0x1_0000_0000_0000_0000u128 + id.1 as u128) as u128
}

/// The fragments to send and the fragments to keep.
pub struct FragmentManager {
    cache: HashMap<u128, ToBeSentFragment>,
    buffer: VecDeque<ToBeSentFragment>,
}

impl View for FragmentManager {
    type V = FragmentManagerView;

    closed spec fn view(&self) -> FragmentManagerView {
        FragmentManagerView {
            cache: Map::new(
                |id: FragmentId| self.cache@.contains_key(key_of(id)),
                |id: FragmentId| self.cache@[key_of(id)],
            ),
            buffer: self.buffer@,
        }
    }
}

fn cache_key(id: FragmentId) -> (key: u128)
    ensures
        key == key_of(id),
{
    id.0 as u128 * 0x1_0000_0000_0000_0000u128 + id.1 as u128
}

/// The session and index that a key of the hash map stands for.
pub open spec fn id_of(key: u128) -> FragmentId {
    (
        (key / 0x1_0000_0000_0000_0000u128) as u64,
        (key % 0x1_0000_0000_0000_0000u128) as u64,
    )
}

impl FragmentManager {
    /// Nothing cached, nothing waiting.
    pub fn new() -> (manager: FragmentManager)
        ensures
            manager@.cache == Map::<FragmentId, ToBeSentFragment>::empty(),
            manager@.buffer == Seq::<ToBeSentFragment>::empty(),
    {
        let manager = Self { cache: HashMap::new(), buffer: VecDeque::new() };
        manager
    }

    /// Caches a fragment under its session and index, in place of any
    /// fragment cached there, and puts it last in line.
    pub fn insert_fragment(&mut self, to_be_sent_fragment: ToBeSentFragment)
        ensures
            final(self)@ == old(self)@.insert_fragment(to_be_sent_fragment),
    {
        let id = (to_be_sent_fragment.session_id, to_be_sent_fragment.fragment.fragment_index);
        self.cache.insert(cache_key(id), to_be_sent_fragment);
        self.buffer.push_back(to_be_sent_fragment);
        proof {
            let goal = old(self)@.insert_fragment(to_be_sent_fragment);
            assert(self@.cache =~= goal.cache);
        }
    }

    /// Takes the first fragment in line, if there is one.
    pub fn get_next(&mut self) -> (next: Option<ToBeSentFragment>)
        ensures
            final(self)@.cache == old(self)@.cache,
            old(self)@.buffer.len() == 0 ==> next is None && final(self)@.buffer == old(
                self,
            )@.buffer,
            old(self)@.buffer.len() > 0 ==> next == Some(old(self)@.buffer[0])
                && final(self)@.buffer == old(self)@.buffer.subrange(
                1,
                old(self)@.buffer.len() as int,
            ),
    {
        self.buffer.pop_front()
    }

    /// Hands in fragments one after the other.
    pub fn insert_bulk(&mut self, fragments: Vec<ToBeSentFragment>)
        ensures
            final(self)@ == old(self)@.insert_bulk(fragments@, fragments@.len() as int),
    {
        let mut i: usize = 0;
        while i < fragments.len()
            invariant
                i <= fragments@.len(),
                self@ == old(self)@.insert_bulk(fragments@, i as int),
            decreases fragments@.len() - i,
        {
            self.insert_fragment(fragments[i]);
            i += 1;
        }
    }

    /// Puts a cached fragment last in line again. Fails, and changes
    /// nothing, when no fragment is cached under `fragment_id`.
    pub fn insert_from_cache(&mut self, fragment_id: FragmentId) -> (result: Result<(), &'static str>)
        ensures
            final(self)@ == old(self)@.insert_from_cache(fragment_id),
            result is Ok <==> old(self)@.cache.contains_key(fragment_id),
            result is Err ==> result->Err_0@ == "Requested fragment is not in cache"@,
    {
        let key = cache_key(fragment_id);
        let to_be_sent_fragment = match self.cache.get(&key) {
            None => {
                return Err("Requested fragment is not in cache");
            },
            Some(fragment) => *fragment,
        };
        self.buffer.push_back(to_be_sent_fragment);
        Ok(())
    }

    /// Forgets the fragment cached under `fragment_id`, if there is one.
    pub fn remove_from_cache(&mut self, fragment_id: FragmentId)
        ensures
            final(self)@ == old(self)@.remove_from_cache(fragment_id),
    {
        let key = cache_key(fragment_id);
        self.cache.remove(&key);
        proof {
            let goal = old(self)@.remove_from_cache(fragment_id);
            assert(self@.cache =~= goal.cache);
        }
    }

    /// Whether a fragment is cached under `fragment_id`.
    pub fn is_cached(&self, fragment_id: FragmentId) -> (cached: bool)
        ensures
            cached == self@.cache.contains_key(fragment_id),
    {
        let key = cache_key(fragment_id);
        self.cache.contains_key(&key)
    }

    /// Number of cached fragments.
    pub fn cached(&self) -> (n: usize)
        ensures
            n == self@.cache.len(),
    {
        proof {
            self.lemma_cache_len();
        }
        self.cache.len()
    }

    /// Number of fragments in line.
    pub fn pending(&self) -> (n: usize)
        ensures
            n == self@.buffer.len(),
    {
        self.buffer.len()
    }

    proof fn lemma_cache_len(&self)
        ensures
            self@.cache.dom().finite(),
            self@.cache.len() == self.cache@.len(),
    {
        let keys = self.cache@.dom();
        let ids = self@.cache.dom();
        let decode = |key: u128| id_of(key);
        assert(keys.map(decode) =~= ids);
        vstd::set_lib::lemma_map_size(keys, ids, decode);
    }
}

/// After a fragment was acknowledged nothing is cached under its key, and
/// asking for it again changes nothing.
pub proof fn lemma_ack_then_nack(state: FragmentManagerView, id: FragmentId)
    ensures
        !state.remove_from_cache(id).cache.contains_key(id),
        state.remove_from_cache(id).insert_from_cache(id) == state.remove_from_cache(id),
{
}

/// What is cached after a run of acknowledgements: what was cached before
/// under the keys that were not acknowledged. The line of waiting fragments
/// is untouched.
pub proof fn lemma_remove_all(state: FragmentManagerView, ids: Seq<FragmentId>)
    ensures
        state.remove_all(ids).buffer == state.buffer,
        forall|id: FragmentId| #[trigger]
            state.remove_all(ids).cache.contains_key(id) <==> state.cache.contains_key(id)
                && !ids.contains(id),
        forall|id: FragmentId| #[trigger]
            state.remove_all(ids).cache.contains_key(id) ==> state.remove_all(ids).cache[id]
                == state.cache[id],
    decreases ids.len(),
{
    if ids.len() > 0 {
        let init = ids.drop_last();
        lemma_remove_all(state, init);
        assert forall|id: FragmentId| #[trigger]
            state.remove_all(ids).cache.contains_key(id) <==> state.cache.contains_key(id)
                && !ids.contains(id) by {
            if ids.contains(id) {
                let k = choose|k: int| 0 <= k < ids.len() && ids[k] == id;
                if k < ids.len() - 1 {
                    assert(init[k] == id);
                }
            }
            if init.contains(id) {
                let k = choose|k: int| 0 <= k < init.len() && init[k] == id;
                assert(ids[k] == id);
            }
        }
    }
}

/// Once every cached fragment has been acknowledged, however many times and
/// in whatever order, the cache is empty.
pub proof fn lemma_all_acked(state: FragmentManagerView, ids: Seq<FragmentId>)
    requires
        forall|id: FragmentId| state.cache.contains_key(id) ==> ids.contains(id),
    ensures
        state.remove_all(ids).cache == Map::<FragmentId, ToBeSentFragment>::empty(),
{
    lemma_remove_all(state, ids);
}

} // verus!
