//! Cache for Rust function type definitions sent to JavaScript.
//!
//! Type IDs are not safe to send as `TYPE_CACHED` until JS has parsed the
//! matching `TYPE_FULL`. Each outbound Evaluate pushes its newly introduced
//! type IDs as a frame; the matching JS Respond pops and acknowledges them.

use std::collections::BTreeSet;
use vstd::prelude::*;

verus! {

broadcast use {vstd::std_specs::btree::group_btree_axioms, vstd::laws_cmp::group_laws_cmp};

/// Abstract state of a [`TypeCache`].
pub struct TypeCacheState {
    /// Type definitions in the order they were first seen; a definition's ID is its index.
    pub types: Seq<Seq<u8>>,
    /// IDs JS has acknowledged.
    pub acked: Set<u32>,
    /// Frames of type IDs introduced by outbound Evaluates awaiting a Respond.
    pub frames: Seq<Seq<u32>>,
}

impl TypeCacheState {
    pub open spec fn wf(self) -> bool {
        &&& self.types.no_duplicates()
        &&& self.types.len() <= u32::MAX
        &&& self.acked.finite()
    }

    /// The state after JS acknowledged `ids`.
    pub open spec fn after_ack(self, ids: Seq<u32>) -> TypeCacheState {
        TypeCacheState { acked: self.acked.union(ids.to_set()), ..self }
    }

    /// The state after popping the top frame and acknowledging its IDs.
    pub open spec fn after_pop_and_ack(self) -> TypeCacheState {
        if self.frames.len() == 0 {
            self
        } else {
            TypeCacheState { frames: self.frames.drop_last(), ..self }.after_ack(self.frames.last())
        }
    }

    /// What `get_or_create_type_id` answers and the state it leaves.
    pub open spec fn lookup(self, bytes: Seq<u8>) -> ((u32, bool), TypeCacheState) {
        if self.types.contains(bytes) {
            let id = self.types.index_of(bytes) as u32;
            ((id, self.acked.contains(id)), self)
        } else {
            ((self.types.len() as u32, false), TypeCacheState { types: self.types.push(bytes), ..self })
        }
    }
}

/// Assigns stable IDs to encoded type definitions for a runtime.
pub struct TypeCache {
    types: Vec<Vec<u8>>,
    acked: BTreeSet<u32>,
    awaiting_ack_stack: Vec<Vec<u32>>,
}

impl View for TypeCache {
    type V = TypeCacheState;

    closed spec fn view(&self) -> TypeCacheState {
        TypeCacheState {
            types: self.types@.map_values(|v: Vec<u8>| v@),
            acked: self.acked@,
            frames: self.awaiting_ack_stack@.map_values(|v: Vec<u32>| v@),
        }
    }
}

fn bytes_equal(a: &[u8], b: &[u8]) -> (r: bool)
    ensures
        r == (a@ == b@),
{
    if a.len() != b.len() {
        return false;
    }
    let mut i: usize = 0;
    while i < a.len()
        invariant
            a.len() == b.len(),
            i <= a.len(),
            a@.subrange(0, i as int) == b@.subrange(0, i as int),
        decreases a.len() - i,
    {
        if a[i] != b[i] {
            assert(a@[i as int] != b@[i as int]);
            return false;
        }
        assert(a@.subrange(0, i + 1) =~= a@.subrange(0, i as int).push(a@[i as int]));
        assert(b@.subrange(0, i + 1) =~= b@.subrange(0, i as int).push(b@[i as int]));
        i = i + 1;
    }
    assert(a@ =~= a@.subrange(0, i as int));
    assert(b@ =~= b@.subrange(0, i as int));
    true
}

impl TypeCache {
    pub fn new() -> (c: Self)
        ensures
            c@ == (TypeCacheState {
                types: Seq::empty(),
                acked: Set::empty(),
                frames: Seq::empty(),
            }),
            c@.wf(),
    {
        let c = TypeCache { types: Vec::new(), acked: BTreeSet::new(), awaiting_ack_stack: Vec::new() };
        assert(c@.types =~= Seq::<Seq<u8>>::empty());
        assert(c@.frames =~= Seq::<Seq<u32>>::empty());
        c
    }

    fn find(&self, bytes: &[u8]) -> (r: Option<usize>)
        requires
            self@.wf(),
        ensures
            r is None <==> !self@.types.contains(bytes@),
            r matches Some(i) ==> i < self@.types.len() && self@.types[i as int] == bytes@,
    {
        let mut i: usize = 0;
        while i < self.types.len()
            invariant
                i <= self.types.len(),
                self@.types.len() == self.types.len(),
                forall|j: int| 0 <= j < i ==> self@.types[j] != bytes@,
            decreases self.types.len() - i,
        {
            if bytes_equal(self.types[i].as_slice(), bytes) {
                assert(self@.types[i as int] == bytes@);
                return Some(i);
            }
            i = i + 1;
        }
        None
    }

    /// Get or create the ID of a type definition. The flag is true only once
    /// JS has acknowledged parsing the full definition for that ID.
    pub fn get_or_create_type_id(&mut self, type_bytes: &[u8]) -> (r: (u32, bool))
        requires
            old(self)@.wf(),
            old(self)@.types.contains(type_bytes@) || old(self)@.types.len() < u32::MAX,
        ensures
            (r, final(self)@) == old(self)@.lookup(type_bytes@),
            final(self)@.wf(),
    {
        match self.find(type_bytes) {
            Some(i) => {
                proof {
                    self@.types.index_of_first_ensures(type_bytes@);
                    assert(self@.types.index_of(type_bytes@) == i);
                }
                let id = i as u32;
                (id, self.acked.contains(&id))
            },
            None => {
                let id = self.types.len() as u32;
                let ghost old_types = self@.types;
                self.types.push(vstd::slice::slice_to_vec(type_bytes));
                assert(self@.types =~= old_types.push(type_bytes@));
                proof {
                    assert forall|a: int, b: int| 0 <= a < b < self@.types.len() implies self@.types[a]
                        != self@.types[b] by {
                        if b == self@.types.len() - 1 {
                            assert(old_types[a] != type_bytes@);
                        }
                    }
                }
                (id, false)
            },
        }
    }

    /// Push a frame of type IDs introduced by an outbound Evaluate.
    pub fn push_pending_frame(&mut self, type_ids: Vec<u32>)
        requires
            old(self)@.wf(),
        ensures
            final(self)@ == (TypeCacheState { frames: old(self)@.frames.push(type_ids@), ..old(self)@ }),
            final(self)@.wf(),
    {
        let ghost ids = type_ids@;
        self.awaiting_ack_stack.push(type_ids);
        assert(self@.frames =~= old(self)@.frames.push(ids));
    }

    /// Pop the top pending frame, if any, and acknowledge its types.
    pub fn pop_and_ack_pending_frame(&mut self)
        requires
            old(self)@.wf(),
        ensures
            final(self)@ == old(self)@.after_pop_and_ack(),
            final(self)@.wf(),
    {
        match self.awaiting_ack_stack.pop() {
            Some(type_ids) => {
                assert(self@.frames =~= old(self)@.frames.drop_last());
                self.ack_type_ids(type_ids.as_slice());
            },
            None => {},
        }
    }

    /// Mark the given type IDs as acknowledged by JS.
    pub fn ack_type_ids(&mut self, type_ids: &[u32])
        requires
            old(self)@.wf(),
        ensures
            final(self)@ == old(self)@.after_ack(type_ids@),
            final(self)@.wf(),
    {
        let mut i: usize = 0;
        assert(old(self)@.acked.union(type_ids@.subrange(0, 0).to_set()) =~= old(self)@.acked);
        while i < type_ids.len()
            invariant
                i <= type_ids.len(),
                self@ == old(self)@.after_ack(type_ids@.subrange(0, i as int)),
                self@.wf(),
            decreases type_ids.len() - i,
        {
            self.acked.insert(type_ids[i]);
            assert(type_ids@.subrange(0, i + 1).to_set() =~= type_ids@.subrange(0, i as int).to_set().insert(
                type_ids@[i as int],
            )) by {
                let prev = type_ids@.subrange(0, i as int);
                let cur = type_ids@.subrange(0, i + 1);
                assert(cur =~= prev.push(type_ids@[i as int]));
                assert forall|x: u32| cur.contains(x) <==> prev.contains(x) || x == type_ids@[i as int] by {
                    if cur.contains(x) {
                        let k = choose|k: int| 0 <= k < cur.len() && cur[k] == x;
                        if k < i {
                            assert(prev[k] == x);
                        }
                    }
                    if prev.contains(x) {
                        let k = choose|k: int| 0 <= k < prev.len() && prev[k] == x;
                        assert(cur[k] == x);
                    }
                    if x == type_ids@[i as int] {
                        assert(cur[i as int] == x);
                    }
                }
            }
            assert(self@.acked =~= old(self)@.acked.union(type_ids@.subrange(0, i + 1).to_set()));
            i = i + 1;
        }
        assert(type_ids@.subrange(0, i as int) =~= type_ids@);
    }
}

/// Law: a type definition keeps its ID; asking again for the same bytes
/// answers the same ID and changes nothing.
pub proof fn lemma_type_id_is_stable(s: TypeCacheState, bytes: Seq<u8>)
    requires
        s.wf(),
    ensures
        s.lookup(bytes).1.lookup(bytes).0.0 == s.lookup(bytes).0.0,
        s.lookup(bytes).1.lookup(bytes).1 == s.lookup(bytes).1,
{
    let t = s.lookup(bytes).1;
    if !s.types.contains(bytes) {
        assert(t.types[s.types.len() as int] == bytes);
        assert(t.types.contains(bytes));
        t.types.index_of_first_ensures(bytes);
        assert(t.types.no_duplicates()) by {
            assert forall|a: int, b: int| 0 <= a < b < t.types.len() implies t.types[a] != t.types[b] by {
                if b == s.types.len() {
                    assert(s.types[a] != bytes);
                }
            }
        }
        let k = t.types.index_of(bytes);
        assert(k == s.types.len());
    }
}

/// Law: a type ID reported cached stays cached; neither lookups, frames nor
/// acknowledgements ever withdraw an acknowledgement.
pub proof fn lemma_ack_is_permanent(s: TypeCacheState, id: u32, bytes: Seq<u8>, ids: Seq<u32>)
    requires
        s.acked.contains(id),
    ensures
        s.lookup(bytes).1.acked.contains(id),
        s.after_ack(ids).acked.contains(id),
        s.after_pop_and_ack().acked.contains(id),
{
}

/// Law: popping acknowledges exactly the top frame; IDs only in lower frames stay unacknowledged.
pub proof fn lemma_ack_only_top_frame(s: TypeCacheState, id: u32)
    requires
        s.frames.len() > 0,
    ensures
        s.after_pop_and_ack().acked.contains(id) <==> (s.acked.contains(id) || s.frames.last().contains(id)),
{
}

} // verus!
