//! Deduplicated generation queue and lifecycle registry for streamed chunks.

use std::collections::HashMap;

use vstd::prelude::*;

use crate::chunk::{
    chunk_key, decode_key, key_position, lemma_key_decodes, lemma_key_injective,
    lemma_key_round_trip, position_key,
};
use crate::coordinates::ChunkPos;

verus! {

/// Processing stage of a chunk currently inside the streaming window.
#[derive(Clone, Copy, Debug, PartialEq, Eq, Structural)]
pub enum ChunkLifecycle {
    Requested,
    Generating,
    Generated,
    Meshing,
    Ready,
}

/// A queued generation job, ordered nearest first.
#[derive(Clone, Copy, Debug, PartialEq, Eq, Structural)]
pub struct ChunkPriority {
    /// Squared distance to the centre chunk.
    pub distance_squared: i128,
    /// Squared distance to the centre chunk ignoring height.
    pub horizontal_squared: i128,
    pub position: ChunkPos,
}

/// The job for `position` seen from `center`.
pub open spec fn spec_chunk_priority(position: ChunkPos, center: ChunkPos) -> ChunkPriority {
    let dx = position.x - center.x;
    let dy = position.y - center.y;
    let dz = position.z - center.z;
    ChunkPriority {
        distance_squared: (dx * dx + dz * dz + dy * dy) as i128,
        horizontal_squared: (dx * dx + dz * dz) as i128,
        position,
    }
}

/// `a` runs before `b`: nearer first, then horizontally nearer, then by position.
pub open spec fn runs_before(a: ChunkPriority, b: ChunkPriority) -> bool {
    ||| a.distance_squared < b.distance_squared
    ||| a.distance_squared == b.distance_squared && a.horizontal_squared < b.horizontal_squared
    ||| a.distance_squared == b.distance_squared && a.horizontal_squared == b.horizontal_squared && (
    a.position.x < b.position.x || (a.position.x == b.position.x && (a.position.y < b.position.y
        || (a.position.y == b.position.y && a.position.z < b.position.z))))
}

/// `runs_before` is a strict total order.
pub proof fn lemma_runs_before_order(a: ChunkPriority, b: ChunkPriority, c: ChunkPriority)
    ensures
        !runs_before(a, a),
        runs_before(a, b) && runs_before(b, c) ==> runs_before(a, c),
        a != b ==> runs_before(a, b) || runs_before(b, a),
        runs_before(a, b) ==> !runs_before(b, a),
{
}

pub fn chunk_priority(position: ChunkPos, center: ChunkPos) -> (r: ChunkPriority)
    ensures
        r == spec_chunk_priority(position, center),
{
    let dx = position.x as i128 - center.x as i128;
    let dy = position.y as i128 - center.y as i128;
    let dz = position.z as i128 - center.z as i128;
    assert(dx * dx <= 0x1_0000_0000_0000_0000 && dy * dy <= 0x1_0000_0000_0000_0000 && dz * dz
        <= 0x1_0000_0000_0000_0000) by (nonlinear_arith)
        requires
            -0x1_0000_0000 <= dx <= 0x1_0000_0000,
            -0x1_0000_0000 <= dy <= 0x1_0000_0000,
            -0x1_0000_0000 <= dz <= 0x1_0000_0000,
    ;
    assert(0 <= dx * dx && 0 <= dy * dy && 0 <= dz * dz) by (nonlinear_arith);
    let horizontal_squared = dx * dx + dz * dz;
    ChunkPriority { distance_squared: horizontal_squared + dy * dy, horizontal_squared, position }
}

fn runs_first(a: ChunkPriority, b: ChunkPriority) -> (r: bool)
    ensures
        r == runs_before(a, b),
{
    if a.distance_squared != b.distance_squared {
        return a.distance_squared < b.distance_squared;
    }
    if a.horizontal_squared != b.horizontal_squared {
        return a.horizontal_squared < b.horizontal_squared;
    }
    if a.position.x != b.position.x {
        return a.position.x < b.position.x;
    }
    if a.position.y != b.position.y {
        return a.position.y < b.position.y;
    }
    a.position.z < b.position.z
}

/// Abstract queue: the lifecycle of each chunk in the window and the queued jobs.
pub struct GenerationQueueView {
    pub states: Map<ChunkPos, ChunkLifecycle>,
    pub pending: Seq<ChunkPriority>,
}

/// Deduplicated generation queue and lifecycle registry for streamed chunks.
#[derive(Debug)]
pub struct ChunkGenerationQueue {
    states: HashMap<u128, ChunkLifecycle>,
    pending: Vec<ChunkPriority>,
}

impl View for ChunkGenerationQueue {
    type V = GenerationQueueView;

    closed spec fn view(&self) -> GenerationQueueView {
        GenerationQueueView {
            states: Map::new(
                |p: ChunkPos| self.states@.contains_key(chunk_key(p)),
                |p: ChunkPos| self.states@[chunk_key(p)],
            ),
            pending: self.pending@,
        }
    }
}

/// How many of the keys hold `state`.
spec fn count_keys(keys: Seq<u128>, raw: Map<u128, ChunkLifecycle>, state: ChunkLifecycle) -> nat
    decreases keys.len(),
{
    if keys.len() == 0 {
        0
    } else {
        count_keys(keys.drop_last(), raw, state) + if raw[keys.last()] == state {
            1nat
        } else {
            0nat
        }
    }
}

proof fn lemma_count_keys(keys: Seq<u128>, raw: Map<u128, ChunkLifecycle>, state: ChunkLifecycle)
    requires
        keys.no_duplicates(),
    ensures
        count_keys(keys, raw, state) == keys.to_set().filter(|k: u128| raw[k] == state).len(),
        keys.to_set().filter(|k: u128| raw[k] == state).finite(),
    decreases keys.len(),
{
    broadcast use vstd::seq_lib::seq_to_set_is_finite;

    let f = |k: u128| raw[k] == state;
    if keys.len() == 0 {
        assert(keys.to_set().filter(f) =~= Set::empty());
    } else {
        let init = keys.drop_last();
        let x = keys.last();
        assert(init.no_duplicates()) by {
            assert forall|i: int, j: int|
                0 <= i < init.len() && 0 <= j < init.len() && i != j implies init[i] != init[j] by {
                assert(keys[i] == init[i] && keys[j] == init[j]);
            }
        }
        lemma_count_keys(init, raw, state);
        assert(keys.to_set() =~= init.to_set().insert(x)) by {
            assert forall|k: u128| keys.to_set().contains(k) implies init.to_set().insert(
                x,
            ).contains(k) by {
                let i = choose|i: int| 0 <= i < keys.len() && keys[i] == k;
                if i < init.len() {
                    assert(init[i] == k);
                }
            }
            assert forall|k: u128| init.to_set().insert(x).contains(k) implies keys.to_set().contains(
                k,
            ) by {
                if k == x {
                    assert(keys[keys.len() - 1] == k);
                } else {
                    let i = choose|i: int| 0 <= i < init.len() && init[i] == k;
                    assert(keys[i] == k);
                }
            }
        }
        assert(!init.to_set().contains(x)) by {
            if init.to_set().contains(x) {
                let i = choose|i: int| 0 <= i < init.len() && init[i] == x;
                assert(keys[i] == keys[keys.len() - 1]);
            }
        }
        if f(x) {
            assert(keys.to_set().filter(f) =~= init.to_set().filter(f).insert(x));
        } else {
            assert(keys.to_set().filter(f) =~= init.to_set().filter(f));
        }
    }
}

proof fn lemma_count_done(keys: Seq<&u128>, raw: Map<u128, ChunkLifecycle>, state: ChunkLifecycle, seen: int)
    requires
        keys.no_duplicates(),
        keys.unref().to_set() == raw.dom(),
    ensures
        seen == keys.len() ==> count_keys(keys.unref().take(seen), raw, state) == raw.dom().filter(
            |k: u128| raw[k] == state,
        ).len(),
{
    if seen == keys.len() {
        let values = keys.unref();
        assert(values.take(values.len() as int) =~= values);
        assert(values.no_duplicates()) by {
            assert forall|a: int, b: int|
                0 <= a < values.len() && 0 <= b < values.len() && a != b implies values[a]
                != values[b] by {
                assert(keys[a] != keys[b]);
            }
        }
        lemma_count_keys(values, raw, state);
    }
}

proof fn lemma_positions_done(
    keys: Seq<&u128>,
    raw: Map<u128, ChunkLifecycle>,
    tracked_positions: Map<ChunkPos, ChunkLifecycle>,
    out: Seq<ChunkPos>,
    seen: int,
)
    requires
        keys.unref().to_set() == raw.dom(),
        forall|p: ChunkPos| tracked_positions.contains_key(p) <==> raw.contains_key(chunk_key(p)),
        out.len() == seen,
        0 <= seen <= keys.len(),
        forall|j: int|
            0 <= j < seen ==> #[trigger] out[j] == key_position(*keys[j]) && chunk_key(out[j])
                == *keys[j],
    ensures
        seen == keys.len() ==> forall|p: ChunkPos| out.contains(p) <==> tracked_positions.contains_key(p),
{
    if seen == keys.len() {
        let values = keys.unref();
        assert forall|p: ChunkPos| out.contains(p) <==> tracked_positions.contains_key(p) by {
            if tracked_positions.contains_key(p) {
                assert(values.to_set().contains(chunk_key(p)));
                let jj = choose|jj: int| 0 <= jj < values.len() && values[jj] == chunk_key(p);
                lemma_key_round_trip(p);
                assert(out[jj] == key_position(*keys[jj]));
            }
            if out.contains(p) {
                let jj = choose|jj: int| 0 <= jj < out.len() && out[jj] == p;
                assert(chunk_key(out[jj]) == *keys[jj]);
                assert(values[jj] == chunk_key(p));
                assert(values.to_set().contains(chunk_key(p)));
            }
        }
    }
}

proof fn lemma_jobs_done(
    keys: Seq<&u128>,
    raw: Map<u128, ChunkLifecycle>,
    tracked_states: Map<ChunkPos, ChunkLifecycle>,
    pending: Seq<ChunkPriority>,
    center: ChunkPos,
    seen: int,
)
    requires
        keys.unref().to_set() == raw.dom(),
        forall|p: ChunkPos| #[trigger] tracked_states.contains_key(p) <==> raw.contains_key(chunk_key(p)),
        forall|p: ChunkPos| tracked_states.contains_key(p) ==> #[trigger] tracked_states[p] == raw[chunk_key(p)],
        0 <= seen <= keys.len(),
        forall|job: ChunkPriority|
            pending.contains(job) <==> exists|j: int|
                0 <= j < seen && #[trigger] keys[j] == keys[j] && raw[*keys[j]]
                    == ChunkLifecycle::Requested && job == spec_chunk_priority(
                    key_position(*keys[j]),
                    center,
                ) && chunk_key(job.position) == *keys[j],
    ensures
        seen == keys.len() ==> forall|job: ChunkPriority|
            pending.contains(job) <==> (tracked_states.get(job.position) == Some(
                ChunkLifecycle::Requested,
            ) && job == spec_chunk_priority(job.position, center)),
{
    if seen == keys.len() {
        let values = keys.unref();
        assert forall|job: ChunkPriority|
            pending.contains(job) <==> (tracked_states.get(job.position) == Some(
                ChunkLifecycle::Requested,
            ) && job == spec_chunk_priority(job.position, center)) by {
            if tracked_states.get(job.position) == Some(ChunkLifecycle::Requested) && job
                == spec_chunk_priority(job.position, center) {
                assert(tracked_states.contains_key(job.position));
                assert(values.to_set().contains(chunk_key(job.position)));
                let jj = choose|jj: int| 0 <= jj < values.len() && values[jj] == chunk_key(job.position);
                lemma_key_round_trip(job.position);
                assert(keys[jj] == keys[jj]);
            }
            if pending.contains(job) {
                let jj = choose|jj: int|
                    0 <= jj < seen && #[trigger] keys[jj] == keys[jj] && raw[*keys[jj]]
                        == ChunkLifecycle::Requested && job == spec_chunk_priority(
                        key_position(*keys[jj]),
                        center,
                    ) && chunk_key(job.position) == *keys[jj];
                lemma_key_round_trip(job.position);
                assert(values[jj] == chunk_key(job.position));
                assert(values.to_set().contains(chunk_key(job.position)));
            }
        }
    }
}

impl ChunkGenerationQueue {
    /// Every stored key encodes a chunk position, and no job is queued twice.
    pub closed spec fn wf(self) -> bool {
        &&& forall|k: u128| #[trigger] self.states@.contains_key(k) ==> k < 0x1_0000_0000_0000_0000_0000_0000
        &&& self.pending@.no_duplicates()
    }

    /// The positions in state `state` correspond one to one to the stored keys holding it.
    proof fn lemma_state_count(self, state: ChunkLifecycle)
        requires
            self.wf(),
        ensures
            self@.states.dom().filter(|p: ChunkPos| self@.states[p] == state).len()
                == self.states@.dom().filter(|k: u128| self.states@[k] == state).len(),
            self@.states.dom().len() == self.states@.dom().len(),
    {
        broadcast use vstd::std_specs::hash::axiom_hashmap_view_finite_dom;

        let raw = self.states@;
        let keys = raw.dom().filter(|k: u128| raw[k] == state);
        let positions = self@.states.dom().filter(|p: ChunkPos| self@.states[p] == state);
        let decode = |k: u128| key_position(k);
        assert forall|k: u128| raw.contains_key(k) implies chunk_key(key_position(k)) == k by {
            lemma_key_decodes(k);
        }
        assert(vstd::relations::injective_on(decode, raw.dom())) by {
            assert forall|a: u128, b: u128|
                raw.dom().contains(a) && raw.dom().contains(b) && #[trigger] decode(a)
                    == #[trigger] decode(b) implies a == b by {
                lemma_key_decodes(a);
                lemma_key_decodes(b);
            }
        }
        assert(raw.dom().map(decode) =~= self@.states.dom()) by {
            assert forall|p: ChunkPos| self@.states.dom().contains(p) implies raw.dom().map(
                decode,
            ).contains(p) by {
                lemma_key_round_trip(p);
                assert(decode(chunk_key(p)) == p);
            }
        }
        vstd::set_lib::lemma_map_size(raw.dom(), self@.states.dom(), decode);
        assert(raw.dom().finite());
        assert(keys.finite()) by {
            assert(keys.subset_of(raw.dom()));
            vstd::set_lib::lemma_len_subset(keys, raw.dom());
        }
        assert(vstd::relations::injective_on(decode, keys));
        assert(keys.map(decode) =~= positions) by {
            assert forall|p: ChunkPos| positions.contains(p) implies keys.map(decode).contains(p) by {
                lemma_key_round_trip(p);
                assert(decode(chunk_key(p)) == p);
                assert(keys.contains(chunk_key(p)));
            }
        }
        vstd::set_lib::lemma_map_size(keys, positions, decode);
    }

    fn count_in_state(&self, state: ChunkLifecycle) -> (r: usize)
        requires
            self.wf(),
        ensures
            r == self@.states.dom().filter(|p: ChunkPos| self@.states[p] == state).len(),
    {
        let ghost raw = self.states@;
        let ghost target = self@.states.dom().filter(|p: ChunkPos| self@.states[p] == state).len();
        proof {
            self.lemma_state_count(state);
            broadcast use vstd::std_specs::hash::axiom_hashmap_view_finite_dom;

            if raw.dom().len() == 0 {
                assert(raw.dom() =~= Set::empty());
                assert(raw.dom().filter(|k: u128| raw[k] == state) =~= Set::empty());
            }
        }
        let total = self.states.len();
        let mut count: usize = 0;
        for key in it: self.states.keys()
            invariant
                raw == self.states@,
                total == raw.dom().len(),
                target == raw.dom().filter(|k: u128| raw[k] == state).len(),
                raw.dom().len() == 0 ==> target == 0,
                it.seq().no_duplicates(),
                it.seq().unref().to_set() == raw.dom(),
                it.seq().len() == raw.dom().len(),
                count <= it.index(),
                it.index() <= it.seq().len(),
                count == count_keys(it.seq().unref().take(it.index() as int), raw, state),
                it.index() == it.seq().len() ==> count == target,
        {
            let ghost i = it.index();
            assert(it.seq().unref().take(i + 1).drop_last() =~= it.seq().unref().take(i));
            assert(raw.contains_key(*key)) by {
                assert(it.seq().unref()[i] == *key);
                assert(it.seq().unref().to_set().contains(*key));
            }
            match self.states.get(key) {
                Some(found) => {
                    if *found == state {
                        count = count + 1;
                    }
                },
                None => {},
            }
            proof {
                lemma_count_done(it.seq(), raw, state, i + 1);
            }
        }
        count
    }

    pub fn new() -> (r: Self)
        ensures
            r.wf(),
            r@.states == Map::<ChunkPos, ChunkLifecycle>::empty(),
            r@.pending == Seq::<ChunkPriority>::empty(),
    {
        let r = ChunkGenerationQueue { states: HashMap::new(), pending: Vec::new() };
        assert(r@.states =~= Map::<ChunkPos, ChunkLifecycle>::empty());
        r
    }

    pub fn state(&self, position: ChunkPos) -> (r: Option<ChunkLifecycle>)
        ensures
            r == if self@.states.contains_key(position) {
                Some(self@.states[position])
            } else {
                None
            },
    {
        match self.states.get(&position_key(position)) {
            Some(state) => Some(*state),
            None => None,
        }
    }

    /// Number of chunks with a lifecycle state.
    pub fn tracked_count(&self) -> (r: usize)
        requires
            self.wf(),
        ensures
            r == self@.states.dom().len(),
    {
        proof {
            self.lemma_state_count(ChunkLifecycle::Requested);
        }
        self.states.len()
    }

    /// Number of chunks waiting for a generation task.
    pub fn pending_count(&self) -> (r: usize)
        requires
            self.wf(),
        ensures
            r == self@.states.dom().filter(
                |p: ChunkPos| self@.states[p] == ChunkLifecycle::Requested,
            ).len(),
    {
        self.count_in_state(ChunkLifecycle::Requested)
    }

    /// Number of chunks whose generation task is running.
    pub fn generating_count(&self) -> (r: usize)
        requires
            self.wf(),
        ensures
            r == self@.states.dom().filter(
                |p: ChunkPos| self@.states[p] == ChunkLifecycle::Generating,
            ).len(),
    {
        self.count_in_state(ChunkLifecycle::Generating)
    }

    /// Records `position` as requested; false when it already has a lifecycle state.
    pub fn request(&mut self, position: ChunkPos) -> (r: bool)
        requires
            old(self).wf(),
        ensures
            final(self).wf(),
            r == !old(self)@.states.contains_key(position),
            final(self)@.states == if r {
                old(self)@.states.insert(position, ChunkLifecycle::Requested)
            } else {
                old(self)@.states
            },
            final(self)@.pending == old(self)@.pending,
    {
        let key = position_key(position);
        if self.states.contains_key(&key) {
            return false;
        }
        self.states.insert(key, ChunkLifecycle::Requested);
        proof {
            self.lemma_insert_view(old(self).states@, position, ChunkLifecycle::Requested);
        }
        true
    }

    proof fn lemma_insert_view(
        self,
        before: Map<u128, ChunkLifecycle>,
        position: ChunkPos,
        state: ChunkLifecycle,
    )
        requires
            self.states@ == before.insert(chunk_key(position), state),
        ensures
            self@.states == Map::new(
                |p: ChunkPos| before.contains_key(chunk_key(p)),
                |p: ChunkPos| before[chunk_key(p)],
            ).insert(position, state),
            forall|k: u128|
                #[trigger] self.states@.contains_key(k) ==> before.contains_key(k) || k
                    == chunk_key(position),
    {
        lemma_key_round_trip(position);
        assert forall|p: ChunkPos| true implies (chunk_key(p) == chunk_key(position) <==> p
            == position) by {
            lemma_key_injective(p, position);
        }
        assert(self@.states =~= Map::new(
            |p: ChunkPos| before.contains_key(chunk_key(p)),
            |p: ChunkPos| before[chunk_key(p)],
        ).insert(position, state));
    }

    /// Stops tracking `position`, returning the state it was in.
    pub fn cancel(&mut self, position: ChunkPos) -> (r: Option<ChunkLifecycle>)
        requires
            old(self).wf(),
        ensures
            final(self).wf(),
            r == if old(self)@.states.contains_key(position) {
                Some(old(self)@.states[position])
            } else {
                None
            },
            final(self)@.states == old(self)@.states.remove(position),
            final(self)@.pending == old(self)@.pending,
    {
        let key = position_key(position);
        let r = self.states.remove(&key);
        proof {
            assert forall|p: ChunkPos| true implies (chunk_key(p) == chunk_key(position) <==> p
                == position) by {
                lemma_key_injective(p, position);
            }
            assert(self@.states =~= old(self)@.states.remove(position));
        }
        r
    }

    /// Every position with a lifecycle state, each listed once.
    pub fn positions(&self) -> (r: Vec<ChunkPos>)
        requires
            self.wf(),
        ensures
            forall|p: ChunkPos| r@.contains(p) <==> self@.states.contains_key(p),
            r@.no_duplicates(),
    {
        let ghost raw = self.states@;
        let ghost tracked_positions = self@.states;
        let mut out: Vec<ChunkPos> = Vec::new();
        proof {
            if raw.dom().len() == 0 {
                assert(raw.dom() =~= Set::empty());
            }
        }
        for key in it: self.states.keys()
            invariant
                raw == self.states@,
                tracked_positions == self@.states,
                forall|k: u128| #[trigger] raw.contains_key(k) ==> k < 0x1_0000_0000_0000_0000_0000_0000,
                it.seq().no_duplicates(),
                it.seq().unref().to_set() == raw.dom(),
                it.seq().len() == raw.dom().len(),
                raw.dom().len() == 0 ==> raw.dom() == Set::<u128>::empty(),
                out@.no_duplicates(),
                out@.len() == it.index(),
                forall|j: int|
                    0 <= j < it.index() ==> #[trigger] out@[j] == key_position(*it.seq()[j])
                        && chunk_key(out@[j]) == *it.seq()[j],
                it.index() == it.seq().len() ==> forall|p: ChunkPos|
                    out@.contains(p) <==> tracked_positions.contains_key(p),
        {
            let ghost j = it.index();
            assert(raw.contains_key(*key)) by {
                assert(it.seq().unref()[j] == *key);
                assert(it.seq().unref().to_set().contains(*key));
            }
            let position = decode_key(*key);
            proof {
                lemma_key_decodes(*key);
                assert forall|a: int| 0 <= a < j implies out@[a] != position by {
                    assert(it.seq()[a] != it.seq()[j]);
                }
            }
            out.push(position);
            proof {
                lemma_positions_done(it.seq(), raw, tracked_positions, out@, j + 1);
            }
        }
        out
    }

    /// Records that `position` holds generated data, unless it is already at least generated.
    pub fn register_generated(&mut self, position: ChunkPos)
        requires
            old(self).wf(),
        ensures
            final(self).wf(),
            final(self)@.states == match old(self)@.states.get(position) {
                Some(ChunkLifecycle::Generated) | Some(ChunkLifecycle::Meshing) | Some(
                    ChunkLifecycle::Ready,
                ) => old(self)@.states,
                _ => old(self)@.states.insert(position, ChunkLifecycle::Generated),
            },
            final(self)@.pending == old(self)@.pending,
    {
        let key = position_key(position);
        let keep = match self.states.get(&key) {
            Some(ChunkLifecycle::Generated) | Some(ChunkLifecycle::Meshing) | Some(
                ChunkLifecycle::Ready,
            ) => true,
            _ => false,
        };
        if !keep {
            self.states.insert(key, ChunkLifecycle::Generated);
            proof {
                self.lemma_insert_view(old(self).states@, position, ChunkLifecycle::Generated);
            }
        }
    }

    /// Rebuilds the job list from every requested chunk, ordered around `center`.
    pub fn reprioritize(&mut self, center: ChunkPos)
        requires
            old(self).wf(),
        ensures
            final(self).wf(),
            final(self)@.states == old(self)@.states,
            forall|job: ChunkPriority|
                final(self)@.pending.contains(job) <==> (old(self)@.states.get(job.position)
                    == Some(ChunkLifecycle::Requested) && job == spec_chunk_priority(
                    job.position,
                    center,
                )),
    {
        let ghost raw = self.states@;
        let ghost tracked_states = self@.states;
        let mut pending: Vec<ChunkPriority> = Vec::new();
        proof {
            if raw.dom().len() == 0 {
                assert(raw.dom() =~= Set::empty());
            }
        }
        for key in it: self.states.keys()
            invariant
                raw == self.states@,
                tracked_states == self@.states,
                forall|k: u128| #[trigger] raw.contains_key(k) ==> k < 0x1_0000_0000_0000_0000_0000_0000,
                it.seq().no_duplicates(),
                it.seq().unref().to_set() == raw.dom(),
                it.seq().len() == raw.dom().len(),
                raw.dom().len() == 0 ==> raw.dom() == Set::<u128>::empty(),
                pending@.no_duplicates(),
                forall|job: ChunkPriority|
                    pending@.contains(job) <==> exists|j: int|
                        0 <= j < it.index() && #[trigger] it.seq()[j] == it.seq()[j]
                            && raw[*it.seq()[j]] == ChunkLifecycle::Requested && job
                            == spec_chunk_priority(key_position(*it.seq()[j]), center)
                            && chunk_key(job.position) == *it.seq()[j],
                it.index() == it.seq().len() ==> forall|job: ChunkPriority|
                    pending@.contains(job) <==> (tracked_states.get(job.position) == Some(
                        ChunkLifecycle::Requested,
                    ) && job == spec_chunk_priority(job.position, center)),
        {
            let ghost j = it.index();
            assert(raw.contains_key(*key)) by {
                assert(it.seq().unref()[j] == *key);
                assert(it.seq().unref().to_set().contains(*key));
            }
            proof {
                lemma_key_decodes(*key);
            }
            let requested = match self.states.get(key) {
                Some(ChunkLifecycle::Requested) => true,
                _ => false,
            };
            assert(requested == (raw[*it.seq()[j]] == ChunkLifecycle::Requested));
            let ghost listed = pending@;
            let ghost fresh = spec_chunk_priority(key_position(*key), center);
            if requested {
                let position = decode_key(*key);
                let job = chunk_priority(position, center);
                assert(job == fresh);
                let ghost before = pending@;
                proof {
                    if before.contains(job) {
                        let jj = choose|jj: int|
                            0 <= jj < j && #[trigger] it.seq()[jj] == it.seq()[jj]
                                && raw[*it.seq()[jj]] == ChunkLifecycle::Requested && job
                                == spec_chunk_priority(key_position(*it.seq()[jj]), center)
                                && chunk_key(job.position) == *it.seq()[jj];
                        assert(it.seq()[jj] == it.seq()[j]);
                    }
                }
                pending.push(job);
                proof {
                    assert forall|x: ChunkPriority|
                        pending@.contains(x) <==> (before.contains(x) || x == job) by {
                        if pending@.contains(x) {
                            let i = choose|i: int| 0 <= i < pending@.len() && pending@[i] == x;
                            if i < before.len() {
                                assert(before[i] == x);
                            }
                        }
                        if before.contains(x) {
                            let i = choose|i: int| 0 <= i < before.len() && before[i] == x;
                            assert(pending@[i] == x);
                        }
                        if x == job {
                            assert(pending@[pending@.len() - 1] == x);
                        }
                    }
                }
            }
            proof {
                assert(requested ==> forall|x: ChunkPriority|
                    pending@.contains(x) <==> (listed.contains(x) || x == fresh));
                assert(!requested ==> pending@ == listed);
                lemma_key_decodes(*key);
                assert(chunk_key(fresh.position) == *it.seq()[j]);
                assert forall|job: ChunkPriority|
                    pending@.contains(job) <==> exists|jj: int|
                        0 <= jj < j + 1 && #[trigger] it.seq()[jj] == it.seq()[jj]
                            && raw[*it.seq()[jj]] == ChunkLifecycle::Requested && job
                            == spec_chunk_priority(key_position(*it.seq()[jj]), center)
                            && chunk_key(job.position) == *it.seq()[jj] by {
                    if requested && job == fresh {
                        assert(it.seq()[j] == it.seq()[j]);
                    }
                    if listed.contains(job) {
                        let jj = choose|jj: int|
                            0 <= jj < j && #[trigger] it.seq()[jj] == it.seq()[jj]
                                && raw[*it.seq()[jj]] == ChunkLifecycle::Requested && job
                                == spec_chunk_priority(key_position(*it.seq()[jj]), center)
                                && chunk_key(job.position) == *it.seq()[jj];
                        assert(it.seq()[jj] == it.seq()[jj]);
                    }
                    if exists|jj: int|
                        0 <= jj < j + 1 && #[trigger] it.seq()[jj] == it.seq()[jj]
                            && raw[*it.seq()[jj]] == ChunkLifecycle::Requested && job
                            == spec_chunk_priority(key_position(*it.seq()[jj]), center)
                            && chunk_key(job.position) == *it.seq()[jj] {
                        let jj = choose|jj: int|
                            0 <= jj < j + 1 && #[trigger] it.seq()[jj] == it.seq()[jj]
                                && raw[*it.seq()[jj]] == ChunkLifecycle::Requested && job
                                == spec_chunk_priority(key_position(*it.seq()[jj]), center)
                                && chunk_key(job.position) == *it.seq()[jj];
                        if jj < j {
                            assert(listed.contains(job));
                        }
                    }
                }
                lemma_jobs_done(it.seq(), raw, tracked_states, pending@, center, j + 1);
            }
        }
        self.pending = pending;
    }

    /// Hands out the nearest requested chunk and marks it generating; queued jobs
    /// for chunks no longer requested are dropped on the way.
    pub fn take_next_generation(&mut self) -> (r: Option<ChunkPos>)
        requires
            old(self).wf(),
        ensures
            final(self).wf(),
            match r {
                Some(position) => {
                    &&& old(self)@.states.get(position) == Some(ChunkLifecycle::Requested)
                    &&& final(self)@.states == old(self)@.states.insert(
                        position,
                        ChunkLifecycle::Generating,
                    )
                    &&& exists|job: ChunkPriority|
                        #[trigger] old(self)@.pending.contains(job) && job.position == position && (
                        forall|x: ChunkPriority|
                            old(self)@.pending.contains(x) && old(self)@.states.get(x.position)
                                == Some(ChunkLifecycle::Requested) && x != job ==> runs_before(
                                job,
                                x,
                            )) && (forall|x: ChunkPriority|
                            final(self)@.pending.contains(x) <==> (old(self)@.pending.contains(x)
                                && runs_before(job, x)))
                },
                None => {
                    &&& final(self)@.states == old(self)@.states
                    &&& final(self)@.pending.len() == 0
                    &&& forall|x: ChunkPriority|
                        old(self)@.pending.contains(x) ==> old(self)@.states.get(x.position)
                            != Some(ChunkLifecycle::Requested)
                },
            },
    {
        let ghost start = self.pending@;
        let ghost mut last: Option<ChunkPriority> = None;
        loop
            invariant
                self.wf(),
                self@.states == old(self)@.states,
                start == old(self)@.pending,
                forall|x: ChunkPriority|
                    self.pending@.contains(x) <==> (start.contains(x) && (last is None || runs_before(
                        last->0,
                        x,
                    ))),
                forall|x: ChunkPriority|
                    start.contains(x) && !self.pending@.contains(x) ==> self@.states.get(x.position)
                        != Some(ChunkLifecycle::Requested),
            decreases self.pending@.len(),
        {
            if self.pending.len() == 0 {
                return None;
            }
            let mut best: usize = 0;
            let mut k: usize = 1;
            while k < self.pending.len()
                invariant
                    0 <= best < k <= self.pending@.len(),
                    forall|m: int|
                        0 <= m < k ==> self.pending@[m] == self.pending@[best as int] || runs_before(
                            self.pending@[best as int],
                            #[trigger] self.pending@[m],
                        ),
                decreases self.pending@.len() - k,
            {
                if runs_first(self.pending[k], self.pending[best]) {
                    proof {
                        assert forall|m: int| 0 <= m < k + 1 implies self.pending@[m]
                            == self.pending@[k as int] || runs_before(
                            self.pending@[k as int],
                            #[trigger] self.pending@[m],
                        ) by {
                            lemma_runs_before_order(
                                self.pending@[k as int],
                                self.pending@[best as int],
                                self.pending@[m],
                            );
                        }
                    }
                    best = k;
                }
                proof {
                    lemma_runs_before_order(
                        self.pending@[best as int],
                        self.pending@[k as int],
                        self.pending@[k as int],
                    );
                }
                k += 1;
            }
            let ghost before = self.pending@;
            let job = self.pending.remove(best);
            proof {
                lemma_remove_distinct(before, best as int);
                assert(job == before[best as int]);
                assert(before.contains(job));
                assert(start.contains(job) && (last is None || runs_before(last->0, job)));
                assert forall|x: ChunkPriority|
                    self.pending@.contains(x) <==> (start.contains(x) && runs_before(job, x)) by {
                    lemma_runs_before_order(job, x, x);
                    if start.contains(x) && runs_before(job, x) {
                        if let Some(previous) = last {
                            lemma_runs_before_order(previous, job, x);
                        }
                    }
                    if before.contains(x) && x != job {
                        let m = choose|m: int| 0 <= m < before.len() && before[m] == x;
                        assert(before[m] == before[best as int] || runs_before(
                            before[best as int],
                            before[m],
                        ));
                    }
                }
                last = Some(job);
            }
            let taken = self.transition(
                job.position,
                &[ChunkLifecycle::Requested],
                ChunkLifecycle::Generating,
            );
            if taken {
                proof {
                    assert forall|x: ChunkPriority|
                        start.contains(x) && old(self)@.states.get(x.position) == Some(
                            ChunkLifecycle::Requested,
                        ) && x != job implies runs_before(job, x) by {
                        lemma_runs_before_order(job, x, x);
                        if !runs_before(job, x) {
                            assert(!self.pending@.contains(x));
                            if before.contains(x) {
                                let m = choose|m: int| 0 <= m < before.len() && before[m] == x;
                                assert(before[m] == before[best as int] || runs_before(
                                    before[best as int],
                                    before[m],
                                ));
                            }
                        }
                    }
                    assert(start.contains(job));
                }
                return Some(job.position);
            }
        }
    }

    /// Moves a generating chunk to generated.
    pub fn finish_generation(&mut self, position: ChunkPos) -> (r: bool)
        requires
            old(self).wf(),
        ensures
            final(self).wf(),
            r == (old(self)@.states.get(position) == Some(ChunkLifecycle::Generating)),
            final(self)@.states == if r {
                old(self)@.states.insert(position, ChunkLifecycle::Generated)
            } else {
                old(self)@.states
            },
            final(self)@.pending == old(self)@.pending,
    {
        self.transition(position, &[ChunkLifecycle::Generating], ChunkLifecycle::Generated)
    }

    /// Moves a generated or ready chunk to meshing.
    pub fn begin_meshing(&mut self, position: ChunkPos) -> (r: bool)
        requires
            old(self).wf(),
        ensures
            final(self).wf(),
            r == (old(self)@.states.get(position) == Some(ChunkLifecycle::Generated) || old(
                self,
            )@.states.get(position) == Some(ChunkLifecycle::Ready)),
            final(self)@.states == if r {
                old(self)@.states.insert(position, ChunkLifecycle::Meshing)
            } else {
                old(self)@.states
            },
            final(self)@.pending == old(self)@.pending,
    {
        self.transition(
            position,
            &[ChunkLifecycle::Generated, ChunkLifecycle::Ready],
            ChunkLifecycle::Meshing,
        )
    }

    /// Returns a meshing chunk to generated, so that it is meshed again.
    pub fn retry_meshing(&mut self, position: ChunkPos) -> (r: bool)
        requires
            old(self).wf(),
        ensures
            final(self).wf(),
            r == (old(self)@.states.get(position) == Some(ChunkLifecycle::Meshing)),
            final(self)@.states == if r {
                old(self)@.states.insert(position, ChunkLifecycle::Generated)
            } else {
                old(self)@.states
            },
            final(self)@.pending == old(self)@.pending,
    {
        self.transition(position, &[ChunkLifecycle::Meshing], ChunkLifecycle::Generated)
    }

    /// Moves a meshing chunk to ready.
    pub fn finish_meshing(&mut self, position: ChunkPos) -> (r: bool)
        requires
            old(self).wf(),
        ensures
            final(self).wf(),
            r == (old(self)@.states.get(position) == Some(ChunkLifecycle::Meshing)),
            final(self)@.states == if r {
                old(self)@.states.insert(position, ChunkLifecycle::Ready)
            } else {
                old(self)@.states
            },
            final(self)@.pending == old(self)@.pending,
    {
        self.transition(position, &[ChunkLifecycle::Meshing], ChunkLifecycle::Ready)
    }

    /// Moves `position` to `next` when its current state is one of `allowed`.
    fn transition(&mut self, position: ChunkPos, allowed: &[ChunkLifecycle], next: ChunkLifecycle) -> (r:
        bool)
        requires
            old(self).wf(),
        ensures
            final(self).wf(),
            r == (old(self)@.states.contains_key(position) && allowed@.contains(
                old(self)@.states[position],
            )),
            final(self)@.states == if r {
                old(self)@.states.insert(position, next)
            } else {
                old(self)@.states
            },
            final(self)@.pending == old(self)@.pending,
    {
        let key = position_key(position);
        let current = match self.states.get(&key) {
            Some(state) => *state,
            None => {
                return false;
            },
        };
        let mut permitted = false;
        let mut i: usize = 0;
        while i < allowed.len()
            invariant
                i <= allowed@.len(),
                permitted == exists|m: int| 0 <= m < i && allowed@[m] == current,
            decreases allowed@.len() - i,
        {
            if allowed[i] == current {
                permitted = true;
            }
            i += 1;
        }
        if !permitted {
            return false;
        }
        self.states.insert(key, next);
        proof {
            self.lemma_insert_view(old(self).states@, position, next);
        }
        true
    }
}

/// Removing one entry of a sequence without repeats removes exactly that value.
proof fn lemma_remove_distinct(s: Seq<ChunkPriority>, i: int)
    requires
        s.no_duplicates(),
        0 <= i < s.len(),
    ensures
        s.remove(i).no_duplicates(),
        forall|x: ChunkPriority| s.remove(i).contains(x) <==> (s.contains(x) && x != s[i]),
{
    let r = s.remove(i);
    assert forall|a: int, b: int| 0 <= a < r.len() && 0 <= b < r.len() && a != b implies r[a]
        != r[b] by {
        let sa = if a < i {
            a
        } else {
            a + 1
        };
        let sb = if b < i {
            b
        } else {
            b + 1
        };
        assert(r[a] == s[sa] && r[b] == s[sb]);
    }
    assert forall|x: ChunkPriority| r.contains(x) <==> (s.contains(x) && x != s[i]) by {
        if r.contains(x) {
            let a = choose|a: int| 0 <= a < r.len() && r[a] == x;
            let sa = if a < i {
                a
            } else {
                a + 1
            };
            assert(s[sa] == x);
        }
        if s.contains(x) && x != s[i] {
            let a = choose|a: int| 0 <= a < s.len() && s[a] == x;
            if a < i {
                assert(r[a] == x);
            } else {
                assert(r[a - 1] == x);
            }
        }
    }
}

impl Default for ChunkGenerationQueue {
    fn default() -> (r: Self)
        ensures
            r.wf(),
            r@.states == Map::<ChunkPos, ChunkLifecycle>::empty(),
            r@.pending == Seq::<ChunkPriority>::empty(),
    {
        Self::new()
    }
}

/// Squared distance between two chunk positions, in chunks.
pub open spec fn squared_chunk_distance(a: ChunkPos, b: ChunkPos) -> int {
    (a.x - b.x) * (a.x - b.x) + (a.y - b.y) * (a.y - b.y) + (a.z - b.z) * (a.z - b.z)
}

/// A job's first key is the full squared distance in space between its chunk
/// and the centre, height included, and its second the squared distance
/// ignoring height; so of two chunks the one nearer in space always runs first,
/// however their heights differ.
pub proof fn lemma_priority_is_squared_distance(p: ChunkPos, q: ChunkPos, center: ChunkPos)
    ensures
        spec_chunk_priority(p, center).distance_squared == squared_chunk_distance(p, center),
        spec_chunk_priority(p, center).horizontal_squared == (p.x - center.x) * (p.x - center.x) + (p.z
            - center.z) * (p.z - center.z),
        squared_chunk_distance(p, center) < squared_chunk_distance(q, center) ==> runs_before(
            spec_chunk_priority(p, center),
            spec_chunk_priority(q, center),
        ),
{
    assert forall|a: ChunkPos| #![trigger spec_chunk_priority(a, center)]
        true implies spec_chunk_priority(a, center).distance_squared == squared_chunk_distance(a, center)
            && spec_chunk_priority(a, center).horizontal_squared == (a.x - center.x) * (a.x - center.x)
            + (a.z - center.z) * (a.z - center.z) by {
        let dx = a.x - center.x;
        let dy = a.y - center.y;
        let dz = a.z - center.z;
        assert(0 <= dx * dx <= 0x1_0000_0000_0000_0000 && 0 <= dy * dy <= 0x1_0000_0000_0000_0000
            && 0 <= dz * dz <= 0x1_0000_0000_0000_0000) by (nonlinear_arith)
            requires
                -0x1_0000_0000 <= dx <= 0x1_0000_0000,
                -0x1_0000_0000 <= dy <= 0x1_0000_0000,
                -0x1_0000_0000 <= dz <= 0x1_0000_0000,
        ;
    }
}

} // verus!
