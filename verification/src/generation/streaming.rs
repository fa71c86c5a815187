//! Decisions of player-relative chunk streaming: which chunks the window needs,
//! what happens to a finished generation task, and which chunks to load or drop.

use std::collections::HashSet;

use vstd::prelude::*;

use crate::chunk::{
    chunk_key, face_adjacent, lemma_key_injective, marked_dirty, position_key, Chunk, ChunkStorage,
    ChunkView,
};
use crate::coordinates::ChunkPos;

use super::queue::{ChunkGenerationQueue, ChunkLifecycle};

verus! {

pub const DEFAULT_WORLD_MIN_Y: i32 = -64;
pub const DEFAULT_WORLD_MAX_Y: i32 = 192;

/// Runtime configuration for the loaded chunk window.
#[derive(Clone, Copy, Debug, PartialEq, Eq, Structural)]
pub struct GenerationSettings {
    pub seed: u64,
    /// Horizontal render radius measured in chunks. The X/Z footprint is circular.
    pub render_distance_chunks: i32,
    /// Inclusive lower world-block boundary.
    pub world_min_y: i32,
    /// Exclusive upper world-block boundary.
    pub world_max_y: i32,
    /// Maximum number of terrain tasks running concurrently.
    pub max_concurrent_generation_jobs: usize,
}

impl Default for GenerationSettings {
    fn default() -> (r: Self)
        ensures
            r == (GenerationSettings {
                seed: 0,
                render_distance_chunks: 8,
                world_min_y: DEFAULT_WORLD_MIN_Y,
                world_max_y: DEFAULT_WORLD_MAX_Y,
                max_concurrent_generation_jobs: 4,
            }),
    {
        GenerationSettings {
            seed: 0,
            render_distance_chunks: 8,
            world_min_y: DEFAULT_WORLD_MIN_Y,
            world_max_y: DEFAULT_WORLD_MAX_Y,
            max_concurrent_generation_jobs: 4,
        }
    }
}

/// A set of chunk positions with constant-time membership.
#[derive(Debug)]
pub struct ChunkSet {
    keys: HashSet<u128>,
    positions: Vec<ChunkPos>,
}

impl View for ChunkSet {
    type V = Set<ChunkPos>;

    closed spec fn view(&self) -> Set<ChunkPos> {
        self.positions@.to_set()
    }
}

impl ChunkSet {
    /// The key table holds exactly the keys of the listed positions, each listed once.
    pub closed spec fn wf(self) -> bool {
        &&& self.positions@.no_duplicates()
        &&& forall|p: ChunkPos| #[trigger] self.keys@.contains(chunk_key(p)) <==> self.positions@.contains(p)
    }

    pub fn new() -> (r: Self)
        ensures
            r.wf(),
            r@ == Set::<ChunkPos>::empty(),
    {
        let r = ChunkSet { keys: HashSet::new(), positions: Vec::new() };
        assert(r@ =~= Set::<ChunkPos>::empty());
        r
    }

    pub fn contains(&self, position: ChunkPos) -> (r: bool)
        requires
            self.wf(),
        ensures
            r == self@.contains(position),
    {
        self.keys.contains(&position_key(position))
    }

    /// Adds `position`; false when it was already present.
    pub fn insert(&mut self, position: ChunkPos) -> (r: bool)
        requires
            old(self).wf(),
        ensures
            final(self).wf(),
            r == !old(self)@.contains(position),
            final(self)@ == old(self)@.insert(position),
    {
        let key = position_key(position);
        if self.keys.contains(&key) {
            return false;
        }
        let ghost before = self.positions@;
        self.keys.insert(key);
        self.positions.push(position);
        proof {
            assert forall|p: ChunkPos| #[trigger] self.positions@.contains(p) <==> (before.contains(p)
                || p == position) by {
                if self.positions@.contains(p) {
                    let i = choose|i: int| 0 <= i < self.positions@.len() && self.positions@[i] == p;
                    if i < before.len() {
                        assert(before[i] == p);
                    }
                }
                if before.contains(p) {
                    let i = choose|i: int| 0 <= i < before.len() && before[i] == p;
                    assert(self.positions@[i] == p);
                }
                if p == position {
                    assert(self.positions@[before.len() as int] == p);
                }
            }
            assert forall|p: ChunkPos| #[trigger] self.keys@.contains(chunk_key(p))
                <==> self.positions@.contains(p) by {
                lemma_key_injective(p, position);
            }
            assert forall|i: int, j: int|
                0 <= i < self.positions@.len() && 0 <= j < self.positions@.len() && i != j implies self.positions@[i]
                != self.positions@[j] by {
                if j == before.len() {
                    assert(before.contains(self.positions@[i]) || i == j);
                }
                if i == before.len() {
                    assert(before.contains(self.positions@[j]) || i == j);
                }
            }
            assert(self@ =~= old(self)@.insert(position));
        }
        true
    }

    pub fn len(&self) -> (r: usize)
        requires
            self.wf(),
        ensures
            r == self@.len(),
            self@.finite(),
    {
        proof {
            self.positions@.unique_seq_to_set();
        }
        self.positions.len()
    }

    pub fn is_empty(&self) -> (r: bool)
        requires
            self.wf(),
        ensures
            r == (self@.len() == 0),
    {
        self.len() == 0
    }

    /// Every member, each listed once.
    pub fn positions(&self) -> (r: &[ChunkPos])
        requires
            self.wf(),
        ensures
            r@.to_set() == self@,
            r@.no_duplicates(),
    {
        self.positions.as_slice()
    }
}

/// Inclusive range of chunk layers between the world's vertical limits.
pub open spec fn spec_vertical_chunk_bounds(settings: GenerationSettings) -> Option<(int, int)> {
    if settings.world_min_y >= settings.world_max_y {
        None
    } else {
        Some((settings.world_min_y / 16, (settings.world_max_y - 1) / 16))
    }
}

/// Inclusive range of chunk layers between the world's vertical limits, or
/// `None` when the limits leave no room.
pub fn vertical_chunk_bounds(settings: &GenerationSettings) -> (r: Option<(i32, i32)>)
    ensures
        match r {
            Some((low, high)) => spec_vertical_chunk_bounds(*settings) == Some((low as int, high as int)),
            None => spec_vertical_chunk_bounds(*settings) is None,
        },
{
    if settings.world_min_y >= settings.world_max_y {
        return None;
    }
    let low = match settings.world_min_y.checked_div_euclid(16) {
        Some(low) => low,
        None => 0,
    };
    let high = match (settings.world_max_y - 1).checked_div_euclid(16) {
        Some(high) => high,
        None => 0,
    };
    Some((low, high))
}

/// The chunks of the streaming window around `center`: every layer between the
/// world limits, within the render radius horizontally (a disc, not a square).
pub open spec fn in_window(position: ChunkPos, center: ChunkPos, settings: GenerationSettings) -> bool {
    let radius = if settings.render_distance_chunks < 0 {
        0
    } else {
        settings.render_distance_chunks as int
    };
    let dx = position.x - center.x;
    let dz = position.z - center.z;
    match spec_vertical_chunk_bounds(settings) {
        Some((low, high)) => low <= position.y <= high && dx * dx + dz * dz <= radius * radius,
        None => false,
    }
}

/// The window's horizontal extent stays inside `i32` around `center`.
pub open spec fn window_fits(center: ChunkPos, settings: GenerationSettings) -> bool {
    let radius = if settings.render_distance_chunks < 0 {
        0
    } else {
        settings.render_distance_chunks as int
    };
    &&& i32::MIN <= center.x - radius
    &&& center.x + radius <= i32::MAX
    &&& i32::MIN <= center.z - radius
    &&& center.z + radius <= i32::MAX
}

/// A point of a disc lies in its bounding square.
proof fn lemma_disc_in_square(dx: int, dz: int, radius: int)
    by (nonlinear_arith)
    requires
        dx * dx + dz * dz <= radius * radius,
        radius >= 0,
    ensures
        -radius <= dx <= radius,
        -radius <= dz <= radius,
{
}

/// Squares of offsets within the radius stay far from the `i64` limits.
proof fn lemma_square_bounds(dx: int, dz: int, radius: int)
    by (nonlinear_arith)
    requires
        0 <= radius <= 0x7fff_ffff,
        -radius <= dx <= radius,
        -radius <= dz <= radius,
    ensures
        0 <= dx * dx <= radius * radius,
        0 <= dz * dz <= radius * radius,
        radius * radius <= 0x3fff_ffff_0000_0001,
{
}

/// Every chunk of the streaming window around `center`.
pub fn required_chunk_positions(center: ChunkPos, settings: &GenerationSettings) -> (r: ChunkSet)
    requires
        window_fits(center, *settings),
    ensures
        r.wf(),
        forall|p: ChunkPos| r@.contains(p) <==> in_window(p, center, *settings),
{
    let radius: i32 = if settings.render_distance_chunks < 0 {
        0
    } else {
        settings.render_distance_chunks
    };
    let mut required = ChunkSet::new();
    let (low, high) = match vertical_chunk_bounds(settings) {
        Some(range) => range,
        None => {
            return required;
        },
    };
    proof {
        lemma_square_bounds(0, 0, radius as int);
    }
    let radius_squared = radius as i64 * radius as i64;
    let mut chunk_y = low;
    while chunk_y <= high
        invariant
            required.wf(),
            window_fits(center, *settings),
            spec_vertical_chunk_bounds(*settings) == Some((low as int, high as int)),
            radius == if settings.render_distance_chunks < 0 {
                0
            } else {
                settings.render_distance_chunks
            },
            radius_squared == radius * radius,
            low <= chunk_y <= high + 1,
            high < i32::MAX,
            forall|p: ChunkPos|
                required@.contains(p) <==> (in_window(p, center, *settings) && p.y < chunk_y),
        decreases high + 1 - chunk_y,
    {
        let mut offset_z: i64 = -(radius as i64);
        proof {
            assert forall|p: ChunkPos| in_window(p, center, *settings) implies p.z - center.z
                >= -radius by {
                lemma_disc_in_square(p.x - center.x, p.z - center.z, radius as int);
            }
        }
        while offset_z <= radius as i64
            invariant
                required.wf(),
                window_fits(center, *settings),
                spec_vertical_chunk_bounds(*settings) == Some((low as int, high as int)),
                radius == if settings.render_distance_chunks < 0 {
                    0
                } else {
                    settings.render_distance_chunks
                },
                radius_squared == radius * radius,
                low <= chunk_y <= high,
                high < i32::MAX,
                -radius <= offset_z <= radius + 1,
                forall|p: ChunkPos|
                    required@.contains(p) <==> (in_window(p, center, *settings) && (p.y < chunk_y
                        || (p.y == chunk_y && p.z - center.z < offset_z))),
            decreases radius + 1 - offset_z,
        {
            let mut offset_x: i64 = -(radius as i64);
            proof {
                assert forall|p: ChunkPos| in_window(p, center, *settings) implies p.x - center.x
                    >= -radius by {
                    lemma_disc_in_square(p.x - center.x, p.z - center.z, radius as int);
                }
            }
            while offset_x <= radius as i64
                invariant
                    required.wf(),
                    window_fits(center, *settings),
                    spec_vertical_chunk_bounds(*settings) == Some((low as int, high as int)),
                    radius == if settings.render_distance_chunks < 0 {
                        0
                    } else {
                        settings.render_distance_chunks
                    },
                    radius_squared == radius * radius,
                    low <= chunk_y <= high,
                    -radius <= offset_z <= radius,
                    -radius <= offset_x <= radius + 1,
                    forall|p: ChunkPos|
                        required@.contains(p) <==> (in_window(p, center, *settings) && (p.y
                            < chunk_y || (p.y == chunk_y && (p.z - center.z < offset_z || (p.z
                            - center.z == offset_z && p.x - center.x < offset_x))))),
                decreases radius + 1 - offset_x,
            {
                proof {
                    lemma_square_bounds(offset_x as int, offset_z as int, radius as int);
                }
                let distance_squared = offset_x * offset_x + offset_z * offset_z;
                let position = ChunkPos::new(
                    (center.x as i64 + offset_x) as i32,
                    chunk_y,
                    (center.z as i64 + offset_z) as i32,
                );
                if distance_squared <= radius_squared {
                    required.insert(position);
                }
                proof {
                    assert forall|p: ChunkPos|
                        required@.contains(p) <==> (in_window(p, center, *settings) && (p.y
                            < chunk_y || (p.y == chunk_y && (p.z - center.z < offset_z || (p.z
                            - center.z == offset_z && p.x - center.x < offset_x + 1))))) by {
                        if p == position {
                            assert(p.x - center.x == offset_x && p.z - center.z == offset_z);
                        }
                    }
                }
                offset_x += 1;
            }
            proof {
                assert forall|p: ChunkPos|
                    required@.contains(p) <==> (in_window(p, center, *settings) && (p.y < chunk_y
                        || (p.y == chunk_y && p.z - center.z < offset_z + 1))) by {
                    if in_window(p, center, *settings) && p.y == chunk_y && p.z - center.z
                        == offset_z {
                        lemma_disc_in_square(p.x - center.x, p.z - center.z, radius as int);
                    }
                }
            }
            offset_z += 1;
        }
        proof {
            assert forall|p: ChunkPos|
                required@.contains(p) <==> (in_window(p, center, *settings) && p.y < chunk_y + 1) by {
                if in_window(p, center, *settings) && p.y == chunk_y {
                    lemma_disc_in_square(p.x - center.x, p.z - center.z, radius as int);
                }
            }
        }
        chunk_y += 1;
    }
    required
}

/// Taking one more element of a sequence adds exactly that element.
proof fn lemma_take_one_more(s: Seq<ChunkPos>, n: int, p: ChunkPos)
    requires
        0 <= n < s.len(),
    ensures
        s.take(n + 1).contains(p) <==> (s.take(n).contains(p) || p == s[n]),
{
    if s.take(n + 1).contains(p) {
        let m = choose|m: int| 0 <= m < n + 1 && #[trigger] s.take(n + 1)[m] == p;
        if m < n {
            assert(s.take(n)[m] == p);
        }
    }
    if s.take(n).contains(p) {
        let m = choose|m: int| 0 <= m < n && #[trigger] s.take(n)[m] == p;
        assert(s.take(n + 1)[m] == p);
    }
    if p == s[n] {
        assert(s.take(n + 1)[n] == p);
    }
}

/// Applies a finished generation task in the main world step: the chunk is
/// stored only while it is still wanted, still generating, generated with the
/// current settings (`cave_settings_match` compares the cave settings), and
/// not loaded by any other producer. Otherwise its lifecycle is reset so the
/// chunk is requested again only if still wanted and not loaded.
pub fn apply_generation_result(
    position: ChunkPos,
    chunk: Chunk,
    result_seed: u64,
    cave_settings_match: bool,
    required: &ChunkSet,
    settings: &GenerationSettings,
    storage: &mut ChunkStorage,
    queue: &mut ChunkGenerationQueue,
) -> (r: bool)
    requires
        required.wf(),
        old(queue).wf(),
    ensures
        final(queue).wf(),
        final(queue)@.pending == old(queue)@.pending,
        r == (required@.contains(position) && result_seed == settings.seed && cave_settings_match
            && old(queue)@.states.get(position) == Some(ChunkLifecycle::Generating) && !old(
            storage,
        )@.contains_key(position)),
        r ==> marked_dirty(
            old(storage)@.insert(position, chunk@),
            final(storage)@,
            |q: ChunkPos| face_adjacent(position, q),
        ),
        r ==> final(queue)@.states == old(queue)@.states.insert(position, ChunkLifecycle::Generated),
        !r ==> final(storage)@ == old(storage)@,
        !r ==> final(queue)@.states == if old(storage)@.contains_key(position) {
            old(queue)@.states.insert(position, ChunkLifecycle::Generated)
        } else if required@.contains(position) {
            old(queue)@.states.insert(position, ChunkLifecycle::Requested)
        } else {
            old(queue)@.states.remove(position)
        },
{
    let still_expected = required.contains(position) && result_seed == settings.seed
        && cave_settings_match && queue.state(position) == Some(ChunkLifecycle::Generating)
        && !storage.contains_chunk(position);
    if still_expected {
        storage.insert_chunk(position, chunk);
        queue.finish_generation(position);
        return true;
    }
    let ghost cancelled = old(queue)@.states.remove(position);
    queue.cancel(position);
    if storage.contains_chunk(position) {
        queue.register_generated(position);
        assert(final(queue)@.states =~= old(queue)@.states.insert(
            position,
            ChunkLifecycle::Generated,
        ));
    } else if required.contains(position) {
        queue.request(position);
        assert(queue@.states =~= old(queue)@.states.insert(position, ChunkLifecycle::Requested));
    }
    false
}

/// Counters of one streaming step.
#[derive(Clone, Copy, Debug, Default, PartialEq, Eq, Structural)]
pub struct StreamingUpdate {
    pub requested: usize,
    pub started: usize,
    pub applied: usize,
    pub discarded: usize,
    pub unloaded: usize,
}

impl StreamingUpdate {
    /// Whether the step changed anything.
    pub fn has_activity(self) -> (r: bool)
        ensures
            r == (self.requested != 0 || self.started != 0 || self.applied != 0 || self.discarded
                != 0 || self.unloaded != 0),
    {
        self.requested != 0 || self.started != 0 || self.applied != 0 || self.discarded != 0
            || self.unloaded != 0
    }
}

/// Lifecycle after a streaming step of a chunk outside the window: an in-flight
/// generation is kept for its worker to finish, everything else is forgotten.
pub open spec fn dropped_state(before: Option<ChunkLifecycle>) -> Option<ChunkLifecycle> {
    if before == Some(ChunkLifecycle::Generating) {
        before
    } else {
        None
    }
}

/// A chunk of the window that is not loaded gets a new request: it was untracked,
/// or its generation task was lost.
pub open spec fn needs_request(stored: bool, before: Option<ChunkLifecycle>, running: bool) -> bool {
    !stored && (before is None || (before == Some(ChunkLifecycle::Generating) && !running))
}

/// Lifecycle after a streaming step of a chunk inside the window.
pub open spec fn kept_state(stored: bool, before: Option<ChunkLifecycle>, running: bool) -> Option<
    ChunkLifecycle,
> {
    if stored {
        match before {
            Some(ChunkLifecycle::Generated) | Some(ChunkLifecycle::Meshing) | Some(
                ChunkLifecycle::Ready,
            ) => before,
            _ => Some(ChunkLifecycle::Generated),
        }
    } else if needs_request(stored, before, running) {
        Some(ChunkLifecycle::Requested)
    } else {
        before
    }
}

/// Brings the loaded set and the lifecycle registry in line with the window:
/// chunks outside it are unloaded and forgotten (in-flight generations stay
/// keep their state until their worker finishes), chunks inside it that are loaded are
/// registered as generated, and the rest are requested; a chunk stuck in
/// generation without a running task (`running`) is requested again.
pub fn update_requests(
    storage: &mut ChunkStorage,
    queue: &mut ChunkGenerationQueue,
    running: &ChunkSet,
    required: &ChunkSet,
) -> (r: StreamingUpdate)
    requires
        old(queue).wf(),
        running.wf(),
        required.wf(),
    ensures
        final(queue).wf(),
        forall|p: ChunkPos|
            #[trigger] final(storage)@.contains_key(p) <==> (old(storage)@.contains_key(p)
                && required@.contains(p)),
        forall|p: ChunkPos|
            #[trigger] final(storage)@.contains_key(p) ==> final(storage)@[p].blocks == old(
                storage,
            )@[p].blocks,
        forall|p: ChunkPos|
            #[trigger] final(queue)@.states.get(p) == if required@.contains(p) {
                kept_state(
                    old(storage)@.contains_key(p),
                    old(queue)@.states.get(p),
                    running@.contains(p),
                )
            } else {
                dropped_state(old(queue)@.states.get(p))
            },
        r.unloaded == old(storage)@.dom().filter(|p: ChunkPos| !required@.contains(p)).len(),
        r.requested == required@.filter(
            |p: ChunkPos|
                needs_request(
                    old(storage)@.contains_key(p),
                    old(queue)@.states.get(p),
                    running@.contains(p),
                ),
        ).len(),
        r.started == 0 && r.applied == 0 && r.discarded == 0,
{
    let mut known = ChunkSet::new();
    let queued = queue.positions();
    let stored = storage.positions();
    let mut i: usize = 0;
    while i < queued.len()
        invariant
            known.wf(),
            i <= queued@.len(),
            forall|p: ChunkPos|
                known@.contains(p) <==> exists|m: int| 0 <= m < i && #[trigger] queued@[m] == p,
        decreases queued@.len() - i,
    {
        known.insert(queued[i]);
        i += 1;
    }
    let mut k: usize = 0;
    while k < stored.len()
        invariant
            known.wf(),
            k <= stored@.len(),
            forall|p: ChunkPos|
                known@.contains(p) <==> (queued@.contains(p) || exists|m: int|
                    0 <= m < k && #[trigger] stored@[m] == p),
        decreases stored@.len() - k,
    {
        known.insert(stored[k]);
        k += 1;
    }
    let ghost storage_before = storage@;
    let ghost states_before = queue@.states;
    let tracked_list = known.positions();
    proof {
        assert forall|p: ChunkPos|
            tracked_list@.contains(p) <==> (states_before.contains_key(p)
                || storage_before.contains_key(p)) by {
            assert(tracked_list@.contains(p) == tracked_list@.to_set().contains(p));
            if storage_before.contains_key(p) {
                assert(stored@.contains(p));
                let m = choose|m: int| 0 <= m < stored@.len() && stored@[m] == p;
                assert(stored@[m] == p);
            }
            if states_before.contains_key(p) {
                assert(queued@.contains(p));
            }
            if exists|m: int| 0 <= m < stored@.len() && #[trigger] stored@[m] == p {
                let m = choose|m: int| 0 <= m < stored@.len() && #[trigger] stored@[m] == p;
                assert(stored@.contains(p));
            }
        }
    }
    let mut unloaded: usize = 0;
    let ghost mut removed: Set<ChunkPos> = Set::empty();
    let mut t: usize = 0;
    while t < tracked_list.len()
        invariant
            queue.wf(),
            required.wf(),
            t <= tracked_list@.len(),
            tracked_list@.no_duplicates(),
            forall|p: ChunkPos|
                tracked_list@.contains(p) <==> (states_before.contains_key(p)
                    || storage_before.contains_key(p)),
            forall|p: ChunkPos|
                #[trigger] storage@.contains_key(p) <==> (storage_before.contains_key(p) && (
                required@.contains(p) || !tracked_list@.take(t as int).contains(p))),
            forall|p: ChunkPos|
                #[trigger] storage@.contains_key(p) ==> storage@[p].blocks
                    == storage_before[p].blocks,
            forall|p: ChunkPos|
                #[trigger] queue@.states.get(p) == if tracked_list@.take(t as int).contains(p)
                    && !required@.contains(p) {
                    dropped_state(states_before.get(p))
                } else {
                    states_before.get(p)
                },
            removed.finite(),
            unloaded == removed.len(),
            unloaded <= t,
            forall|p: ChunkPos|
                #[trigger] removed.contains(p) <==> (tracked_list@.take(t as int).contains(p)
                    && !required@.contains(p) && storage_before.contains_key(p)),
        decreases tracked_list@.len() - t,
    {
        let position = tracked_list[t];
        let ghost taken = tracked_list@.take(t as int);
        assert(tracked_list@.take(t + 1) =~= taken.push(position));
        assert(!taken.contains(position)) by {
            if taken.contains(position) {
                let m = choose|m: int| 0 <= m < t && taken[m] == position;
                assert(tracked_list@[m] == tracked_list@[t as int]);
            }
        }
        let ghost states_at_start = queue@.states;
        assert(states_at_start.get(position) == states_before.get(position));
        if !required.contains(position) {
            let in_flight = match queue.state(position) {
                Some(ChunkLifecycle::Generating) => true,
                _ => false,
            };
            if !in_flight {
                queue.cancel(position);
            }
            assert(queue@.states.get(position) == dropped_state(states_before.get(position)));
            let ghost before_removal = storage@;
            if storage.remove_chunk(position).is_some() {
                proof {
                    removed = removed.insert(position);
                }
                unloaded = unloaded + 1;
            }
        }
        proof {
            assert forall|p: ChunkPos|
                #[trigger] queue@.states.get(p) == if tracked_list@.take(t + 1).contains(p)
                    && !required@.contains(p) {
                    dropped_state(states_before.get(p))
                } else {
                    states_before.get(p)
                } by {
                lemma_take_one_more(tracked_list@, t as int, p);
                if p != position {
                    assert(queue@.states.get(p) == states_at_start.get(p));
                }
            }
            assert forall|p: ChunkPos|
                #[trigger] storage@.contains_key(p) <==> (storage_before.contains_key(p) && (
                required@.contains(p) || !tracked_list@.take(t + 1).contains(p))) by {
                lemma_take_one_more(tracked_list@, t as int, p);
            }
            assert forall|p: ChunkPos|
                #[trigger] removed.contains(p) <==> (tracked_list@.take(t + 1).contains(p)
                    && !required@.contains(p) && storage_before.contains_key(p)) by {
                lemma_take_one_more(tracked_list@, t as int, p);
            }
        }
        t += 1;
    }
    proof {
        assert(tracked_list@.take(tracked_list@.len() as int) =~= tracked_list@);
        assert(removed =~= storage_before.dom().filter(|p: ChunkPos| !required@.contains(p)));
    }
    let ghost states_kept = queue@.states;
    let ghost storage_kept = storage@;
    let required_list = required.positions();
    let mut requested: usize = 0;
    let ghost mut asked: Set<ChunkPos> = Set::empty();
    let mut j: usize = 0;
    while j < required_list.len()
        invariant
            queue.wf(),
            required.wf(),
            running.wf(),
            storage@ == storage_kept,
            j <= required_list@.len(),
            required_list@.no_duplicates(),
            required_list@.to_set() == required@,
            forall|p: ChunkPos|
                #[trigger] storage_kept.contains_key(p) <==> (storage_before.contains_key(p) && (
                required@.contains(p) || !tracked_list@.contains(p))),
            forall|p: ChunkPos|
                tracked_list@.contains(p) <==> (states_before.contains_key(p)
                    || storage_before.contains_key(p)),
            forall|p: ChunkPos|
                #[trigger] states_kept.get(p) == if tracked_list@.contains(p) && !required@.contains(
                    p,
                ) {
                    dropped_state(states_before.get(p))
                } else {
                    states_before.get(p)
                },
            forall|p: ChunkPos|
                #[trigger] queue@.states.get(p) == if required_list@.take(j as int).contains(p) {
                    kept_state(
                        storage_before.contains_key(p),
                        states_before.get(p),
                        running@.contains(p),
                    )
                } else {
                    states_kept.get(p)
                },
            asked.finite(),
            requested == asked.len(),
            requested <= j,
            forall|p: ChunkPos|
                #[trigger] asked.contains(p) <==> (required_list@.take(j as int).contains(p)
                    && needs_request(
                    storage_before.contains_key(p),
                    states_before.get(p),
                    running@.contains(p),
                )),
        decreases required_list@.len() - j,
    {
        let position = required_list[j];
        let ghost taken = required_list@.take(j as int);
        assert(required_list@.take(j + 1) =~= taken.push(position));
        assert(!taken.contains(position)) by {
            if taken.contains(position) {
                let m = choose|m: int| 0 <= m < j && taken[m] == position;
                assert(required_list@[m] == required_list@[j as int]);
            }
        }
        assert(required@.contains(position)) by {
            assert(required_list@.to_set().contains(position));
        }
        assert(queue@.states.get(position) == states_before.get(position));
        assert(storage@.contains_key(position) == storage_before.contains_key(position));
        let ghost states_at_start = queue@.states;
        let mut asked_now = false;
        if storage.contains_chunk(position) {
            queue.register_generated(position);
        } else {
            let in_flight = match queue.state(position) {
                Some(ChunkLifecycle::Generating) => true,
                _ => false,
            };
            if in_flight && !running.contains(position) {
                queue.cancel(position);
                if queue.request(position) {
                    asked_now = true;
                }
            } else if queue.request(position) {
                asked_now = true;
            }
        }
        assert(queue@.states.get(position) == kept_state(
            storage_before.contains_key(position),
            states_before.get(position),
            running@.contains(position),
        ));
        assert(forall|p: ChunkPos| p != position ==> #[trigger] queue@.states.get(p)
            == states_at_start.get(p));
        if asked_now {
            proof {
                asked = asked.insert(position);
            }
            requested = requested + 1;
        }
        proof {
            assert(asked_now == needs_request(
                storage_before.contains_key(position),
                states_before.get(position),
                running@.contains(position),
            ));
            assert forall|p: ChunkPos|
                #[trigger] queue@.states.get(p) == if required_list@.take(j + 1).contains(p) {
                    kept_state(
                        storage_before.contains_key(p),
                        states_before.get(p),
                        running@.contains(p),
                    )
                } else {
                    states_kept.get(p)
                } by {
                lemma_take_one_more(required_list@, j as int, p);
            }
            assert forall|p: ChunkPos|
                #[trigger] asked.contains(p) <==> (required_list@.take(j + 1).contains(p)
                    && needs_request(
                    storage_before.contains_key(p),
                    states_before.get(p),
                    running@.contains(p),
                )) by {
                lemma_take_one_more(required_list@, j as int, p);
            }
        }
        j += 1;
    }
    proof {
        assert(required_list@.take(required_list@.len() as int) =~= required_list@);
        assert(asked =~= required@.filter(
            |p: ChunkPos|
                needs_request(
                    old(storage)@.contains_key(p),
                    old(queue)@.states.get(p),
                    running@.contains(p),
                ),
        )) by {
            assert forall|p: ChunkPos| asked.contains(p) <==> required@.filter(
                |p: ChunkPos|
                    needs_request(
                        old(storage)@.contains_key(p),
                        old(queue)@.states.get(p),
                        running@.contains(p),
                    ),
            ).contains(p) by {
                if required@.contains(p) {
                    assert(required_list@.to_set().contains(p));
                }
            }
        }
        assert forall|p: ChunkPos|
            #[trigger] queue@.states.get(p) == if required@.contains(p) {
                kept_state(
                    old(storage)@.contains_key(p),
                    old(queue)@.states.get(p),
                    running@.contains(p),
                )
            } else {
                dropped_state(old(queue)@.states.get(p))
            } by {
            if required@.contains(p) {
                assert(required_list@.to_set().contains(p));
            } else {
                if !tracked_list@.contains(p) {
                    assert(!states_before.contains_key(p));
                }
            }
        }
        assert forall|p: ChunkPos|
            #[trigger] storage@.contains_key(p) <==> (old(storage)@.contains_key(p)
                && required@.contains(p)) by {
            if old(storage)@.contains_key(p) {
                assert(tracked_list@.contains(p));
            }
        }
    }
    StreamingUpdate { requested, started: 0, applied: 0, discarded: 0, unloaded }
}

} // verus!
