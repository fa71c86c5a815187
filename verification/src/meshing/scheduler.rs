//! Scheduling of chunk meshing between frames: which worker jobs are still
//! current, which finished meshes are uploaded this frame, and which chunks
//! start a new job. Workers mesh a snapshot; a result counts only while the
//! world seed, the chunk's lifecycle and its mesh revision are unchanged.

use vstd::prelude::*;

use crate::chunk::{ChunkStorage, ChunkView};
use crate::coordinates::ChunkPos;
use crate::generation::queue::{ChunkGenerationQueue, ChunkLifecycle};
use crate::generation::streaming::ChunkSet;

verus! {

/// Bounds on worker pressure and on the work done in one frame.
#[derive(Clone, Copy, Debug, PartialEq, Eq, Structural)]
pub struct MeshingSettings {
    pub max_meshing_tasks: usize,
    pub start_budget_per_frame: usize,
    pub max_mesh_uploads_per_frame: usize,
}

impl Default for MeshingSettings {
    fn default() -> (r: Self)
        ensures
            r == (MeshingSettings {
                max_meshing_tasks: 4,
                start_budget_per_frame: 2,
                max_mesh_uploads_per_frame: 2,
            }),
    {
        MeshingSettings { max_meshing_tasks: 4, start_budget_per_frame: 2, max_mesh_uploads_per_frame: 2 }
    }
}

/// A meshing job: the chunk, and the mesh revision and world seed it meshes.
#[derive(Clone, Copy, Debug, PartialEq, Eq, Structural)]
pub struct MeshJob {
    pub position: ChunkPos,
    pub revision: u64,
    pub seed: u64,
}

/// What happens to a finished mesh this frame.
#[derive(Clone, Copy, Debug, PartialEq, Eq, Structural)]
pub enum ResultAction {
    /// The mesh is current: upload it.
    Upload,
    /// The mesh is stale: drop it.
    Discard,
    /// The upload budget is spent: keep it for a later frame.
    Wait,
}

/// A job still matches the world: same seed, its chunk still meshing, loaded,
/// and at the revision the job meshed.
pub open spec fn job_is_current(
    job: MeshJob,
    seed: u64,
    states: Map<ChunkPos, ChunkLifecycle>,
    chunks: Map<ChunkPos, ChunkView>,
) -> bool {
    &&& job.seed == seed
    &&& states.get(job.position) == Some(ChunkLifecycle::Meshing)
    &&& chunks.contains_key(job.position)
    &&& chunks[job.position].revision == job.revision
}

/// The lifecycle of a chunk whose job was dropped: a meshing chunk goes back
/// to generated while loaded, to be meshed again, and is forgotten once unloaded.
pub open spec fn after_dropped_job(state: Option<ChunkLifecycle>, loaded: bool) -> Option<
    ChunkLifecycle,
> {
    if state == Some(ChunkLifecycle::Meshing) {
        if loaded {
            Some(ChunkLifecycle::Generated)
        } else {
            None
        }
    } else {
        state
    }
}

/// No two jobs are for the same chunk.
pub open spec fn distinct_positions(jobs: Seq<MeshJob>) -> bool {
    forall|i: int, j: int| 0 <= i < j < jobs.len() ==> jobs[i].position != jobs[j].position
}

/// No job among the first `n` is for `p`.
pub open spec fn untouched(jobs: Seq<MeshJob>, n: int, p: ChunkPos) -> bool {
    forall|k: int| 0 <= k < n ==> jobs[k].position != p
}

/// Whether a job is current, as a value.
fn is_current(
    job: MeshJob,
    seed: u64,
    queue: &ChunkGenerationQueue,
    storage: &ChunkStorage,
) -> (r: bool)
    ensures
        r == job_is_current(job, seed, queue@.states, storage@),
{
    if job.seed != seed {
        return false;
    }
    match queue.state(job.position) {
        Some(ChunkLifecycle::Meshing) => {},
        _ => {
            return false;
        },
    }
    match storage.get_chunk(job.position) {
        Some(chunk) => chunk.mesh_revision() == job.revision,
        None => false,
    }
}

/// Drops the job for `position`: a meshing chunk goes back to generated while
/// loaded, and is forgotten otherwise.
fn drop_job(queue: &mut ChunkGenerationQueue, storage: &ChunkStorage, position: ChunkPos)
    requires
        old(queue).wf(),
    ensures
        final(queue).wf(),
        final(queue)@.pending == old(queue)@.pending,
        final(queue)@.states.get(position) == after_dropped_job(
            old(queue)@.states.get(position),
            storage@.contains_key(position),
        ),
        forall|p: ChunkPos|
            p != position ==> #[trigger] final(queue)@.states.get(p) == old(queue)@.states.get(p),
{
    match queue.state(position) {
        Some(ChunkLifecycle::Meshing) => {
            if storage.contains_chunk(position) {
                queue.retry_meshing(position);
            } else {
                queue.cancel(position);
            }
        },
        _ => {},
    }
}

/// Finds the running and finished jobs that no longer match the world and
/// drops them. The result flags each obsolete job; the caller discards those.
/// Jobs of chunks that streaming unloaded are obsolete and forgotten.
pub fn cancel_obsolete_meshing(
    queue: &mut ChunkGenerationQueue,
    storage: &ChunkStorage,
    seed: u64,
    jobs: &Vec<MeshJob>,
) -> (obsolete: Vec<bool>)
    requires
        old(queue).wf(),
        distinct_positions(jobs@),
    ensures
        final(queue).wf(),
        final(queue)@.pending == old(queue)@.pending,
        obsolete@.len() == jobs@.len(),
        forall|k: int|
            0 <= k < jobs@.len() ==> #[trigger] obsolete@[k] == !job_is_current(
                jobs@[k],
                seed,
                old(queue)@.states,
                storage@,
            ),
        forall|k: int|
            0 <= k < jobs@.len() ==> #[trigger] final(queue)@.states.get(jobs@[k].position) == if obsolete@[k] {
                after_dropped_job(
                    old(queue)@.states.get(jobs@[k].position),
                    storage@.contains_key(jobs@[k].position),
                )
            } else {
                old(queue)@.states.get(jobs@[k].position)
            },
        forall|p: ChunkPos|
            untouched(jobs@, jobs@.len() as int, p) ==> #[trigger] final(queue)@.states.get(p)
                == old(queue)@.states.get(p),
{
    let ghost start = queue@.states;
    let mut obsolete: Vec<bool> = Vec::new();
    let mut i: usize = 0;
    while i < jobs.len()
        invariant
            i <= jobs@.len(),
            distinct_positions(jobs@),
            queue.wf(),
            queue@.pending == old(queue)@.pending,
            start == old(queue)@.states,
            obsolete@.len() == i,
            forall|k: int|
                0 <= k < i ==> #[trigger] obsolete@[k] == !job_is_current(
                    jobs@[k],
                    seed,
                    start,
                    storage@,
                ),
            forall|k: int|
                0 <= k < i ==> #[trigger] queue@.states.get(jobs@[k].position) == if obsolete@[k] {
                    after_dropped_job(
                        start.get(jobs@[k].position),
                        storage@.contains_key(jobs@[k].position),
                    )
                } else {
                    start.get(jobs@[k].position)
                },
            forall|p: ChunkPos| untouched(jobs@, i as int, p) ==> #[trigger] queue@.states.get(p) == start.get(p),
        decreases jobs@.len() - i,
    {
        let job = jobs[i];
        assert(untouched(jobs@, i as int, job.position));
        let ghost before = queue@.states;
        let stale = !is_current(job, seed, queue, storage);
        if stale {
            drop_job(queue, storage, job.position);
        }
        obsolete.push(stale);
        proof {
            assert forall|k: int| 0 <= k < i + 1 implies #[trigger] queue@.states.get(
                jobs@[k].position,
            ) == if obsolete@[k] {
                after_dropped_job(
                    start.get(jobs@[k].position),
                    storage@.contains_key(jobs@[k].position),
                )
            } else {
                start.get(jobs@[k].position)
            } by {
                if k < i {
                    assert(jobs@[k].position != job.position);
                }
            }
            assert forall|p: ChunkPos| untouched(jobs@, i + 1, p) implies #[trigger] queue@.states.get(p)
                == start.get(p) by {
                assert(jobs@[i as int].position != p);
            }
        }
        i += 1;
    }
    obsolete
}

/// Settles the finished meshes, in the caller's order: within the upload
/// budget each current mesh is uploaded (its chunk becomes clean and ready)
/// and each stale one is dropped; the rest wait for a later frame.
pub fn accept_meshing_results(
    queue: &mut ChunkGenerationQueue,
    storage: &mut ChunkStorage,
    seed: u64,
    results: &Vec<MeshJob>,
    max_uploads: usize,
) -> (actions: Vec<ResultAction>)
    requires
        old(queue).wf(),
        distinct_positions(results@),
    ensures
        final(queue).wf(),
        final(queue)@.pending == old(queue)@.pending,
        actions@.len() == results@.len(),
        forall|k: int|
            0 <= k < results@.len() ==> #[trigger] actions@[k] == if k >= max_uploads {
                ResultAction::Wait
            } else if job_is_current(results@[k], seed, old(queue)@.states, old(storage)@) {
                ResultAction::Upload
            } else {
                ResultAction::Discard
            },
        forall|k: int|
            0 <= k < results@.len() ==> #[trigger] final(queue)@.states.get(results@[k].position)
                == match actions@[k] {
                ResultAction::Upload => Some(ChunkLifecycle::Ready),
                ResultAction::Discard => after_dropped_job(
                    old(queue)@.states.get(results@[k].position),
                    old(storage)@.contains_key(results@[k].position),
                ),
                ResultAction::Wait => old(queue)@.states.get(results@[k].position),
            },
        forall|p: ChunkPos|
            untouched(results@, results@.len() as int, p) ==> #[trigger] final(queue)@.states.get(p)
                == old(queue)@.states.get(p),
        forall|q: ChunkPos| #[trigger] final(storage)@.contains_key(q) == old(storage)@.contains_key(q),
        forall|k: int|
            0 <= k < results@.len() && actions@[k] == ResultAction::Upload ==> #[trigger] final(storage)@[results@[k].position] == (ChunkView {
                dirty: false,
                ..old(storage)@[results@[k].position]
            }),
        forall|q: ChunkPos|
            #[trigger] old(storage)@.contains_key(q) && (forall|k: int|
                0 <= k < results@.len() && results@[k].position == q ==> actions@[k]
                    != ResultAction::Upload) ==> final(storage)@[q] == old(storage)@[q],
{
    let ghost start = queue@.states;
    let ghost chunks = storage@;
    let mut actions: Vec<ResultAction> = Vec::new();
    let mut i: usize = 0;
    while i < results.len()
        invariant
            i <= results@.len(),
            distinct_positions(results@),
            queue.wf(),
            queue@.pending == old(queue)@.pending,
            start == old(queue)@.states,
            chunks == old(storage)@,
            actions@.len() == i,
            forall|k: int|
                0 <= k < i ==> #[trigger] actions@[k] == if k >= max_uploads {
                    ResultAction::Wait
                } else if job_is_current(results@[k], seed, start, chunks) {
                    ResultAction::Upload
                } else {
                    ResultAction::Discard
                },
            forall|k: int|
                0 <= k < i ==> #[trigger] queue@.states.get(results@[k].position) == match actions@[k] {
                    ResultAction::Upload => Some(ChunkLifecycle::Ready),
                    ResultAction::Discard => after_dropped_job(
                        start.get(results@[k].position),
                        chunks.contains_key(results@[k].position),
                    ),
                    ResultAction::Wait => start.get(results@[k].position),
                },
            forall|p: ChunkPos| untouched(results@, i as int, p) ==> #[trigger] queue@.states.get(p) == start.get(p),
            forall|q: ChunkPos| #[trigger] storage@.contains_key(q) == chunks.contains_key(q),
            forall|k: int|
                0 <= k < i && actions@[k] == ResultAction::Upload ==> #[trigger] storage@[results@[k].position]
                    == (ChunkView { dirty: false, ..chunks[results@[k].position] }),
            forall|q: ChunkPos|
                #[trigger] chunks.contains_key(q) && (forall|k: int|
                    0 <= k < i && results@[k].position == q ==> actions@[k] != ResultAction::Upload)
                    ==> storage@[q] == chunks[q],
        decreases results@.len() - i,
    {
        let job = results[i];
        assert(untouched(results@, i as int, job.position));
        let ghost before_storage = storage@;
        assert(storage@.contains_key(job.position) ==> storage@[job.position] == chunks[job.position]);
        let ghost before_states = queue@.states;
        let action = if i >= max_uploads {
            ResultAction::Wait
        } else if is_current(job, seed, queue, storage) {
            match storage.get_chunk_mut(job.position) {
                Some(chunk) => chunk.mark_clean(),
                None => {},
            }
            let finished = queue.finish_meshing(job.position);
            assert(finished);
            assert(queue@.states == before_states.insert(job.position, ChunkLifecycle::Ready));
            ResultAction::Upload
        } else {
            drop_job(queue, storage, job.position);
            ResultAction::Discard
        };
        assert(queue@.states.get(job.position) == match action {
            ResultAction::Upload => Some(ChunkLifecycle::Ready),
            ResultAction::Discard => after_dropped_job(
                start.get(job.position),
                chunks.contains_key(job.position),
            ),
            ResultAction::Wait => start.get(job.position),
        });
        assert(forall|p: ChunkPos| p != job.position ==> #[trigger] queue@.states.get(p) == before_states.get(p));
        actions.push(action);
        proof {
            assert forall|k: int| 0 <= k < i + 1 implies #[trigger] queue@.states.get(
                results@[k].position,
            ) == match actions@[k] {
                ResultAction::Upload => Some(ChunkLifecycle::Ready),
                ResultAction::Discard => after_dropped_job(
                    start.get(results@[k].position),
                    chunks.contains_key(results@[k].position),
                ),
                ResultAction::Wait => start.get(results@[k].position),
            } by {
                if k < i {
                    assert(results@[k].position != job.position);
                }
            }
            assert forall|p: ChunkPos| untouched(results@, i + 1, p) implies #[trigger] queue@.states.get(p)
                == start.get(p) by {
                assert(results@[i as int].position != p);
            }
            assert forall|k: int|
                0 <= k < i + 1 && actions@[k] == ResultAction::Upload implies #[trigger] storage@[results@[k].position]
                    == (ChunkView { dirty: false, ..chunks[results@[k].position] }) by {
                if k < i {
                    assert(results@[k].position != job.position);
                }
            }
            assert forall|q: ChunkPos|
                #[trigger] chunks.contains_key(q) && (forall|k: int|
                    0 <= k < i + 1 && results@[k].position == q ==> actions@[k] != ResultAction::Upload)
                    implies storage@[q] == chunks[q] by {
                assert(forall|k: int|
                    0 <= k < i && results@[k].position == q ==> actions@[k] != ResultAction::Upload);
                if q == job.position {
                    assert(actions@[i as int] != ResultAction::Upload);
                }
            }
        }
        i += 1;
    }
    actions
}

/// The chunk needs a mesh job: loaded, generated or ready, and either without
/// a mesh or with a stale one.
pub open spec fn needs_mesh(
    p: ChunkPos,
    states: Map<ChunkPos, ChunkLifecycle>,
    chunks: Map<ChunkPos, ChunkView>,
    rendered: Set<ChunkPos>,
) -> bool {
    &&& chunks.contains_key(p)
    &&& (states.get(p) == Some(ChunkLifecycle::Generated) || states.get(p) == Some(
        ChunkLifecycle::Ready,
    ))
    &&& (!rendered.contains(p) || chunks[p].dirty)
}

/// The chunks that need a mesh job, each once; `rendered` holds the chunks
/// that have a mesh.
pub fn meshing_candidates(
    storage: &ChunkStorage,
    queue: &ChunkGenerationQueue,
    rendered: &ChunkSet,
) -> (r: Vec<ChunkPos>)
    requires
        rendered.wf(),
    ensures
        forall|p: ChunkPos| #[trigger] r@.contains(p) <==> needs_mesh(p, queue@.states, storage@, rendered@),
        r@.no_duplicates(),
{
    let all = storage.positions();
    let mut r: Vec<ChunkPos> = Vec::new();
    let mut i: usize = 0;
    while i < all.len()
        invariant
            i <= all@.len(),
            rendered.wf(),
            all@.no_duplicates(),
            forall|p: ChunkPos| all@.contains(p) <==> storage@.contains_key(p),
            forall|p: ChunkPos|
                #[trigger] r@.contains(p) <==> (all@.subrange(0, i as int).contains(p) && needs_mesh(
                    p,
                    queue@.states,
                    storage@,
                    rendered@,
                )),
            r@.no_duplicates(),
        decreases all@.len() - i,
    {
        let p = all[i];
        assert(all@.contains(p));
        assert(!all@.subrange(0, i as int).contains(p)) by {
            if all@.subrange(0, i as int).contains(p) {
                let k = choose|k: int| 0 <= k < i && all@.subrange(0, i as int)[k] == p;
                assert(all@[k] == all@[i as int]);
            }
        }
        let state = queue.state(p);
        let generated = match state {
            Some(ChunkLifecycle::Generated) => true,
            Some(ChunkLifecycle::Ready) => true,
            _ => false,
        };
        let stale = match storage.get_chunk(p) {
            Some(chunk) => !rendered.contains(p) || chunk.is_dirty(),
            None => false,
        };
        let ghost old_r = r@;
        assert((generated && stale) == needs_mesh(p, queue@.states, storage@, rendered@));
        assert(!old_r.contains(p));
        if generated && stale {
            r.push(p);
            assert(r@ == old_r.push(p));
            assert(r@[r@.len() - 1] == p);
        }
        proof {
            assert(all@.subrange(0, i + 1) =~= all@.subrange(0, i as int).push(p));
            assert forall|q: ChunkPos| #[trigger] r@.contains(q) <==> (all@.subrange(0, i + 1).contains(q)
                && needs_mesh(q, queue@.states, storage@, rendered@)) by {
                if q == p {
                    assert(all@.subrange(0, i + 1)[i as int] == p);
                    if !(generated && stale) {
                        assert(r@ == old_r);
                    }
                } else {
                    if all@.subrange(0, i + 1).contains(q) {
                        let k = choose|k: int| 0 <= k < i + 1 && #[trigger] all@.subrange(0, i + 1)[k] == q;
                        assert(k < i);
                        assert(all@.subrange(0, i as int)[k] == q);
                    }
                    if all@.subrange(0, i as int).contains(q) {
                        let k = choose|k: int| 0 <= k < i && #[trigger] all@.subrange(0, i as int)[k] == q;
                        assert(all@.subrange(0, i + 1)[k] == q);
                    }
                    if r@.contains(q) {
                        let k = choose|k: int| 0 <= k < r@.len() && r@[k] == q;
                        assert(old_r.contains(q)) by {
                            assert(k < old_r.len());
                            assert(old_r[k] == q);
                        }
                    }
                    if old_r.contains(q) {
                        let k = choose|k: int| 0 <= k < old_r.len() && old_r[k] == q;
                        assert(r@[k] == q);
                    }
                }
            }
        }
        i += 1;
    }
    assert(all@.subrange(0, all@.len() as int) =~= all@);
    r
}

/// A chunk a new job can start for: loaded, and generated or ready.
pub open spec fn can_start(
    p: ChunkPos,
    states: Map<ChunkPos, ChunkLifecycle>,
    chunks: Map<ChunkPos, ChunkView>,
) -> bool {
    &&& chunks.contains_key(p)
    &&& (states.get(p) == Some(ChunkLifecycle::Generated) || states.get(p) == Some(
        ChunkLifecycle::Ready,
    ))
}

/// The jobs started for `candidates`, in order: one for each that can start,
/// at its chunk's current revision.
pub open spec fn started_jobs(
    candidates: Seq<ChunkPos>,
    states: Map<ChunkPos, ChunkLifecycle>,
    chunks: Map<ChunkPos, ChunkView>,
    seed: u64,
) -> Seq<MeshJob>
    decreases candidates.len(),
{
    if candidates.len() == 0 {
        Seq::empty()
    } else {
        let earlier = started_jobs(candidates.drop_last(), states, chunks, seed);
        let p = candidates.last();
        if can_start(p, states, chunks) {
            earlier.push(MeshJob { position: p, revision: chunks[p].revision, seed })
        } else {
            earlier
        }
    }
}

/// How many candidates a frame may try: the free worker slots, counting
/// running jobs and finished meshes not yet uploaded as busy, capped by the
/// start budget.
pub open spec fn start_limit(settings: MeshingSettings, busy: int) -> int {
    let free = if busy >= settings.max_meshing_tasks {
        0
    } else {
        settings.max_meshing_tasks - busy
    };
    if free <= settings.start_budget_per_frame {
        free
    } else {
        settings.start_budget_per_frame as int
    }
}

/// Tries the first candidates, as many as `start_limit` allows, in order:
/// each loaded one that is generated or ready moves to meshing and gets a job
/// at its current revision; the others are passed over. Returns how many
/// candidates were tried and the jobs to start.
pub fn start_meshing_jobs(
    queue: &mut ChunkGenerationQueue,
    storage: &ChunkStorage,
    seed: u64,
    settings: MeshingSettings,
    busy: usize,
    candidates: &Vec<ChunkPos>,
) -> (r: (usize, Vec<MeshJob>))
    requires
        old(queue).wf(),
        candidates@.no_duplicates(),
    ensures
        final(queue).wf(),
        final(queue)@.pending == old(queue)@.pending,
        r.0 == if start_limit(settings, busy as int) <= candidates@.len() {
            start_limit(settings, busy as int)
        } else {
            candidates@.len() as int
        },
        r.1@ == started_jobs(candidates@.take(r.0 as int), old(queue)@.states, storage@, seed),
        r.1@.len() <= r.0,
        forall|p: ChunkPos|
            #[trigger] final(queue)@.states.get(p) == if candidates@.take(r.0 as int).contains(p)
                && can_start(p, old(queue)@.states, storage@) {
                Some(ChunkLifecycle::Meshing)
            } else {
                old(queue)@.states.get(p)
            },
{
    let free = if busy >= settings.max_meshing_tasks {
        0
    } else {
        settings.max_meshing_tasks - busy
    };
    let limit = if free <= settings.start_budget_per_frame {
        free
    } else {
        settings.start_budget_per_frame
    };
    let count = if limit <= candidates.len() {
        limit
    } else {
        candidates.len()
    };
    let ghost start = queue@.states;
    let mut jobs: Vec<MeshJob> = Vec::new();
    let mut i: usize = 0;
    while i < count
        invariant
            i <= count <= candidates@.len(),
            candidates@.no_duplicates(),
            queue.wf(),
            queue@.pending == old(queue)@.pending,
            start == old(queue)@.states,
            jobs@ == started_jobs(candidates@.take(i as int), start, storage@, seed),
            jobs@.len() <= i,
            forall|p: ChunkPos|
                #[trigger] queue@.states.get(p) == if candidates@.take(i as int).contains(p) && can_start(
                    p,
                    start,
                    storage@,
                ) {
                    Some(ChunkLifecycle::Meshing)
                } else {
                    start.get(p)
                },
        decreases count - i,
    {
        let p = candidates[i];
        assert(candidates@.take(i + 1).drop_last() =~= candidates@.take(i as int));
        assert(candidates@.take(i + 1).last() == p);
        assert(!candidates@.take(i as int).contains(p)) by {
            if candidates@.take(i as int).contains(p) {
                let k = choose|k: int| 0 <= k < i && candidates@.take(i as int)[k] == p;
                assert(candidates@[k] == candidates@[i as int]);
            }
        }
        assert(queue@.states.get(p) == start.get(p));
        let ghost before = queue@.states;
        match storage.get_chunk(p) {
            Some(chunk) => {
                if queue.begin_meshing(p) {
                    jobs.push(MeshJob { position: p, revision: chunk.mesh_revision(), seed });
                }
            },
            None => {},
        }
        proof {
            assert(candidates@.take(i + 1) =~= candidates@.take(i as int).push(p));
            assert forall|q: ChunkPos|
                #[trigger] queue@.states.get(q) == if candidates@.take(i + 1).contains(q) && can_start(
                    q,
                    start,
                    storage@,
                ) {
                    Some(ChunkLifecycle::Meshing)
                } else {
                    start.get(q)
                } by {
                if q != p {
                    assert(queue@.states.get(q) == before.get(q));
                    assert(candidates@.take(i + 1).contains(q) == candidates@.take(i as int).contains(q));
                }
            }
        }
        i += 1;
    }
    (count, jobs)
}

} // verus!
