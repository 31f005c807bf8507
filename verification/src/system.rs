//! The system protocol: what stays true of the store and the evo queue as
//! control actions and workers interleave.
//!
//! The well-formedness predicate ties candidates and queued messages to their
//! jobs and bounds every job's distinct candidate groups, plus its pending
//! messages, by its target; the lemmas show every step of the protocol keeps
//! it, so the bound holds at every observable point.

use vstd::prelude::*;

use crate::orchestrator::CandidateRowV;
use crate::orchestrator::JobRow;
use crate::orchestrator::StoreV;
use crate::orchestrator::count_distinct;
use crate::orchestrator::find_job;
use crate::orchestrator::find_module;
use crate::orchestrator::groups_of;
use crate::orchestrator::spec_candidate_rows;
use crate::orchestrator::spec_drop_candidates;
use crate::orchestrator::spec_evo_messages;
use crate::orchestrator::spec_finish_flag;
use crate::orchestrator::spec_run_messages;
use crate::orchestrator::spec_run_store;
use crate::orchestrator::spec_reset_store;
use crate::orchestrator::spec_apply_preprocess;
use crate::orchestrator::spec_supersede_jobs;
use crate::output::CandidateSeedV;
use crate::worker::EvoMessageV;

verus! {

// ----------------------------------------------------------------------------
// Queue accounting
// ----------------------------------------------------------------------------
/// Number of queued messages addressed to a job.
pub open spec fn queued_for(queue: Seq<EvoMessageV>, job_id: u128) -> int
    decreases queue.len(),
{
    if queue.len() == 0 {
        0
    } else {
        (if queue.first().job_id == job_id {
            1int
        } else {
            0int
        }) + queued_for(queue.drop_first(), job_id)
    }
}

pub proof fn lemma_queued_nonneg(queue: Seq<EvoMessageV>, job_id: u128)
    ensures
        0 <= queued_for(queue, job_id) <= queue.len(),
    decreases queue.len(),
{
    if queue.len() > 0 {
        lemma_queued_nonneg(queue.drop_first(), job_id);
    }
}

pub proof fn lemma_queued_concat(a: Seq<EvoMessageV>, b: Seq<EvoMessageV>, job_id: u128)
    ensures
        queued_for(a + b, job_id) == queued_for(a, job_id) + queued_for(b, job_id),
    decreases a.len(),
{
    if a.len() == 0 {
        assert(a + b =~= b);
    } else {
        assert((a + b).drop_first() =~= a.drop_first() + b);
        lemma_queued_concat(a.drop_first(), b, job_id);
    }
}

/// A queue in which no message addresses the job counts nothing for it.
pub proof fn lemma_queued_none(queue: Seq<EvoMessageV>, job_id: u128)
    requires
        forall|i: int| 0 <= i < queue.len() ==> (#[trigger] queue[i]).job_id != job_id,
    ensures
        queued_for(queue, job_id) == 0,
    decreases queue.len(),
{
    if queue.len() > 0 {
        assert(queue[0].job_id != job_id);
        lemma_queued_none(queue.drop_first(), job_id);
    }
}

/// The queue with its `k`-th message consumed.
pub open spec fn queue_without(queue: Seq<EvoMessageV>, k: int) -> Seq<EvoMessageV> {
    queue.take(k) + queue.skip(k + 1)
}

pub proof fn lemma_queued_without(queue: Seq<EvoMessageV>, k: int, job_id: u128)
    requires
        0 <= k < queue.len(),
    ensures
        queued_for(queue, job_id) == queued_for(queue_without(queue, k), job_id) + (
        if queue[k].job_id == job_id {
            1int
        } else {
            0int
        }),
{
    assert(queue =~= queue.take(k) + (seq![queue[k]] + queue.skip(k + 1)));
    lemma_queued_concat(queue.take(k), seq![queue[k]] + queue.skip(k + 1), job_id);
    lemma_queued_concat(seq![queue[k]], queue.skip(k + 1), job_id);
    lemma_queued_concat(queue.take(k), queue.skip(k + 1), job_id);
    assert(seq![queue[k]].drop_first() =~= Seq::<EvoMessageV>::empty());
    assert(queued_for(Seq::<EvoMessageV>::empty(), job_id) == 0);
    assert(queued_for(seq![queue[k]], job_id) == (if queue[k].job_id == job_id {
        1int
    } else {
        0int
    }));
    assert(queued_for(queue, job_id) == queued_for(queue.take(k), job_id) + queued_for(
        seq![queue[k]] + queue.skip(k + 1),
        job_id,
    ));
}

// ----------------------------------------------------------------------------
// Group accounting
// ----------------------------------------------------------------------------
pub proof fn lemma_groups_concat(a: Seq<CandidateRowV>, b: Seq<CandidateRowV>, job_id: u128)
    ensures
        groups_of(a + b, job_id) == groups_of(a, job_id) + groups_of(b, job_id),
    decreases a.len(),
{
    if a.len() == 0 {
        assert(a + b =~= b);
        assert(groups_of(a, job_id) + groups_of(b, job_id) =~= groups_of(b, job_id));
    } else {
        assert((a + b).drop_first() =~= a.drop_first() + b);
        lemma_groups_concat(a.drop_first(), b, job_id);
        if a.first().job_id == job_id {
            assert(seq![a.first().group_id] + (groups_of(a.drop_first(), job_id) + groups_of(
                b,
                job_id,
            )) =~= (seq![a.first().group_id] + groups_of(a.drop_first(), job_id)) + groups_of(
                b,
                job_id,
            ));
        }
    }
}

/// A job no candidate addresses has no groups.
pub proof fn lemma_groups_none(cs: Seq<CandidateRowV>, job_id: u128)
    requires
        forall|i: int| 0 <= i < cs.len() ==> (#[trigger] cs[i]).job_id != job_id,
    ensures
        groups_of(cs, job_id).len() == 0,
    decreases cs.len(),
{
    if cs.len() > 0 {
        assert(cs[0].job_id != job_id);
        lemma_groups_none(cs.drop_first(), job_id);
    }
}

/// Every row the delete keeps stood in the original rows.
pub proof fn lemma_drop_candidates_elements(cs: Seq<CandidateRowV>, module_id: u128)
    ensures
        forall|i: int|
            0 <= i < spec_drop_candidates(cs, module_id).len() ==> cs.contains(
                #[trigger] spec_drop_candidates(cs, module_id)[i],
            ) && (#[trigger] spec_drop_candidates(cs, module_id)[i]).module_id != module_id,
    decreases cs.len(),
{
    if cs.len() > 0 {
        lemma_drop_candidates_elements(cs.drop_first(), module_id);
        let d = spec_drop_candidates(cs, module_id);
        let dr = spec_drop_candidates(cs.drop_first(), module_id);
        assert forall|i: int| 0 <= i < d.len() implies cs.contains(#[trigger] d[i])
            && d[i].module_id != module_id by {
            if cs.first().module_id == module_id {
                assert(d[i] == dr[i]);
                assert(cs.drop_first().contains(d[i]));
                let m = choose|m: int|
                    0 <= m < cs.drop_first().len() && cs.drop_first()[m] == d[i];
                assert(cs[m + 1] == d[i]);
            } else {
                if i == 0 {
                    assert(cs[0] == d[0]);
                } else {
                    assert(d[i] == dr[i - 1]);
                    assert(cs.drop_first().contains(d[i]));
                    let m = choose|m: int|
                        0 <= m < cs.drop_first().len() && cs.drop_first()[m] == d[i];
                    assert(cs[m + 1] == d[i]);
                }
            }
        }
    }
}

/// Deleting a module's candidates leaves the groups of any job whose
/// candidates all belong to that module empty, and leaves the groups of any
/// job none of whose candidates belong to it unchanged.
pub proof fn lemma_groups_after_drop(cs: Seq<CandidateRowV>, module_id: u128, job_id: u128)
    ensures
        (forall|i: int|
            0 <= i < cs.len() && (#[trigger] cs[i]).job_id == job_id ==> cs[i].module_id
                == module_id) ==> groups_of(spec_drop_candidates(cs, module_id), job_id).len()
            == 0,
        (forall|i: int|
            0 <= i < cs.len() && (#[trigger] cs[i]).job_id == job_id ==> cs[i].module_id
                != module_id) ==> groups_of(spec_drop_candidates(cs, module_id), job_id)
            == groups_of(cs, job_id),
    decreases cs.len(),
{
    if cs.len() > 0 {
        let rest = cs.drop_first();
        lemma_groups_after_drop(rest, module_id, job_id);
        assert(forall|i: int| 0 <= i < rest.len() ==> #[trigger] rest[i] == cs[i + 1]);
        lemma_groups_concat(seq![cs.first()], spec_drop_candidates(rest, module_id), job_id);
        lemma_groups_concat(seq![cs.first()], rest, job_id);
        assert(seq![cs.first()].drop_first() =~= Seq::<CandidateRowV>::empty());
        assert(cs =~= seq![cs.first()] + rest);
        if forall|i: int|
            0 <= i < cs.len() && (#[trigger] cs[i]).job_id == job_id ==> cs[i].module_id
                == module_id {
            assert(forall|i: int|
                0 <= i < rest.len() && (#[trigger] rest[i]).job_id == job_id ==> rest[i].module_id
                    == module_id);
            assert(groups_of(spec_drop_candidates(rest, module_id), job_id).len() == 0);
            if cs.first().module_id != module_id {
                assert(cs[0].job_id == job_id ==> cs[0].module_id == module_id);
                assert(cs.first().job_id != job_id);
            }
        }
        if forall|i: int|
            0 <= i < cs.len() && (#[trigger] cs[i]).job_id == job_id ==> cs[i].module_id
                != module_id {
            assert(forall|i: int|
                0 <= i < rest.len() && (#[trigger] rest[i]).job_id == job_id ==> rest[i].module_id
                    != module_id);
            assert(groups_of(spec_drop_candidates(rest, module_id), job_id) == groups_of(
                rest,
                job_id,
            ));
            if cs.first().module_id == module_id {
                assert(cs[0].job_id == job_id ==> cs[0].module_id != module_id);
                assert(cs.first().job_id != job_id);
            }
        }
    }
}

/// The rows of one success form groups only for its job, all equal to the
/// fresh group.
pub proof fn lemma_groups_of_rows(
    module_id: u128,
    job_id: u128,
    group_id: u128,
    seeds: Seq<CandidateSeedV>,
    other: u128,
)
    ensures
        other != job_id ==> groups_of(
            spec_candidate_rows(module_id, job_id, group_id, seeds),
            other,
        ).len() == 0,
        groups_of(spec_candidate_rows(module_id, job_id, group_id, seeds), job_id).len()
            == seeds.len(),
        forall|i: int|
            0 <= i < groups_of(
                spec_candidate_rows(module_id, job_id, group_id, seeds),
                job_id,
            ).len() ==> #[trigger] groups_of(
                spec_candidate_rows(module_id, job_id, group_id, seeds),
                job_id,
            )[i] == group_id,
    decreases seeds.len(),
{
    if seeds.len() > 0 {
        lemma_groups_of_rows(module_id, job_id, group_id, seeds.drop_first(), other);
        let rows = spec_candidate_rows(module_id, job_id, group_id, seeds);
        assert(rows.drop_first() =~= spec_candidate_rows(
            module_id,
            job_id,
            group_id,
            seeds.drop_first(),
        ));
    }
}

// ----------------------------------------------------------------------------
// Distinct-count arithmetic
// ----------------------------------------------------------------------------
pub proof fn lemma_count_distinct_concat<T>(a: Seq<T>, b: Seq<T>)
    ensures
        count_distinct(a + b) <= count_distinct(a) + count_distinct(b),
    decreases b.len(),
{
    if b.len() == 0 {
        assert(a + b =~= a);
    } else {
        assert((a + b).drop_last() =~= a + b.drop_last());
        assert((a + b).last() == b.last());
        lemma_count_distinct_concat(a, b.drop_last());
        if b.drop_last().contains(b.last()) {
            let m = choose|m: int|
                0 <= m < b.drop_last().len() && #[trigger] b.drop_last()[m] == b.last();
            assert((a + b.drop_last())[a.len() + m] == b.last());
            assert((a + b.drop_last()).contains(b.last()));
        }
    }
}

/// A constant sequence has at most one distinct value.
pub proof fn lemma_count_distinct_const<T>(s: Seq<T>, g: T)
    requires
        forall|i: int| 0 <= i < s.len() ==> #[trigger] s[i] == g,
    ensures
        count_distinct(s) <= 1,
    decreases s.len(),
{
    if s.len() > 0 {
        lemma_count_distinct_const(s.drop_last(), g);
        if s.len() > 1 {
            assert(s.drop_last()[0] == g);
            assert(s.drop_last().contains(s.last()));
        }
    }
}

// ----------------------------------------------------------------------------
// Job lookup lemmas
// ----------------------------------------------------------------------------
/// No two jobs share an identifier.
pub open spec fn jobs_unique(js: Seq<JobRow>) -> bool {
    forall|i: int, k: int|
        #![trigger js[i], js[k]]
        0 <= i < k < js.len() ==> js[i].job_id != js[k].job_id
}

pub proof fn lemma_find_job_none(js: Seq<JobRow>, id: u128)
    requires
        forall|i: int| 0 <= i < js.len() ==> (#[trigger] js[i]).job_id != id,
    ensures
        find_job(js, id) is None,
    decreases js.len(),
{
    if js.len() > 0 {
        assert(js[0].job_id != id);
        lemma_find_job_none(js.drop_first(), id);
    }
}

/// With unique identifiers, lookup returns exactly the job at any index that
/// carries the identifier.
pub proof fn lemma_find_job_unique(js: Seq<JobRow>, id: u128, i: int)
    requires
        jobs_unique(js),
        0 <= i < js.len(),
        js[i].job_id == id,
    ensures
        find_job(js, id) == Some(js[i]),
    decreases js.len(),
{
    if js.first().job_id == id {
        assert(js[0].job_id == id);
        if i != 0 {
            assert(js[0].job_id != js[i].job_id);
        }
    } else {
        assert(i != 0);
        assert(jobs_unique(js.drop_first())) by {
            assert(forall|a: int, b: int|
                #![trigger js.drop_first()[a], js.drop_first()[b]]
                0 <= a < b < js.drop_first().len() ==> js.drop_first()[a] == js[a + 1]
                    && js.drop_first()[b] == js[b + 1]);
        }
        assert(js.drop_first()[i - 1] == js[i]);
        lemma_find_job_unique(js.drop_first(), id, i - 1);
    }
}

/// Superseding maps each job in place, preserving its identifier.
pub proof fn lemma_find_job_supersede(js: Seq<JobRow>, module_id: u128, id: u128)
    ensures
        find_job(spec_supersede_jobs(js, module_id), id) == (match find_job(js, id) {
            Some(j) => if j.module_id == module_id {
                Some(
                    JobRow {
                        job_id: j.job_id,
                        module_id: j.module_id,
                        workspace_id: j.workspace_id,
                        target_count: j.target_count,
                        superseded: true,
                    },
                )
            } else {
                Some(j)
            },
            None => None::<JobRow>,
        }),
    decreases js.len(),
{
    let mapped = spec_supersede_jobs(js, module_id);
    if js.len() == 0 {
        assert(mapped =~= Seq::<JobRow>::empty());
    } else {
        assert(mapped.first() == (if js.first().module_id == module_id {
            JobRow {
                job_id: js.first().job_id,
                module_id: js.first().module_id,
                workspace_id: js.first().workspace_id,
                target_count: js.first().target_count,
                superseded: true,
            }
        } else {
            js.first()
        }));
        assert(mapped.drop_first() =~= spec_supersede_jobs(js.drop_first(), module_id));
        lemma_find_job_supersede(js.drop_first(), module_id, id);
    }
}

/// Appending a job changes lookup only for its own identifier, and only when
/// nothing earlier carries it.
pub proof fn lemma_find_job_push(js: Seq<JobRow>, j2: JobRow, id: u128)
    ensures
        find_job(js.push(j2), id) == (match find_job(js, id) {
            Some(j) => Some(j),
            None => if j2.job_id == id {
                Some(j2)
            } else {
                None::<JobRow>
            },
        }),
    decreases js.len(),
{
    if js.len() == 0 {
        assert(js.push(j2).first() == j2);
        assert(js.push(j2).drop_first() =~= Seq::<JobRow>::empty());
        assert(find_job(Seq::<JobRow>::empty(), id) is None);
    } else {
        assert(js.push(j2).first() == js.first());
        assert(js.push(j2).drop_first() =~= js.drop_first().push(j2));
        lemma_find_job_push(js.drop_first(), j2, id);
    }
}

/// The rows of one success all carry its message's job, module and group.
pub proof fn lemma_candidate_rows_fields(
    module_id: u128,
    job_id: u128,
    group_id: u128,
    seeds: Seq<CandidateSeedV>,
)
    ensures
        spec_candidate_rows(module_id, job_id, group_id, seeds).len() == seeds.len(),
        forall|i: int|
            0 <= i < seeds.len() ==> {
                let r = #[trigger] spec_candidate_rows(module_id, job_id, group_id, seeds)[i];
                r.job_id == job_id && r.module_id == module_id && r.group_id == group_id
            },
    decreases seeds.len(),
{
    if seeds.len() > 0 {
        lemma_candidate_rows_fields(module_id, job_id, group_id, seeds.drop_first());
        let rows = spec_candidate_rows(module_id, job_id, group_id, seeds);
        assert(rows.drop_first() =~= spec_candidate_rows(
            module_id,
            job_id,
            group_id,
            seeds.drop_first(),
        ));
        assert(forall|i: int|
            1 <= i < rows.len() ==> #[trigger] rows[i] == rows.drop_first()[i - 1]);
    }
}

/// The messages of one run all carry its job and module, one per chunk.
pub proof fn lemma_evo_messages_fields(
    module_id: u128,
    job_id: u128,
    workspace_id: u128,
    user_id: u128,
    prompt: Seq<char>,
    separator: Seq<char>,
    model: Seq<char>,
    chunks: Seq<crate::orchestrator::ChunkV>,
)
    ensures
        spec_evo_messages(
            module_id,
            job_id,
            workspace_id,
            user_id,
            prompt,
            separator,
            model,
            chunks,
        ).len() == chunks.len(),
        forall|i: int|
            0 <= i < chunks.len() ==> {
                let m = #[trigger] spec_evo_messages(
                    module_id,
                    job_id,
                    workspace_id,
                    user_id,
                    prompt,
                    separator,
                    model,
                    chunks,
                )[i];
                m.job_id == job_id && m.module_id == module_id
            },
    decreases chunks.len(),
{
    if chunks.len() > 0 {
        lemma_evo_messages_fields(
            module_id,
            job_id,
            workspace_id,
            user_id,
            prompt,
            separator,
            model,
            chunks.drop_first(),
        );
        let msgs = spec_evo_messages(
            module_id,
            job_id,
            workspace_id,
            user_id,
            prompt,
            separator,
            model,
            chunks,
        );
        assert(msgs.drop_first() =~= spec_evo_messages(
            module_id,
            job_id,
            workspace_id,
            user_id,
            prompt,
            separator,
            model,
            chunks.drop_first(),
        ));
        assert(forall|i: int|
            1 <= i < msgs.len() ==> #[trigger] msgs[i] == msgs.drop_first()[i - 1]);
    }
}

/// A queue all of whose messages address the job counts them all.
pub proof fn lemma_queued_all(queue: Seq<EvoMessageV>, job_id: u128)
    requires
        forall|i: int| 0 <= i < queue.len() ==> (#[trigger] queue[i]).job_id == job_id,
    ensures
        queued_for(queue, job_id) == queue.len(),
    decreases queue.len(),
{
    if queue.len() > 0 {
        assert(queue[0].job_id == job_id);
        lemma_queued_all(queue.drop_first(), job_id);
    }
}

// ----------------------------------------------------------------------------
// The protocol invariant
// ----------------------------------------------------------------------------
/// A candidate row belongs to an existing, active job of its own module.
pub open spec fn candidate_job_ok(jobs: Seq<JobRow>, c: CandidateRowV) -> bool {
    match find_job(jobs, c.job_id) {
        Some(j) => !j.superseded && j.module_id == c.module_id,
        None => false,
    }
}

/// A queued message addresses an existing job of its own module.
pub open spec fn message_job_ok(jobs: Seq<JobRow>, m: EvoMessageV) -> bool {
    match find_job(jobs, m.job_id) {
        Some(j) => j.module_id == m.module_id,
        None => false,
    }
}

/// A superseded job has no candidates; an active job's distinct candidate
/// groups, plus the messages still queued for it, stay within its target.
pub open spec fn job_bound_ok(s: StoreV, queue: Seq<EvoMessageV>, j: JobRow) -> bool {
    if j.superseded {
        groups_of(s.candidates, j.job_id).len() == 0
    } else {
        count_distinct(groups_of(s.candidates, j.job_id)) + queued_for(queue, j.job_id)
            <= j.target_count
    }
}

/// The protocol invariant over the store and the evo queue.
pub open spec fn wf_system(s: StoreV, queue: Seq<EvoMessageV>) -> bool {
    &&& jobs_unique(s.jobs)
    &&& forall|i: int|
        0 <= i < s.candidates.len() ==> candidate_job_ok(s.jobs, #[trigger] s.candidates[i])
    &&& forall|i: int| 0 <= i < queue.len() ==> message_job_ok(s.jobs, #[trigger] queue[i])
    &&& forall|i: int| 0 <= i < s.jobs.len() ==> job_bound_ok(s, queue, #[trigger] s.jobs[i])
}

/// In a well-formed system the count of distinct candidate groups of any job
/// — active or superseded — never exceeds its target.
pub proof fn lemma_candidate_groups_bounded(s: StoreV, queue: Seq<EvoMessageV>, i: int)
    requires
        wf_system(s, queue),
        0 <= i < s.jobs.len(),
    ensures
        count_distinct(groups_of(s.candidates, s.jobs[i].job_id)) <= s.jobs[i].target_count,
{
    lemma_queued_nonneg(queue, s.jobs[i].job_id);
    assert(job_bound_ok(s, queue, s.jobs[i]));
    if s.jobs[i].superseded {
        assert(count_distinct(groups_of(s.candidates, s.jobs[i].job_id)) == 0);
    }
}

// ----------------------------------------------------------------------------
// Transitions preserve the invariant
// ----------------------------------------------------------------------------
/// Running a module preserves the protocol: with a job identifier nothing
/// uses yet, the run's store and the queue extended with the run's messages
/// stay well-formed. In particular the fresh job starts with no candidates
/// and exactly one queued message per chunk, so its bound is its target.
pub proof fn lemma_run_preserves_wf(
    s: StoreV,
    queue: Seq<EvoMessageV>,
    module_id: u128,
    outputs: Seq<Seq<char>>,
    chunks: Seq<crate::orchestrator::ChunkV>,
    new_job_id: u128,
    user_id: u128,
)
    requires
        wf_system(s, queue),
        find_module(s.modules, module_id) is Some,
        chunks.len() <= usize::MAX,
        forall|i: int| 0 <= i < s.jobs.len() ==> (#[trigger] s.jobs[i]).job_id != new_job_id,
    ensures
        wf_system(
            spec_run_store(s, module_id, outputs, chunks, new_job_id),
            queue + spec_run_messages(s, module_id, outputs, chunks, new_job_id, user_id),
        ),
{
    let s2 = spec_run_store(s, module_id, outputs, chunks, new_job_id);
    let msgs = spec_run_messages(s, module_id, outputs, chunks, new_job_id, user_id);
    let q2 = queue + msgs;
    let m = find_module(s.modules, module_id)->0;
    let cfg2 = crate::orchestrator::spec_apply_preprocess(m.config, outputs, 0);
    let newjob = JobRow {
        job_id: new_job_id,
        module_id: module_id,
        workspace_id: m.workspace_id,
        target_count: chunks.len() as usize,
        superseded: false,
    };
    let sup = spec_supersede_jobs(s.jobs, module_id);
    assert(s2.jobs == sup.push(newjob));
    assert(sup.len() == s.jobs.len());
    assert(forall|i: int|
        0 <= i < s.jobs.len() ==> (#[trigger] sup[i]).job_id == s.jobs[i].job_id
            && sup[i].module_id == s.jobs[i].module_id && sup[i].workspace_id
            == s.jobs[i].workspace_id && sup[i].target_count == s.jobs[i].target_count);
    lemma_evo_messages_fields(
        module_id,
        new_job_id,
        m.workspace_id,
        user_id,
        crate::orchestrator::spec_main_prompt(cfg2),
        cfg2.separator,
        crate::orchestrator::spec_model_for(m.category),
        chunks,
    );
    assert(msgs.len() == chunks.len());
    // Unique identifiers survive: superseding keeps them, the new one is fresh.
    assert(jobs_unique(s2.jobs)) by {
        assert(forall|i: int|
            0 <= i < s2.jobs.len() - 1 ==> #[trigger] s2.jobs[i] == sup[i]);
        assert(s2.jobs[s2.jobs.len() - 1] == newjob);
    }
    lemma_drop_candidates_elements(s.candidates, module_id);
    // Candidates that survive keep an active job of their module.
    assert forall|i: int|
        0 <= i < s2.candidates.len() implies candidate_job_ok(
        s2.jobs,
        #[trigger] s2.candidates[i],
    ) by {
        let c = s2.candidates[i];
        assert(s.candidates.contains(c) && c.module_id != module_id);
        let oi = choose|oi: int| 0 <= oi < s.candidates.len() && s.candidates[oi] == c;
        assert(candidate_job_ok(s.jobs, c));
        let j = find_job(s.jobs, c.job_id)->0;
        lemma_find_job_supersede(s.jobs, module_id, c.job_id);
        lemma_find_job_push(sup, newjob, c.job_id);
        assert(j.module_id == c.module_id);
        assert(c.module_id != module_id);
        assert(find_job(s2.jobs, c.job_id) == Some(j));
    }
    // Old and new messages alike address existing jobs of their module.
    assert forall|i: int| 0 <= i < q2.len() implies message_job_ok(
        s2.jobs,
        #[trigger] q2[i],
    ) by {
        if i < queue.len() {
            assert(q2[i] == queue[i]);
            assert(message_job_ok(s.jobs, queue[i]));
            let j = find_job(s.jobs, queue[i].job_id)->0;
            lemma_find_job_supersede(s.jobs, module_id, queue[i].job_id);
            lemma_find_job_push(sup, newjob, queue[i].job_id);
        } else {
            assert(q2[i] == msgs[i - queue.len()]);
            assert(q2[i].job_id == new_job_id && q2[i].module_id == module_id);
            lemma_find_job_none(s.jobs, new_job_id);
            lemma_find_job_supersede(s.jobs, module_id, new_job_id);
            lemma_find_job_push(sup, newjob, new_job_id);
            assert(find_job(s2.jobs, new_job_id) == Some(newjob));
        }
    }
    // Bounds.
    assert forall|i: int| 0 <= i < s2.jobs.len() implies job_bound_ok(
        s2,
        q2,
        #[trigger] s2.jobs[i],
    ) by {
        lemma_queued_concat(queue, msgs, s2.jobs[i].job_id);
        if i < s.jobs.len() {
            assert(s2.jobs[i] == sup[i]);
            let jid = s.jobs[i].job_id;
            assert(jid != new_job_id);
            assert(job_bound_ok(s, queue, s.jobs[i]));
            // Every candidate of this job carries the job's module.
            assert forall|k: int|
                0 <= k < s.candidates.len() && (#[trigger] s.candidates[k]).job_id == jid
                    implies s.candidates[k].module_id == s.jobs[i].module_id by {
                assert(candidate_job_ok(s.jobs, s.candidates[k]));
                lemma_find_job_unique(s.jobs, jid, i);
            }
            lemma_queued_none_msgs(msgs, jid, new_job_id);
            lemma_groups_after_drop(s.candidates, module_id, jid);
            if s.jobs[i].module_id == module_id {
                assert(sup[i].superseded);
                assert(groups_of(s2.candidates, jid).len() == 0);
            } else {
                assert(groups_of(s2.candidates, jid) == groups_of(s.candidates, jid));
                if s.jobs[i].superseded {
                    assert(sup[i] == s.jobs[i]);
                } else {
                    assert(queued_for(q2, jid) == queued_for(queue, jid));
                }
            }
        } else {
            assert(s2.jobs[i] == newjob);
            // No candidate and no old message can address a fresh identifier.
            assert forall|k: int|
                0 <= k < s2.candidates.len() implies (#[trigger] s2.candidates[k]).job_id
                != new_job_id by {
                assert(s.candidates.contains(s2.candidates[k]));
                let oi = choose|oi: int|
                    0 <= oi < s.candidates.len() && s.candidates[oi] == s2.candidates[k];
                assert(candidate_job_ok(s.jobs, s.candidates[oi]));
                if s2.candidates[k].job_id == new_job_id {
                    lemma_find_job_none(s.jobs, new_job_id);
                }
            }
            lemma_groups_none(s2.candidates, new_job_id);
            assert(count_distinct(groups_of(s2.candidates, new_job_id)) == 0);
            assert forall|k: int|
                0 <= k < queue.len() implies (#[trigger] queue[k]).job_id != new_job_id by {
                assert(message_job_ok(s.jobs, queue[k]));
                if queue[k].job_id == new_job_id {
                    lemma_find_job_none(s.jobs, new_job_id);
                }
            }
            lemma_queued_none(queue, new_job_id);
            lemma_queued_all(msgs, new_job_id);
            assert(queued_for(q2, new_job_id) == chunks.len());
        }
    }
}

/// No message of a run addresses a different job.
proof fn lemma_queued_none_msgs(msgs: Seq<EvoMessageV>, jid: u128, new_job_id: u128)
    requires
        jid != new_job_id,
        forall|i: int| 0 <= i < msgs.len() ==> (#[trigger] msgs[i]).job_id == new_job_id,
    ensures
        queued_for(msgs, jid) == 0,
{
    lemma_queued_none(msgs, jid);
}

/// The store one worker success commits: when the delivery's job is still
/// active, its candidate rows appear under the fresh group and the named
/// file's flag is set; otherwise nothing changes.
pub open spec fn spec_commit(
    s: StoreV,
    m: EvoMessageV,
    seeds: Seq<CandidateSeedV>,
    group_id: u128,
) -> StoreV {
    match find_job(s.jobs, m.job_id) {
        Some(j) => if !j.superseded {
            StoreV {
                modules: s.modules,
                jobs: s.jobs,
                candidates: s.candidates + spec_candidate_rows(
                    m.module_id,
                    m.job_id,
                    group_id,
                    seeds,
                ),
                files: match m.file_id {
                    Some(f) => spec_finish_flag(s.files, f, m.module_id),
                    None => s.files,
                },
                data: s.data,
            }
        } else {
            s
        },
        None => s,
    }
}

/// Consuming one queued delivery — committing its candidates when its job is
/// still active, dropping it when the job was superseded — preserves the
/// protocol. All of a success's candidates share one group, so an active
/// job's distinct count grows by at most the one message consumed.
pub proof fn lemma_commit_preserves_wf(
    s: StoreV,
    queue: Seq<EvoMessageV>,
    k: int,
    seeds: Seq<CandidateSeedV>,
    group_id: u128,
)
    requires
        wf_system(s, queue),
        0 <= k < queue.len(),
    ensures
        wf_system(spec_commit(s, queue[k], seeds, group_id), queue_without(queue, k)),
{
    let m = queue[k];
    let q2 = queue_without(queue, k);
    let s2 = spec_commit(s, m, seeds, group_id);
    assert(message_job_ok(s.jobs, m));
    let j = find_job(s.jobs, m.job_id)->0;
    assert(forall|i: int|
        0 <= i < q2.len() ==> #[trigger] q2[i] == (if i < k {
            queue[i]
        } else {
            queue[i + 1]
        }));
    if j.superseded {
        assert(s2 == s);
        assert forall|i: int| 0 <= i < s.jobs.len() implies job_bound_ok(
            s2,
            q2,
            #[trigger] s.jobs[i],
        ) by {
            assert(job_bound_ok(s, queue, s.jobs[i]));
            lemma_queued_without(queue, k, s.jobs[i].job_id);
        }
    } else {
        let rows = spec_candidate_rows(m.module_id, m.job_id, group_id, seeds);
        lemma_candidate_rows_fields(m.module_id, m.job_id, group_id, seeds);
        assert(s2.candidates == s.candidates + rows);
        assert(s2.jobs == s.jobs);
        // Candidate rows, old and new, keep active jobs of their module.
        assert forall|i: int|
            0 <= i < s2.candidates.len() implies candidate_job_ok(
            s2.jobs,
            #[trigger] s2.candidates[i],
        ) by {
            if i < s.candidates.len() {
                assert(s2.candidates[i] == s.candidates[i]);
                assert(candidate_job_ok(s.jobs, s.candidates[i]));
            } else {
                assert(s2.candidates[i] == rows[i - s.candidates.len()]);
                assert(s2.candidates[i].job_id == m.job_id);
                assert(s2.candidates[i].module_id == m.module_id);
                assert(find_job(s.jobs, m.job_id) == Some(j));
            }
        }
        // Remaining messages still address their jobs.
        assert forall|i: int| 0 <= i < q2.len() implies message_job_ok(
            s2.jobs,
            #[trigger] q2[i],
        ) by {
            if i < k {
                assert(message_job_ok(s.jobs, queue[i]));
            } else {
                assert(message_job_ok(s.jobs, queue[i + 1]));
            }
        }
        // Bounds.
        assert forall|i: int| 0 <= i < s2.jobs.len() implies job_bound_ok(
            s2,
            q2,
            #[trigger] s2.jobs[i],
        ) by {
            let jid = s.jobs[i].job_id;
            assert(job_bound_ok(s, queue, s.jobs[i]));
            lemma_groups_concat(s.candidates, rows, jid);
            lemma_queued_without(queue, k, jid);
            if jid == m.job_id {
                lemma_find_job_unique(s.jobs, jid, i);
                assert(s.jobs[i] == j);
                lemma_groups_of_rows(m.module_id, m.job_id, group_id, seeds, jid);
                lemma_count_distinct_concat(groups_of(s.candidates, jid), groups_of(rows, jid));
                lemma_count_distinct_const(groups_of(rows, jid), group_id);
                assert(queued_for(queue, jid) == queued_for(q2, jid) + 1);
            } else {
                lemma_groups_of_rows(m.module_id, m.job_id, group_id, seeds, jid);
                assert(groups_of(rows, jid).len() == 0);
                assert(groups_of(s2.candidates, jid) =~= groups_of(s.candidates, jid));
                if !s.jobs[i].superseded {
                    lemma_queued_nonneg(q2, jid);
                    assert(queued_for(q2, jid) <= queued_for(queue, jid));
                }
            }
        }
    }
}

/// Dropping one queued delivery — a malformed payload, a poison delivery, or
/// a retry past the cap — preserves the protocol.
pub proof fn lemma_drop_delivery_preserves_wf(s: StoreV, queue: Seq<EvoMessageV>, k: int)
    requires
        wf_system(s, queue),
        0 <= k < queue.len(),
    ensures
        wf_system(s, queue_without(queue, k)),
{
    let q2 = queue_without(queue, k);
    assert(forall|i: int|
        0 <= i < q2.len() ==> #[trigger] q2[i] == (if i < k {
            queue[i]
        } else {
            queue[i + 1]
        }));
    assert forall|i: int| 0 <= i < q2.len() implies message_job_ok(
        s.jobs,
        #[trigger] q2[i],
    ) by {
        if i < k {
            assert(message_job_ok(s.jobs, queue[i]));
        } else {
            assert(message_job_ok(s.jobs, queue[i + 1]));
        }
    }
    assert forall|i: int| 0 <= i < s.jobs.len() implies job_bound_ok(
        s,
        q2,
        #[trigger] s.jobs[i],
    ) by {
        assert(job_bound_ok(s, queue, s.jobs[i]));
        lemma_queued_without(queue, k, s.jobs[i].job_id);
    }
}

/// Republishing one failing delivery — a fresh copy of the same message, with
/// a higher attempt header — preserves the protocol: the message count per
/// job is unchanged.
pub proof fn lemma_republish_preserves_wf(s: StoreV, queue: Seq<EvoMessageV>, k: int)
    requires
        wf_system(s, queue),
        0 <= k < queue.len(),
    ensures
        wf_system(s, queue_without(queue, k).push(queue[k])),
{
    let q2 = queue_without(queue, k).push(queue[k]);
    assert(forall|i: int|
        0 <= i < q2.len() - 1 ==> #[trigger] q2[i] == (if i < k {
            queue[i]
        } else {
            queue[i + 1]
        }));
    assert(q2[q2.len() - 1] == queue[k]);
    assert forall|i: int| 0 <= i < q2.len() implies message_job_ok(
        s.jobs,
        #[trigger] q2[i],
    ) by {
        if i < k {
            assert(message_job_ok(s.jobs, queue[i]));
        } else if i < q2.len() - 1 {
            assert(message_job_ok(s.jobs, queue[i + 1]));
        } else {
            assert(message_job_ok(s.jobs, queue[k]));
        }
    }
    assert forall|i: int| 0 <= i < s.jobs.len() implies job_bound_ok(
        s,
        q2,
        #[trigger] s.jobs[i],
    ) by {
        let jid = s.jobs[i].job_id;
        assert(job_bound_ok(s, queue, s.jobs[i]));
        lemma_queued_without(queue, k, jid);
        assert(q2 =~= queue_without(queue, k) + seq![queue[k]]);
        lemma_queued_concat(queue_without(queue, k), seq![queue[k]], jid);
        assert(seq![queue[k]].drop_first() =~= Seq::<EvoMessageV>::empty());
        assert(queued_for(Seq::<EvoMessageV>::empty(), jid) == 0);
        assert(queued_for(seq![queue[k]], jid) == (if queue[k].job_id == jid {
            1int
        } else {
            0int
        }));
        assert(queued_for(q2, jid) == queued_for(queue, jid));
    }
}

/// Resetting a module preserves the protocol: its candidates are deleted, its
/// jobs superseded; in-flight messages for its superseded jobs stay queued
/// and are dropped by their workers on arrival.
pub proof fn lemma_reset_preserves_wf(
    s: StoreV,
    queue: Seq<EvoMessageV>,
    module_id: u128,
    cfg: crate::config::ModuleConfigV,
)
    requires
        wf_system(s, queue),
    ensures
        wf_system(spec_reset_store(s, module_id, cfg), queue),
{
    let s2 = spec_reset_store(s, module_id, cfg);
    let sup = spec_supersede_jobs(s.jobs, module_id);
    assert(s2.jobs == sup);
    assert(forall|i: int|
        0 <= i < s.jobs.len() ==> (#[trigger] sup[i]).job_id == s.jobs[i].job_id
            && sup[i].module_id == s.jobs[i].module_id && sup[i].target_count
            == s.jobs[i].target_count);
    assert(jobs_unique(s2.jobs)) by {
        assert(forall|i: int| 0 <= i < s2.jobs.len() ==> #[trigger] s2.jobs[i] == sup[i]);
    }
    lemma_drop_candidates_elements(s.candidates, module_id);
    assert forall|i: int|
        0 <= i < s2.candidates.len() implies candidate_job_ok(
        s2.jobs,
        #[trigger] s2.candidates[i],
    ) by {
        let c = s2.candidates[i];
        assert(s.candidates.contains(c) && c.module_id != module_id);
        let oi = choose|oi: int| 0 <= oi < s.candidates.len() && s.candidates[oi] == c;
        assert(candidate_job_ok(s.jobs, c));
        let j = find_job(s.jobs, c.job_id)->0;
        lemma_find_job_supersede(s.jobs, module_id, c.job_id);
        assert(j.module_id == c.module_id);
        assert(c.module_id != module_id);
        assert(find_job(s2.jobs, c.job_id) == Some(j));
    }
    assert forall|i: int| 0 <= i < queue.len() implies message_job_ok(
        s2.jobs,
        #[trigger] queue[i],
    ) by {
        assert(message_job_ok(s.jobs, queue[i]));
        lemma_find_job_supersede(s.jobs, module_id, queue[i].job_id);
    }
    assert forall|i: int| 0 <= i < s2.jobs.len() implies job_bound_ok(
        s2,
        queue,
        #[trigger] s2.jobs[i],
    ) by {
        let jid = s.jobs[i].job_id;
        assert(s2.jobs[i] == sup[i]);
        assert(job_bound_ok(s, queue, s.jobs[i]));
        assert forall|k: int|
            0 <= k < s.candidates.len() && (#[trigger] s.candidates[k]).job_id == jid
                implies s.candidates[k].module_id == s.jobs[i].module_id by {
            assert(candidate_job_ok(s.jobs, s.candidates[k]));
            lemma_find_job_unique(s.jobs, jid, i);
        }
        lemma_groups_after_drop(s.candidates, module_id, jid);
        if s.jobs[i].module_id == module_id {
            assert(sup[i].superseded);
            assert(groups_of(s2.candidates, jid).len() == 0);
        } else {
            assert(sup[i] == s.jobs[i]);
            assert(groups_of(s2.candidates, jid) == groups_of(s.candidates, jid));
        }
    }
}

// ----------------------------------------------------------------------------
// Run decomposition and reset equivalence
// ----------------------------------------------------------------------------
/// Writing preprocessing outputs back touches nothing but key values: prompt,
/// keys, separator, chain and assigned data survive unchanged.
pub proof fn lemma_preprocess_touches_only_values(
    cfg: crate::config::ModuleConfigV,
    outputs: Seq<Seq<char>>,
    k: int,
)
    ensures
        spec_apply_preprocess(cfg, outputs, k).prompt == cfg.prompt,
        spec_apply_preprocess(cfg, outputs, k).input == cfg.input,
        spec_apply_preprocess(cfg, outputs, k).keys == cfg.keys,
        spec_apply_preprocess(cfg, outputs, k).separator == cfg.separator,
        spec_apply_preprocess(cfg, outputs, k).preprocess == cfg.preprocess,
        spec_apply_preprocess(cfg, outputs, k).assign_data == cfg.assign_data,
    decreases cfg.preprocess.len() - k,
{
    if k < 0 || k >= cfg.preprocess.len() || k >= outputs.len() {
    } else {
        lemma_preprocess_touches_only_values(
            crate::config::ModuleConfigV {
                prompt: cfg.prompt,
                input: cfg.input,
                keys: cfg.keys,
                key_configs: crate::config::spec_set_key_value(
                    cfg.key_configs,
                    cfg.preprocess[k].output_key,
                    outputs[k],
                ),
                separator: cfg.separator,
                preprocess: cfg.preprocess,
                assign_data: cfg.assign_data,
            },
            outputs,
            k + 1,
        );
    }
}

/// Running a module decomposes exactly as the specification reads: first the
/// preprocessing outputs are written back onto the key values — and onto
/// nothing else — then one evo message is published per input chunk, carrying
/// the fully substituted prompt, the configuration's separator and the
/// category's model.
pub proof fn lemma_run_decomposes(
    s: StoreV,
    module_id: u128,
    outputs: Seq<Seq<char>>,
    chunks: Seq<crate::orchestrator::ChunkV>,
    new_job_id: u128,
    user_id: u128,
)
    requires
        find_module(s.modules, module_id) is Some,
    ensures
        ({
            let m = find_module(s.modules, module_id)->0;
            let cfg2 = spec_apply_preprocess(m.config, outputs, 0);
            &&& spec_run_messages(s, module_id, outputs, chunks, new_job_id, user_id)
                == spec_evo_messages(
                module_id,
                new_job_id,
                m.workspace_id,
                user_id,
                crate::orchestrator::spec_main_prompt(cfg2),
                cfg2.separator,
                crate::orchestrator::spec_model_for(m.category),
                chunks,
            )
            &&& spec_run_store(s, module_id, outputs, chunks, new_job_id).modules
                == crate::orchestrator::spec_set_config(s.modules, module_id, cfg2)
            &&& cfg2.prompt == m.config.prompt
            &&& cfg2.keys == m.config.keys
            &&& cfg2.separator == m.config.separator
            &&& cfg2.preprocess == m.config.preprocess
        }),
{
    let m = find_module(s.modules, module_id)->0;
    lemma_preprocess_touches_only_values(m.config, outputs, 0);
}

/// The candidate rows of one module.
pub open spec fn candidates_of(cs: Seq<CandidateRowV>, module_id: u128) -> Seq<CandidateRowV>
    decreases cs.len(),
{
    if cs.len() == 0 {
        Seq::empty()
    } else if cs.first().module_id == module_id {
        seq![cs.first()] + candidates_of(cs.drop_first(), module_id)
    } else {
        candidates_of(cs.drop_first(), module_id)
    }
}

/// The active jobs of one module.
pub open spec fn active_jobs_of(js: Seq<JobRow>, module_id: u128) -> Seq<JobRow>
    decreases js.len(),
{
    if js.len() == 0 {
        Seq::empty()
    } else if js.first().module_id == module_id && !js.first().superseded {
        seq![js.first()] + active_jobs_of(js.drop_first(), module_id)
    } else {
        active_jobs_of(js.drop_first(), module_id)
    }
}

/// The file bindings of one module.
pub open spec fn bindings_of(
    fs: Seq<crate::orchestrator::FileBinding>,
    module_id: u128,
) -> Seq<crate::orchestrator::FileBinding>
    decreases fs.len(),
{
    if fs.len() == 0 {
        Seq::empty()
    } else if fs.first().module_id == module_id {
        seq![fs.first()] + bindings_of(fs.drop_first(), module_id)
    } else {
        bindings_of(fs.drop_first(), module_id)
    }
}

/// A module whose candidates were just deleted has none left.
pub proof fn lemma_candidates_of_after_drop(cs: Seq<CandidateRowV>, module_id: u128)
    ensures
        candidates_of(spec_drop_candidates(cs, module_id), module_id).len() == 0,
    decreases cs.len(),
{
    if cs.len() > 0 {
        lemma_candidates_of_after_drop(cs.drop_first(), module_id);
        if cs.first().module_id != module_id {
            let d = spec_drop_candidates(cs, module_id);
            assert(d =~= seq![cs.first()] + spec_drop_candidates(cs.drop_first(), module_id));
            assert(d.first() == cs.first());
            assert(d.drop_first() =~= spec_drop_candidates(cs.drop_first(), module_id));
        }
    }
}

/// A module whose jobs were just superseded has no active ones left.
pub proof fn lemma_active_after_supersede(js: Seq<JobRow>, module_id: u128)
    ensures
        active_jobs_of(spec_supersede_jobs(js, module_id), module_id).len() == 0,
    decreases js.len(),
{
    let sup = spec_supersede_jobs(js, module_id);
    if js.len() > 0 {
        lemma_active_after_supersede(js.drop_first(), module_id);
        assert(sup.drop_first() =~= spec_supersede_jobs(js.drop_first(), module_id));
        assert(sup.first().module_id == module_id ==> sup.first().superseded);
    } else {
        assert(sup =~= Seq::<JobRow>::empty());
    }
}

/// Appending one job extends its module's active jobs exactly when it is
/// active.
pub proof fn lemma_active_push(js: Seq<JobRow>, j2: JobRow, module_id: u128)
    ensures
        active_jobs_of(js.push(j2), module_id) == if j2.module_id == module_id
            && !j2.superseded {
            active_jobs_of(js, module_id).push(j2)
        } else {
            active_jobs_of(js, module_id)
        },
    decreases js.len(),
{
    if js.len() == 0 {
        assert(js.push(j2).first() == j2);
        assert(js.push(j2).drop_first() =~= Seq::<JobRow>::empty());
        assert(active_jobs_of(Seq::<JobRow>::empty(), module_id) =~= Seq::<JobRow>::empty());
        if j2.module_id == module_id && !j2.superseded {
            assert(active_jobs_of(js.push(j2), module_id) =~= active_jobs_of(
                js,
                module_id,
            ).push(j2));
        } else {
            assert(active_jobs_of(js.push(j2), module_id) =~= active_jobs_of(js, module_id));
        }
    } else {
        assert(js.push(j2).first() == js.first());
        assert(js.push(j2).drop_first() =~= js.drop_first().push(j2));
        lemma_active_push(js.drop_first(), j2, module_id);
        if j2.module_id == module_id && !j2.superseded {
            if js.first().module_id == module_id && !js.first().superseded {
                assert(active_jobs_of(js.push(j2), module_id) =~= seq![js.first()]
                    + active_jobs_of(js.drop_first(), module_id).push(j2));
                assert(seq![js.first()] + active_jobs_of(js.drop_first(), module_id).push(j2)
                    =~= (seq![js.first()] + active_jobs_of(js.drop_first(), module_id)).push(
                    j2,
                ));
                assert(active_jobs_of(js.push(j2), module_id) =~= active_jobs_of(
                    js,
                    module_id,
                ).push(j2));
            } else {
                assert(active_jobs_of(js.push(j2), module_id) =~= active_jobs_of(
                    js,
                    module_id,
                ).push(j2));
            }
        } else {
            assert(active_jobs_of(js.push(j2), module_id) =~= active_jobs_of(js, module_id));
        }
    }
}

/// A module whose bindings were just removed has none, flags reset or not.
pub proof fn lemma_bindings_after_drop(
    fs: Seq<crate::orchestrator::FileBinding>,
    module_id: u128,
)
    ensures
        bindings_of(
            crate::orchestrator::spec_reset_flags(
                crate::orchestrator::spec_drop_bindings(fs, module_id),
                module_id,
            ),
            module_id,
        ).len() == 0,
    decreases fs.len(),
{
    let d = crate::orchestrator::spec_drop_bindings(fs, module_id);
    let rf = crate::orchestrator::spec_reset_flags(d, module_id);
    lemma_drop_bindings_elements(fs, module_id);
    lemma_bindings_none(rf, module_id, d);
}

/// Reset flags over module-free bindings stay module-free.
proof fn lemma_bindings_none(
    rf: Seq<crate::orchestrator::FileBinding>,
    module_id: u128,
    d: Seq<crate::orchestrator::FileBinding>,
)
    requires
        rf == crate::orchestrator::spec_reset_flags(d, module_id),
        forall|i: int| 0 <= i < d.len() ==> (#[trigger] d[i]).module_id != module_id,
    ensures
        bindings_of(rf, module_id).len() == 0,
    decreases d.len(),
{
    if d.len() == 0 {
        assert(rf =~= Seq::<crate::orchestrator::FileBinding>::empty());
    } else {
        assert(rf.first() == d.first());
        assert(rf.drop_first() =~= crate::orchestrator::spec_reset_flags(
            d.drop_first(),
            module_id,
        ));
        assert(forall|i: int|
            0 <= i < d.drop_first().len() ==> #[trigger] d.drop_first()[i] == d[i + 1]);
        lemma_bindings_none(rf.drop_first(), module_id, d.drop_first());
    }
}

/// Dropped bindings never carry the module.
pub proof fn lemma_drop_bindings_elements(
    fs: Seq<crate::orchestrator::FileBinding>,
    module_id: u128,
)
    ensures
        forall|i: int|
            0 <= i < crate::orchestrator::spec_drop_bindings(fs, module_id).len() ==> (
            #[trigger] crate::orchestrator::spec_drop_bindings(fs, module_id)[i]).module_id
                != module_id,
    decreases fs.len(),
{
    if fs.len() > 0 {
        lemma_drop_bindings_elements(fs.drop_first(), module_id);
        let d = crate::orchestrator::spec_drop_bindings(fs, module_id);
        let dr = crate::orchestrator::spec_drop_bindings(fs.drop_first(), module_id);
        if fs.first().module_id != module_id {
            assert(forall|i: int| 1 <= i < d.len() ==> #[trigger] d[i] == dr[i - 1]);
        }
    }
}

/// A found module carries the identifier it was found by.
pub proof fn lemma_find_module_id(ms: Seq<crate::orchestrator::ModuleRowV>, id: u128)
    ensures
        find_module(ms, id) matches Some(m) ==> m.module_id == id,
    decreases ms.len(),
{
    if ms.len() > 0 && ms.first().module_id != id {
        lemma_find_module_id(ms.drop_first(), id);
    }
}

/// Setting a module's configuration rewrites exactly its row.
pub proof fn lemma_find_module_set_config(
    ms: Seq<crate::orchestrator::ModuleRowV>,
    id: u128,
    cfg: crate::config::ModuleConfigV,
)
    ensures
        find_module(ms, id) matches Some(m) ==> find_module(
            crate::orchestrator::spec_set_config(ms, id, cfg),
            id,
        ) == Some(
            crate::orchestrator::ModuleRowV {
                module_id: m.module_id,
                workspace_id: m.workspace_id,
                name: m.name,
                category: m.category,
                config: cfg,
            },
        ),
    decreases ms.len(),
{
    let mapped = crate::orchestrator::spec_set_config(ms, id, cfg);
    if ms.len() > 0 {
        assert(mapped.first() == (if ms.first().module_id == id {
            crate::orchestrator::ModuleRowV {
                module_id: ms.first().module_id,
                workspace_id: ms.first().workspace_id,
                name: ms.first().name,
                category: ms.first().category,
                config: cfg,
            }
        } else {
            ms.first()
        }));
        assert(mapped.drop_first() =~= crate::orchestrator::spec_set_config(
            ms.drop_first(),
            id,
            cfg,
        ));
        lemma_find_module_set_config(ms.drop_first(), id, cfg);
    }
}

/// Resetting a module and then running it leaves the module exactly as a run
/// of a freshly created module with the post-reset configuration would: the
/// same published messages, and — for that module — the same candidates, the
/// same active jobs, the same file bindings and the same configuration.
pub proof fn lemma_reset_then_run_like_fresh(
    s: StoreV,
    module_id: u128,
    cfg: crate::config::ModuleConfigV,
    outputs: Seq<Seq<char>>,
    chunks: Seq<crate::orchestrator::ChunkV>,
    new_job_id: u128,
    user_id: u128,
)
    requires
        find_module(s.modules, module_id) is Some,
    ensures
        ({
            let m = find_module(s.modules, module_id)->0;
            let s1 = spec_reset_store(s, module_id, cfg);
            let fresh = StoreV {
                modules: seq![
                    crate::orchestrator::ModuleRowV {
                        module_id: module_id,
                        workspace_id: m.workspace_id,
                        name: m.name,
                        category: m.category,
                        config: cfg,
                    },
                ],
                jobs: Seq::empty(),
                candidates: Seq::empty(),
                files: Seq::empty(),
                data: s.data,
            };
            let s2 = spec_run_store(s1, module_id, outputs, chunks, new_job_id);
            let f2 = spec_run_store(fresh, module_id, outputs, chunks, new_job_id);
            &&& spec_run_messages(s1, module_id, outputs, chunks, new_job_id, user_id)
                == spec_run_messages(fresh, module_id, outputs, chunks, new_job_id, user_id)
            &&& candidates_of(s2.candidates, module_id) == candidates_of(
                f2.candidates,
                module_id,
            )
            &&& active_jobs_of(s2.jobs, module_id) == active_jobs_of(f2.jobs, module_id)
            &&& bindings_of(s2.files, module_id) == bindings_of(f2.files, module_id)
            &&& find_module(s2.modules, module_id)->0.config == find_module(
                f2.modules,
                module_id,
            )->0.config
        }),
{
    let m = find_module(s.modules, module_id)->0;
    let s1 = spec_reset_store(s, module_id, cfg);
    let freshrow = crate::orchestrator::ModuleRowV {
        module_id: module_id,
        workspace_id: m.workspace_id,
        name: m.name,
        category: m.category,
        config: cfg,
    };
    let fresh = StoreV {
        modules: seq![freshrow],
        jobs: Seq::empty(),
        candidates: Seq::empty(),
        files: Seq::empty(),
        data: s.data,
    };
    lemma_find_module_set_config(s.modules, module_id, cfg);
    lemma_find_module_id(s.modules, module_id);
    assert(find_module(s1.modules, module_id) == Some(freshrow));
    assert(find_module(fresh.modules, module_id) == Some(freshrow));
    let cfg2 = spec_apply_preprocess(cfg, outputs, 0);
    let s2 = spec_run_store(s1, module_id, outputs, chunks, new_job_id);
    let f2 = spec_run_store(fresh, module_id, outputs, chunks, new_job_id);
    // Candidates: both sides have none for the module.
    lemma_candidates_of_after_drop(s1.candidates, module_id);
    lemma_candidates_of_after_drop(fresh.candidates, module_id);
    assert(candidates_of(s2.candidates, module_id) =~= candidates_of(f2.candidates, module_id));
    // Jobs: both sides have exactly the fresh job active.
    let newjob = JobRow {
        job_id: new_job_id,
        module_id: module_id,
        workspace_id: m.workspace_id,
        target_count: chunks.len() as usize,
        superseded: false,
    };
    lemma_active_after_supersede(spec_supersede_jobs(s.jobs, module_id), module_id);
    lemma_active_push(spec_supersede_jobs(s1.jobs, module_id), newjob, module_id);
    lemma_active_after_supersede(s1.jobs, module_id);
    assert(spec_supersede_jobs(Seq::<JobRow>::empty(), module_id)
        =~= Seq::<JobRow>::empty());
    lemma_active_push(Seq::<JobRow>::empty(), newjob, module_id);
    lemma_supersede_idempotent(s.jobs, module_id);
    assert(active_jobs_of(s2.jobs, module_id) =~= active_jobs_of(f2.jobs, module_id));
    // Bindings: both sides have none for the module.
    lemma_bindings_after_drop(s.files, module_id);
    assert(f2.files =~= Seq::<crate::orchestrator::FileBinding>::empty());
    assert(bindings_of(s2.files, module_id) =~= bindings_of(f2.files, module_id));
    // Configuration: both sides carry the preprocessed post-reset one.
    lemma_find_module_set_config(s1.modules, module_id, cfg2);
    lemma_find_module_set_config(fresh.modules, module_id, cfg2);
}

/// Superseding twice is superseding once.
pub proof fn lemma_supersede_idempotent(js: Seq<JobRow>, module_id: u128)
    ensures
        spec_supersede_jobs(spec_supersede_jobs(js, module_id), module_id)
            == spec_supersede_jobs(js, module_id),
{
    assert(spec_supersede_jobs(spec_supersede_jobs(js, module_id), module_id)
        =~= spec_supersede_jobs(js, module_id));
}

} // verus!
