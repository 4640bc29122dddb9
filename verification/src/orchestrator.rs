//! The job lifecycle state machine.
//!
//! A generation run is triggered by `start_generation`, which validates the
//! request, creates the job in `Pending` and returns at once; the run itself
//! happens afterwards, on a detached timeline. A run is the sequence
//! `begin_run` (into `Processing`), aggregation and prompt assembly, the
//! external generation call, and `complete_run` (into `Completed` or
//! `Failed`). A collaborator failure before the generation call is recorded
//! with `fail_run`. Terminal jobs are immutable; whoever hosts the run calls
//! the external service between `begin_run` and `complete_run` and hands its
//! outcome in as a plain `Result`.

use vstd::prelude::*;

use crate::dto::{GenerateSpecificationRequest, GenerateSpecificationResponse};
use crate::errors::{AppError, GenerationError};
use crate::model::{JobStatus, SpecMetadata, Specification, SpecificationJob};
use crate::store::{spec_pred, specs_of, SpecStore};

verus! {

/// Validates the trigger request and creates the job. On valid input the
/// job is created in `Pending` and its id returned immediately — the run has
/// not happened yet. On an empty model identifier the request is rejected
/// and no job record exists.
pub fn start_generation(
    store: &mut SpecStore,
    project_id: u64,
    payload: GenerateSpecificationRequest,
) -> (r: Result<GenerateSpecificationResponse, AppError>)
    requires
        old(store).wf(),
    ensures
        final(store).wf(),
        final(store).specifications == old(store).specifications,
        match r {
            Ok(resp) => {
                &&& payload.model@.len() >= 1
                &&& resp.job_id as int == old(store).jobs@.len() as int
                &&& resp.status == JobStatus::Pending
                &&& final(store).jobs@.len() == old(store).jobs@.len() + 1
                &&& (forall|j: int|
                    0 <= j < old(store).jobs@.len() ==> final(store).jobs@[j] == old(
                        store,
                    ).jobs@[j])
                &&& ({
                    let job = final(store).jobs@[resp.job_id as int];
                    &&& job.id == resp.job_id
                    &&& job.project_id == project_id
                    &&& job.status == JobStatus::Pending
                    &&& job.model == payload.model
                    &&& job.error_message is None
                    &&& job.completed_at is None
                })
            },
            Err(e) => {
                &&& e is Validation
                &&& payload.model@.len() == 0
                &&& final(store).jobs == old(store).jobs
                &&& final(store).clock == old(store).clock
            },
        },
{
    if let Err(e) = payload.validate() {
        return Err(e);
    }
    let job = store.create_job(project_id, payload.model);
    Ok(GenerateSpecificationResponse { job_id: job.id, status: job.status })
}

/// First step of the asynchronous run: the job leaves `Pending` for
/// `Processing`. Nothing else changes.
pub fn begin_run(store: &mut SpecStore, job_id: u64)
    requires
        old(store).wf(),
        (job_id as int) < old(store).jobs@.len() as int,
        old(store).jobs@[job_id as int].status == JobStatus::Pending,
    ensures
        final(store).wf(),
        final(store).specifications == old(store).specifications,
        final(store).jobs@.len() == old(store).jobs@.len(),
        forall|j: int|
            0 <= j < old(store).jobs@.len() && j != job_id as int ==> final(store).jobs@[j] == old(
                store,
            ).jobs@[j],
        ({
            let job = final(store).jobs@[job_id as int];
            let prev = old(store).jobs@[job_id as int];
            &&& job.id == prev.id
            &&& job.project_id == prev.project_id
            &&& job.model == prev.model
            &&& job.created_at == prev.created_at
            &&& job.status == JobStatus::Processing
            &&& job.error_message is None
            &&& job.completed_at is None
        }),
{
    store.update_job_status(job_id, JobStatus::Processing, None);
}

/// Records a run that failed before reaching the generation call (an
/// aggregation or other collaborator failure): the job becomes `Failed`,
/// carrying the failure's message, its completion time is stamped, and no
/// specification is written.
pub fn fail_run(store: &mut SpecStore, job_id: u64, error: &AppError)
    requires
        old(store).wf(),
        (job_id as int) < old(store).jobs@.len() as int,
        old(store).jobs@[job_id as int].status == JobStatus::Processing,
    ensures
        final(store).wf(),
        final(store).specifications == old(store).specifications,
        final(store).jobs@.len() == old(store).jobs@.len(),
        forall|j: int|
            0 <= j < old(store).jobs@.len() && j != job_id as int ==> final(store).jobs@[j] == old(
                store,
            ).jobs@[j],
        ({
            let job = final(store).jobs@[job_id as int];
            let prev = old(store).jobs@[job_id as int];
            &&& job.id == prev.id
            &&& job.project_id == prev.project_id
            &&& job.model == prev.model
            &&& job.created_at == prev.created_at
            &&& job.status == JobStatus::Failed
            &&& job.error_message matches Some(m) && m@ == error.message_view()
            &&& job.completed_at is Some
        }),
{
    store.update_job_status(job_id, JobStatus::Failed, Some(error.message()));
}

/// Final steps of the run, fed with the generation outcome for the assembled
/// prompt. On generated text the document is persisted as the project's next
/// version, its metadata naming this job and the model, and the job
/// completes with no error message. If generation failed — or the document
/// could not be saved — the job fails with a message that names which of the
/// two happened. Either way the job's completion time is stamped and the
/// record is from now on immutable.
pub fn complete_run(
    store: &mut SpecStore,
    job_id: u64,
    project_id: u64,
    model: String,
    outcome: Result<String, GenerationError>,
)
    requires
        old(store).wf(),
        (job_id as int) < old(store).jobs@.len() as int,
        old(store).jobs@[job_id as int].status == JobStatus::Processing,
    ensures
        final(store).wf(),
        final(store).jobs@.len() == old(store).jobs@.len(),
        forall|j: int|
            0 <= j < old(store).jobs@.len() && j != job_id as int ==> final(store).jobs@[j] == old(
                store,
            ).jobs@[j],
        ({
            let job = final(store).jobs@[job_id as int];
            let prev = old(store).jobs@[job_id as int];
            &&& job.id == prev.id
            &&& job.project_id == prev.project_id
            &&& job.model == prev.model
            &&& job.created_at == prev.created_at
            &&& job.completed_at is Some
        }),
        ({
            let job = final(store).jobs@[job_id as int];
            match outcome {
                Ok(text) => {
                    if specs_of(old(store).specifications@, project_id).len() + 1 <= u32::MAX {
                        &&& job.status == JobStatus::Completed
                        &&& job.error_message is None
                        &&& final(store).specifications@.len() == old(
                            store,
                        ).specifications@.len() + 1
                        &&& (forall|j: int|
                            0 <= j < old(store).specifications@.len()
                                ==> (#[trigger] final(store).specifications@[j]) == old(store).specifications@[j])
                        &&& ({
                            let sp = final(store).specifications@.last();
                            &&& sp.project_id == project_id
                            &&& sp.model == model
                            &&& sp.text == text
                            &&& sp.metadata == Some(SpecMetadata { job_id, model })
                            &&& sp.version as int == specs_of(
                                old(store).specifications@,
                                project_id,
                            ).len() + 1
                        })
                    } else {
                        &&& job.status == JobStatus::Failed
                        &&& job.error_message matches Some(m) && m@
                            == "Failed to save specification: "@ + "Data access error: "@
                            + "Version numbers exhausted for project"@
                        &&& final(store).specifications == old(store).specifications
                    }
                },
                Err(g) => {
                    &&& job.status == JobStatus::Failed
                    &&& job.error_message matches Some(m) && m@
                        == "Failed to generate specification: "@ + g.message_view()
                    &&& final(store).specifications == old(store).specifications
                },
            }
        }),
{
    match outcome {
        Ok(text) => {
            let meta_model = model.clone();
            let metadata = SpecMetadata { job_id, model: meta_model };
            match store.create_specification(project_id, model, text, Some(metadata)) {
                Ok(_) => {
                    store.update_job_status(job_id, JobStatus::Completed, None);
                },
                Err(e) => {
                    let mut m = "Failed to save specification: ".to_owned();
                    let em = e.message();
                    m.append(em.as_str());
                    store.update_job_status(job_id, JobStatus::Failed, Some(m));
                },
            }
        },
        Err(g) => {
            let mut m = "Failed to generate specification: ".to_owned();
            let gm = g.message();
            m.append(gm.as_str());
            store.update_job_status(job_id, JobStatus::Failed, Some(m));
        },
    }
}

/// Polls a job: the only way to observe a run's outcome. Fails exactly when
/// no job with this id exists.
pub fn get_job_status(store: &SpecStore, job_id: u64) -> (r: Result<SpecificationJob, AppError>)
    requires
        store.wf(),
    ensures
        match r {
            Ok(job) => (job_id as int) < store.jobs@.len() as int && job == store.jobs@[job_id as int],
            Err(e) => {
                &&& e matches AppError::NotFound(m) && m@ == "Job not found"@
                &&& (job_id as int) >= store.jobs@.len() as int
            },
        },
{
    match store.find_job_by_id(job_id) {
        Some(job) => Ok(job),
        None => Err(AppError::NotFound("Job not found".to_owned())),
    }
}

// ===================== laws =====================

/// Law: in a well-formed store the versions of one project are gapless from
/// one — the `k`-th specification ever created for the project (oldest
/// first) carries version `k + 1`, so versions only grow, by exactly one,
/// and are never reused.
pub proof fn lemma_version_monotonic(store: SpecStore, project_id: u64)
    requires
        store.wf(),
    ensures
        forall|k: int|
            0 <= k < specs_of(store.specifications@, project_id).len() ==> (#[trigger] specs_of(
                store.specifications@,
                project_id,
            )[k]).version as int == k + 1,
{
    lemma_filter_versions(store.specifications@, project_id);
}

proof fn lemma_filter_versions(s: Seq<Specification>, project_id: u64)
    requires
        forall|i: int|
            0 <= i < s.len() ==> (#[trigger] s[i]).version as int == specs_of(
                s.take(i),
                s[i].project_id,
            ).len() + 1,
    ensures
        forall|k: int|
            0 <= k < specs_of(s, project_id).len() ==> (#[trigger] specs_of(s, project_id)[k]).version
                as int == k + 1,
    decreases s.len(),
{
    reveal(Seq::filter);
    if s.len() > 0 {
        let d = s.drop_last();
        assert forall|i: int|
            0 <= i < d.len() implies (#[trigger] d[i]).version as int == specs_of(
            d.take(i),
            d[i].project_id,
        ).len() + 1 by {
            assert(d[i] == s[i]);
            assert(d.take(i) =~= s.take(i));
        }
        lemma_filter_versions(d, project_id);
        let f = specs_of(s, project_id);
        let fd = specs_of(d, project_id);
        if spec_pred(project_id)(s.last()) {
            assert(f == fd.push(s.last()));
            assert(d =~= s.take(s.len() - 1));
            assert(s.last().version as int == specs_of(d, s.last().project_id).len() + 1);
            assert(s.last().project_id == project_id);
            assert forall|k: int| 0 <= k < f.len() implies (#[trigger] f[k]).version as int == k
                + 1 by {
                if k < fd.len() {
                    assert(f[k] == fd[k]);
                } else {
                    assert(f[k] == s.last());
                }
            }
        } else {
            assert(f == fd);
        }
    }
}

} // verus!
