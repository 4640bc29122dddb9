use specgen::dto::{CreateDomainRequest, GenerateSpecificationRequest, UpdateDomainRequest};
use specgen::errors::{AppError, GenerationError};
use specgen::generation::extract_generated_text;
use specgen::model::JobStatus;
use specgen::numfmt::u64_to_string;
use specgen::orchestrator::{begin_run, complete_run, fail_run, get_job_status, start_generation};
use specgen::prompt::assemble;
use specgen::snapshot::aggregate;
use specgen::store::{ProjectStore, SpecStore};

fn trigger(store: &mut SpecStore, project_id: u64, model: &str) -> u64 {
    let resp = start_generation(
        store,
        project_id,
        GenerateSpecificationRequest { model: model.to_string() },
    )
    .unwrap();
    resp.job_id
}

#[test]
fn test_version_monotonicity() {
    let mut store = SpecStore::new();
    let v1 = store
        .create_specification(1, "m".to_string(), "one".to_string(), None)
        .unwrap();
    let v2 = store
        .create_specification(1, "m".to_string(), "two".to_string(), None)
        .unwrap();
    let v3 = store
        .create_specification(1, "m".to_string(), "three".to_string(), None)
        .unwrap();
    assert_eq!(v1.version, 1);
    assert_eq!(v2.version, 2);
    assert_eq!(v3.version, 3);

    // A different project starts at 1 independently.
    let other = store
        .create_specification(2, "m".to_string(), "first".to_string(), None)
        .unwrap();
    assert_eq!(other.version, 1);

    // Listing is newest version first.
    let listed = store.find_specifications_by_project(1);
    assert_eq!(listed.len(), 3);
    assert_eq!(listed[0].version, 3);
    assert_eq!(listed[1].version, 2);
    assert_eq!(listed[2].version, 1);
}

#[test]
fn test_start_generation_rejects_empty_model() {
    let mut store = SpecStore::new();
    let r = start_generation(&mut store, 1, GenerateSpecificationRequest { model: String::new() });
    assert!(matches!(r, Err(AppError::Validation(_))));
    // No partial job exists for a rejected trigger.
    assert_eq!(store.jobs.len(), 0);
    assert!(store.find_job_by_id(0).is_none());
}

#[test]
fn test_job_lifecycle_success() {
    let mut store = SpecStore::new();
    let job_id = trigger(&mut store, 7, "model-a");
    let pending = get_job_status(&store, job_id).unwrap();
    assert_eq!(pending.status, JobStatus::Pending);
    assert!(pending.error_message.is_none());
    assert!(pending.completed_at.is_none());

    begin_run(&mut store, job_id);
    let processing = get_job_status(&store, job_id).unwrap();
    assert_eq!(processing.status, JobStatus::Processing);
    assert!(processing.completed_at.is_none());

    complete_run(&mut store, job_id, 7, "model-a".to_string(), Ok("the document".to_string()));
    let done = get_job_status(&store, job_id).unwrap();
    assert_eq!(done.status, JobStatus::Completed);
    assert!(done.error_message.is_none());
    assert!(done.completed_at.is_some());

    // The specification was persisted with version 1 and metadata naming the
    // job and the model.
    let specs = store.find_specifications_by_project(7);
    assert_eq!(specs.len(), 1);
    assert_eq!(specs[0].version, 1);
    assert_eq!(specs[0].text, "the document");
    assert_eq!(specs[0].model, "model-a");
    let meta = specs[0].metadata.as_ref().unwrap();
    assert_eq!(meta.job_id, job_id);
    assert_eq!(meta.model, "model-a");
    let found = store.find_specification_by_id(specs[0].id).unwrap();
    assert_eq!(found.text, "the document");
}

#[test]
fn test_job_lifecycle_aggregation_failure() {
    let mut store = SpecStore::new();
    let job_id = trigger(&mut store, 7, "model-a");
    begin_run(&mut store, job_id);
    fail_run(&mut store, job_id, &AppError::DataAccess("connection refused".to_string()));
    let failed = get_job_status(&store, job_id).unwrap();
    assert_eq!(failed.status, JobStatus::Failed);
    let msg = failed.error_message.unwrap();
    assert!(!msg.is_empty());
    assert_eq!(msg, "Data access error: connection refused");
    assert!(failed.completed_at.is_some());
    // No specification was created.
    assert!(store.find_specifications_by_project(7).is_empty());
}

#[test]
fn test_job_lifecycle_generation_failure() {
    let mut store = SpecStore::new();
    let job_id = trigger(&mut store, 7, "model-a");
    begin_run(&mut store, job_id);
    complete_run(
        &mut store,
        job_id,
        7,
        "model-a".to_string(),
        Err(GenerationError::ServiceError(500, "boom".to_string())),
    );
    let failed = get_job_status(&store, job_id).unwrap();
    assert_eq!(failed.status, JobStatus::Failed);
    assert_eq!(
        failed.error_message.unwrap(),
        "Failed to generate specification: Generation service error: 500 - boom"
    );
    assert!(store.find_specifications_by_project(7).is_empty());
}

#[test]
fn test_get_job_status_not_found() {
    let store = SpecStore::new();
    let r = get_job_status(&store, 42);
    assert!(matches!(r, Err(AppError::NotFound(_))));
}

#[test]
fn test_generation_error_messages() {
    assert_eq!(
        GenerationError::TransportFailure("refused".to_string()).message(),
        "Failed to call generation service: refused"
    );
    assert_eq!(
        GenerationError::ServiceError(404, "missing".to_string()).message(),
        "Generation service error: 404 - missing"
    );
    assert_eq!(
        GenerationError::MalformedResponse("bad json".to_string()).message(),
        "Failed to parse generation service response: bad json"
    );
    assert_eq!(
        GenerationError::EmptyResult.message(),
        "Generation service returned empty response"
    );
}

#[test]
fn test_app_error_messages() {
    assert_eq!(
        AppError::Validation("model: length must be at least 1".to_string()).message(),
        "Validation error: model: length must be at least 1"
    );
    assert_eq!(AppError::NotFound("Job not found".to_string()).message(), "Not found: Job not found");
    assert_eq!(AppError::DataAccess("down".to_string()).message(), "Data access error: down");
}

#[test]
fn test_decimal_rendering() {
    assert_eq!(u64_to_string(0), "0");
    assert_eq!(u64_to_string(7), "7");
    assert_eq!(u64_to_string(42), "42");
    assert_eq!(u64_to_string(100), "100");
    assert_eq!(u64_to_string(18446744073709551615), "18446744073709551615");
}

#[test]
fn test_extract_generated_text() {
    let r = extract_generated_text(&vec!["first".to_string(), "second".to_string()]);
    assert_eq!(r.unwrap(), "first");
    let e = extract_generated_text(&vec![]);
    assert!(matches!(e, Err(GenerationError::EmptyResult)));
}

fn seeded_project() -> ProjectStore {
    let mut store = ProjectStore::new();
    let d = store
        .create_domain(
            1,
            CreateDomainRequest { name: "User".to_string(), description: Some("People".to_string()) },
        )
        .unwrap();
    store
        .create_attribute(d.id, "email".to_string(), "email".to_string(), true, None, None)
        .unwrap();
    let q = store
        .create_requirement(
            1,
            "Login".to_string(),
            None,
            "Given a user exists\nWhen they log in\nThen they see ${Dashboard.summary}".to_string(),
        )
        .unwrap();
    store
        .create_test_case(q.id, "happy".to_string(), None, Some("sees dashboard".to_string()))
        .unwrap();
    store
}

#[test]
fn test_create_requirement_parses_steps() {
    let store = seeded_project();
    let steps = store.find_steps_by_requirement(0);
    assert_eq!(steps.len(), 3);
    assert_eq!(steps[0].step_type, "given");
    assert_eq!(steps[0].step_order, 0);
    assert_eq!(steps[0].step_text, "a user exists");
    assert_eq!(steps[1].step_type, "when");
    assert_eq!(steps[1].step_order, 1);
    assert_eq!(steps[2].step_type, "then");
    assert_eq!(steps[2].step_order, 2);
    assert_eq!(steps[2].domain_references, vec!["Dashboard.summary"]);
}

#[test]
fn test_create_requirement_rejects_invalid_gherkin() {
    let mut store = ProjectStore::new();
    let r = store.create_requirement(1, "t".to_string(), None, "just prose".to_string());
    match r {
        Err(AppError::Validation(m)) => {
            assert_eq!(
                m,
                "Invalid Gherkin: No valid Gherkin steps found. Please use Given/When/Then/And/But keywords."
            );
        },
        _ => panic!("expected a validation error"),
    }
    assert_eq!(store.requirements.len(), 0);
    assert_eq!(store.steps.len(), 0);
}

#[test]
fn test_create_domain_rejects_empty_name() {
    let mut store = ProjectStore::new();
    let r = store.create_domain(1, CreateDomainRequest { name: String::new(), description: None });
    assert!(matches!(r, Err(AppError::Validation(_))));
    assert_eq!(store.domains.len(), 0);
}

#[test]
fn test_update_domain() {
    let mut store = seeded_project();
    let updated = store
        .update_domain(
            0,
            UpdateDomainRequest { name: Some("Person".to_string()), description: None },
        )
        .unwrap();
    assert_eq!(updated.name, "Person");
    assert_eq!(updated.description.as_deref(), Some("People"));
    let missing = store.update_domain(9, UpdateDomainRequest { name: None, description: None });
    assert!(matches!(missing, Err(AppError::NotFound(_))));
}

#[test]
fn test_create_attribute_requires_domain() {
    let mut store = ProjectStore::new();
    let r = store.create_attribute(5, "a".to_string(), "text".to_string(), false, None, None);
    assert!(matches!(r, Err(AppError::NotFound(_))));
}

#[test]
fn test_create_step_order_must_continue() {
    let mut store = seeded_project();
    // The requirement already has steps 0..2; order 3 continues them.
    let ok = store.create_step(0, "and".to_string(), 3, "they stay".to_string(), vec![]);
    assert!(ok.is_ok());
    // An order that skips ahead is rejected.
    let bad = store.create_step(0, "and".to_string(), 7, "they leave".to_string(), vec![]);
    assert!(matches!(bad, Err(AppError::Validation(_))));
    // A missing requirement is reported as such.
    let missing = store.create_step(9, "and".to_string(), 0, "x".to_string(), vec![]);
    assert!(matches!(missing, Err(AppError::NotFound(_))));
}

#[test]
fn test_aggregate_collects_project_data_in_order() {
    let mut store = seeded_project();
    // A second domain for the same project, plus a foreign project's domain.
    let d2 = store
        .create_domain(1, CreateDomainRequest { name: "Order".to_string(), description: None })
        .unwrap();
    store
        .create_attribute(d2.id, "total".to_string(), "number".to_string(), false, None, None)
        .unwrap();
    store
        .create_domain(2, CreateDomainRequest { name: "Foreign".to_string(), description: None })
        .unwrap();

    let snapshot = aggregate(&store, 1);
    assert_eq!(snapshot.domains.len(), 2);
    assert_eq!(snapshot.domains[0].name, "User");
    assert_eq!(snapshot.domains[1].name, "Order");
    // Attributes come grouped by domain, in domain order.
    assert_eq!(snapshot.attributes.len(), 2);
    assert_eq!(snapshot.attributes[0].name, "email");
    assert_eq!(snapshot.attributes[1].name, "total");
    assert_eq!(snapshot.requirements.len(), 1);
    assert_eq!(snapshot.steps.len(), 3);
    assert_eq!(snapshot.test_cases.len(), 1);
    // A snapshot of the foreign project sees only its own domain.
    let other = aggregate(&store, 2);
    assert_eq!(other.domains.len(), 1);
    assert_eq!(other.domains[0].name, "Foreign");
    assert_eq!(other.requirements.len(), 0);
}

#[test]
fn test_full_pipeline_produces_versioned_document() {
    let project = seeded_project();
    let mut specs = SpecStore::new();
    let job_id = trigger(&mut specs, 1, "model-b");
    begin_run(&mut specs, job_id);
    let snapshot = aggregate(&project, 1);
    let prompt = assemble(&snapshot);
    assert!(prompt.contains("## User"));
    assert!(prompt.contains("given a user exists"));
    // Pretend the external service echoed a document back.
    complete_run(&mut specs, job_id, 1, "model-b".to_string(), Ok(prompt));
    let job = get_job_status(&specs, job_id).unwrap();
    assert_eq!(job.status, JobStatus::Completed);
    assert_eq!(specs.find_specifications_by_project(1).len(), 1);
}

#[test]
fn test_job_status_names() {
    assert_eq!(JobStatus::Pending.as_str(), "pending");
    assert_eq!(JobStatus::Processing.as_str(), "processing");
    assert_eq!(JobStatus::Completed.as_str(), "completed");
    assert_eq!(JobStatus::Failed.as_str(), "failed");
}
