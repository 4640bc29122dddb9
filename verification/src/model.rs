//! Data model of the pipeline.
//!
//! Records are held as plain values: identifiers are indices assigned by the
//! owning store, timestamps are values of the store's logical clock. Each
//! record type carrying strings has a mathematical view used by contracts.

use vstd::prelude::*;

verus! {

// ===================== job lifecycle =====================

/// Lifecycle state of a specification job:
/// `Pending -> Processing -> {Completed, Failed}`.
#[derive(Clone, Copy, PartialEq, Eq, Structural, Debug)]
pub enum JobStatus {
    Pending,
    Processing,
    Completed,
    Failed,
}

impl JobStatus {
    /// Terminal states carry no further transitions.
    pub open spec fn is_terminal(self) -> bool {
        self == JobStatus::Completed || self == JobStatus::Failed
    }

    /// The lower-case name reported for this status.
    pub open spec fn name_view(self) -> Seq<char> {
        match self {
            JobStatus::Pending => "pending"@,
            JobStatus::Processing => "processing"@,
            JobStatus::Completed => "completed"@,
            JobStatus::Failed => "failed"@,
        }
    }

    /// Renders the status under its lower-case name.
    pub fn as_str(&self) -> (r: &'static str)
        ensures
            r@ == self.name_view(),
    {
        match self {
            JobStatus::Pending => "pending",
            JobStatus::Processing => "processing",
            JobStatus::Completed => "completed",
            JobStatus::Failed => "failed",
        }
    }
}

// ===================== project data =====================

/// A modeled business domain of a project.
pub struct Domain {
    pub id: u64,
    pub project_id: u64,
    pub name: String,
    pub description: Option<String>,
}

/// One attribute of a domain.
pub struct DomainAttribute {
    pub id: u64,
    pub domain_id: u64,
    pub name: String,
    pub data_type: String,
    pub is_required: bool,
    pub default_value: Option<String>,
    pub validation_rules: Option<String>,
}

/// A behaviour-driven requirement of a project.
pub struct Requirement {
    pub id: u64,
    pub project_id: u64,
    pub title: String,
    pub description: Option<String>,
    pub gherkin_scenario: String,
}

/// One stored step of a requirement's scenario.
pub struct RequirementStep {
    pub id: u64,
    pub requirement_id: u64,
    pub step_type: String,
    pub step_order: usize,
    pub step_text: String,
    pub domain_references: Vec<String>,
}

/// A test case attached to a requirement.
pub struct TestCase {
    pub id: u64,
    pub requirement_id: u64,
    pub name: String,
    pub description: Option<String>,
    pub expected_outcome: Option<String>,
}

// ===================== views =====================

/// Mathematical model of a `Domain`.
#[verifier::ext_equal]
pub ghost struct DomainView {
    pub id: int,
    pub project_id: int,
    pub name: Seq<char>,
    pub description: Option<Seq<char>>,
}

/// Mathematical model of a `DomainAttribute`.
#[verifier::ext_equal]
pub ghost struct AttributeView {
    pub id: int,
    pub domain_id: int,
    pub name: Seq<char>,
    pub data_type: Seq<char>,
    pub is_required: bool,
    pub default_value: Option<Seq<char>>,
    pub validation_rules: Option<Seq<char>>,
}

/// Mathematical model of a `Requirement`.
#[verifier::ext_equal]
pub ghost struct RequirementView {
    pub id: int,
    pub project_id: int,
    pub title: Seq<char>,
    pub description: Option<Seq<char>>,
    pub gherkin_scenario: Seq<char>,
}

/// Mathematical model of a `RequirementStep`.
#[verifier::ext_equal]
pub ghost struct StepRowView {
    pub id: int,
    pub requirement_id: int,
    pub step_type: Seq<char>,
    pub step_order: int,
    pub step_text: Seq<char>,
    pub domain_references: Seq<Seq<char>>,
}

/// Mathematical model of a `TestCase`.
#[verifier::ext_equal]
pub ghost struct TestCaseView {
    pub id: int,
    pub requirement_id: int,
    pub name: Seq<char>,
    pub description: Option<Seq<char>>,
    pub expected_outcome: Option<Seq<char>>,
}

/// The view of an optional string.
pub open spec fn opt_view(o: Option<String>) -> Option<Seq<char>> {
    match o {
        Some(s) => Some(s@),
        None => None,
    }
}

impl View for Domain {
    type V = DomainView;

    open spec fn view(&self) -> DomainView {
        DomainView {
            id: self.id as int,
            project_id: self.project_id as int,
            name: self.name@,
            description: opt_view(self.description),
        }
    }
}

impl View for DomainAttribute {
    type V = AttributeView;

    open spec fn view(&self) -> AttributeView {
        AttributeView {
            id: self.id as int,
            domain_id: self.domain_id as int,
            name: self.name@,
            data_type: self.data_type@,
            is_required: self.is_required,
            default_value: opt_view(self.default_value),
            validation_rules: opt_view(self.validation_rules),
        }
    }
}

impl View for Requirement {
    type V = RequirementView;

    open spec fn view(&self) -> RequirementView {
        RequirementView {
            id: self.id as int,
            project_id: self.project_id as int,
            title: self.title@,
            description: opt_view(self.description),
            gherkin_scenario: self.gherkin_scenario@,
        }
    }
}

impl View for RequirementStep {
    type V = StepRowView;

    open spec fn view(&self) -> StepRowView {
        StepRowView {
            id: self.id as int,
            requirement_id: self.requirement_id as int,
            step_type: self.step_type@,
            step_order: self.step_order as int,
            step_text: self.step_text@,
            domain_references: self.domain_references.deep_view(),
        }
    }
}

impl View for TestCase {
    type V = TestCaseView;

    open spec fn view(&self) -> TestCaseView {
        TestCaseView {
            id: self.id as int,
            requirement_id: self.requirement_id as int,
            name: self.name@,
            description: opt_view(self.description),
            expected_outcome: opt_view(self.expected_outcome),
        }
    }
}

// ===================== clones =====================

/// Copies an optional string, value for value.
pub fn clone_opt_string(o: &Option<String>) -> (r: Option<String>)
    ensures
        r == *o,
{
    match o {
        Some(s) => Some(s.clone()),
        None => None,
    }
}

impl Clone for Domain {
    fn clone(&self) -> (res: Self)
        ensures
            res == *self,
    {
        Domain {
            id: self.id,
            project_id: self.project_id,
            name: self.name.clone(),
            description: clone_opt_string(&self.description),
        }
    }
}

impl Clone for DomainAttribute {
    fn clone(&self) -> (res: Self)
        ensures
            res == *self,
    {
        DomainAttribute {
            id: self.id,
            domain_id: self.domain_id,
            name: self.name.clone(),
            data_type: self.data_type.clone(),
            is_required: self.is_required,
            default_value: clone_opt_string(&self.default_value),
            validation_rules: clone_opt_string(&self.validation_rules),
        }
    }
}

impl Clone for Requirement {
    fn clone(&self) -> (res: Self)
        ensures
            res == *self,
    {
        Requirement {
            id: self.id,
            project_id: self.project_id,
            title: self.title.clone(),
            description: clone_opt_string(&self.description),
            gherkin_scenario: self.gherkin_scenario.clone(),
        }
    }
}

/// Copies a vector of strings, value for value at the level of views.
pub fn clone_string_vec(v: &Vec<String>) -> (r: Vec<String>)
    ensures
        r.deep_view() == v.deep_view(),
        r@.len() == v@.len(),
{
    let mut refs: Vec<String> = Vec::new();
    let mut i: usize = 0;
    proof {
        assert(refs.deep_view() =~= v.deep_view().take(0));
    }
    while i < v.len()
        invariant
            0 <= i <= v.len(),
            refs.deep_view() == v.deep_view().take(i as int),
            refs@.len() == i,
        decreases v.len() - i,
    {
        let ghost prev = refs.deep_view();
        refs.push(v[i].clone());
        proof {
            assert(refs.deep_view() =~= prev.push(v@[i as int]@));
            assert(v.deep_view().take(i as int + 1) =~= prev.push(v.deep_view()[i as int]));
        }
        i = i + 1;
    }
    proof {
        assert(v.deep_view().take(v.deep_view().len() as int) =~= v.deep_view());
    }
    refs
}

impl Clone for RequirementStep {
    /// A copied step row has the same view; the string vector inside is
    /// rebuilt, so equality holds of the views, not the values.
    fn clone(&self) -> (res: Self)
        ensures
            res@ == self@,
    {
        let refs = clone_string_vec(&self.domain_references);
        let res = RequirementStep {
            id: self.id,
            requirement_id: self.requirement_id,
            step_type: self.step_type.clone(),
            step_order: self.step_order,
            step_text: self.step_text.clone(),
            domain_references: refs,
        };
        proof {
            assert(res@ =~= self@);
        }
        res
    }
}

impl Clone for TestCase {
    fn clone(&self) -> (res: Self)
        ensures
            res == *self,
    {
        TestCase {
            id: self.id,
            requirement_id: self.requirement_id,
            name: self.name.clone(),
            description: clone_opt_string(&self.description),
            expected_outcome: clone_opt_string(&self.expected_outcome),
        }
    }
}

// ===================== generated artifacts =====================

/// Metadata recorded with a generated specification: the job that produced
/// it and the model used.
pub struct SpecMetadata {
    pub job_id: u64,
    pub model: String,
}

impl Clone for SpecMetadata {
    fn clone(&self) -> (res: Self)
        ensures
            res == *self,
    {
        SpecMetadata { job_id: self.job_id, model: self.model.clone() }
    }
}

/// A persisted, versioned specification document.
pub struct Specification {
    pub id: u64,
    pub project_id: u64,
    pub model: String,
    pub text: String,
    pub metadata: Option<SpecMetadata>,
    pub version: u32,
    pub created_at: u64,
}

fn clone_opt_metadata(o: &Option<SpecMetadata>) -> (r: Option<SpecMetadata>)
    ensures
        r == *o,
{
    match o {
        Some(m) => Some(m.clone()),
        None => None,
    }
}

impl Clone for Specification {
    fn clone(&self) -> (res: Self)
        ensures
            res == *self,
    {
        Specification {
            id: self.id,
            project_id: self.project_id,
            model: self.model.clone(),
            text: self.text.clone(),
            metadata: clone_opt_metadata(&self.metadata),
            version: self.version,
            created_at: self.created_at,
        }
    }
}

/// The tracked unit of asynchronous generation work.
pub struct SpecificationJob {
    pub id: u64,
    pub project_id: u64,
    pub status: JobStatus,
    pub model: String,
    pub error_message: Option<String>,
    pub created_at: u64,
    pub completed_at: Option<u64>,
}

impl Clone for SpecificationJob {
    fn clone(&self) -> (res: Self)
        ensures
            res == *self,
    {
        SpecificationJob {
            id: self.id,
            project_id: self.project_id,
            status: self.status,
            model: self.model.clone(),
            error_message: clone_opt_string(&self.error_message),
            created_at: self.created_at,
            completed_at: self.completed_at,
        }
    }
}

// ===================== the snapshot =====================

/// An ephemeral, read-only aggregation of one project's data, used only to
/// build a generation prompt and then discarded.
pub struct ProjectSnapshot {
    pub domains: Vec<Domain>,
    pub attributes: Vec<DomainAttribute>,
    pub requirements: Vec<Requirement>,
    pub steps: Vec<RequirementStep>,
    pub test_cases: Vec<TestCase>,
}

/// Mathematical model of a `ProjectSnapshot`.
#[verifier::ext_equal]
pub ghost struct SnapshotView {
    pub domains: Seq<DomainView>,
    pub attributes: Seq<AttributeView>,
    pub requirements: Seq<RequirementView>,
    pub steps: Seq<StepRowView>,
    pub test_cases: Seq<TestCaseView>,
}

impl View for ProjectSnapshot {
    type V = SnapshotView;

    open spec fn view(&self) -> SnapshotView {
        SnapshotView {
            domains: self.domains@.map_values(|d: Domain| d@),
            attributes: self.attributes@.map_values(|a: DomainAttribute| a@),
            requirements: self.requirements@.map_values(|r: Requirement| r@),
            steps: self.steps@.map_values(|s: RequirementStep| s@),
            test_cases: self.test_cases@.map_values(|t: TestCase| t@),
        }
    }
}

} // verus!
