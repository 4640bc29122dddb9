//! In-memory collaborator stores.
//!
//! `ProjectStore` holds a project's modeled data (domains, attributes,
//! requirements, scenario steps, test cases); `SpecStore` holds generated
//! specifications and their jobs. Identifiers are indices: the `id` of every
//! record equals its position in the owning collection, records are never
//! removed, and insertion order is creation order — so "oldest first" is the
//! collection's own order.

use vstd::prelude::*;
use vstd::seq_lib::*;

use crate::dto::{CreateDomainRequest, UpdateDomainRequest};
use crate::errors::AppError;
use crate::gherkin::{parse_view, GherkinParser, ParsedStep};
use crate::model::{
    clone_string_vec, Domain, DomainAttribute, JobStatus, Requirement, RequirementStep,
    SpecMetadata, Specification, SpecificationJob, TestCase,
};
use crate::seqtools::{lemma_filter_none, lemma_filter_push, lemma_reverse_add, lemma_take_of_push, lemma_take_one_more};

verus! {

// ===================== selection predicates =====================

/// Selects the domains of one project.
pub open spec fn domain_pred(project_id: u64) -> spec_fn(Domain) -> bool {
    |d: Domain| d.project_id == project_id
}

/// The domains of `project_id`, oldest first.
pub open spec fn domains_of(ds: Seq<Domain>, project_id: u64) -> Seq<Domain> {
    ds.filter(domain_pred(project_id))
}

/// Selects the attributes of one domain.
pub open spec fn attribute_pred(domain_id: u64) -> spec_fn(DomainAttribute) -> bool {
    |a: DomainAttribute| a.domain_id == domain_id
}

/// The attributes of `domain_id`, oldest first.
pub open spec fn attributes_of(attrs: Seq<DomainAttribute>, domain_id: u64) -> Seq<
    DomainAttribute,
> {
    attrs.filter(attribute_pred(domain_id))
}

/// Selects the requirements of one project.
pub open spec fn requirement_pred(project_id: u64) -> spec_fn(Requirement) -> bool {
    |r: Requirement| r.project_id == project_id
}

/// The requirements of `project_id`, oldest first.
pub open spec fn requirements_of(rs: Seq<Requirement>, project_id: u64) -> Seq<Requirement> {
    rs.filter(requirement_pred(project_id))
}

/// Selects the steps of one requirement.
pub open spec fn step_pred(requirement_id: u64) -> spec_fn(RequirementStep) -> bool {
    |s: RequirementStep| s.requirement_id == requirement_id
}

/// The steps of `requirement_id`, in step order.
pub open spec fn steps_of(ss: Seq<RequirementStep>, requirement_id: u64) -> Seq<RequirementStep> {
    ss.filter(step_pred(requirement_id))
}

/// Selects the test cases of one requirement.
pub open spec fn test_case_pred(requirement_id: u64) -> spec_fn(TestCase) -> bool {
    |t: TestCase| t.requirement_id == requirement_id
}

/// The test cases of `requirement_id`, oldest first.
pub open spec fn test_cases_of(ts: Seq<TestCase>, requirement_id: u64) -> Seq<TestCase> {
    ts.filter(test_case_pred(requirement_id))
}

/// Selects the specifications of one project.
pub open spec fn spec_pred(project_id: u64) -> spec_fn(Specification) -> bool {
    |s: Specification| s.project_id == project_id
}

/// The specifications of `project_id`, oldest (lowest version) first.
pub open spec fn specs_of(ss: Seq<Specification>, project_id: u64) -> Seq<Specification> {
    ss.filter(spec_pred(project_id))
}

// ===================== the project store =====================

/// In-memory store of a project's modeled data.
pub struct ProjectStore {
    pub domains: Vec<Domain>,
    pub attributes: Vec<DomainAttribute>,
    pub requirements: Vec<Requirement>,
    pub steps: Vec<RequirementStep>,
    pub test_cases: Vec<TestCase>,
}

impl ProjectStore {
    /// Well-formedness: ids equal positions, child records point at existing
    /// parents, and within one requirement the stored step orders count up
    /// from zero.
    pub open spec fn wf(self) -> bool {
        &&& forall|i: int|
            0 <= i < self.domains@.len() ==> (#[trigger] self.domains@[i]).id == i as u64
        &&& forall|i: int|
            0 <= i < self.attributes@.len() ==> (#[trigger] self.attributes@[i]).id == i as u64
        &&& forall|i: int|
            0 <= i < self.attributes@.len() ==> ((#[trigger] self.attributes@[i]).domain_id as int)
                < self.domains@.len() as int
        &&& forall|i: int|
            0 <= i < self.requirements@.len() ==> (#[trigger] self.requirements@[i]).id == i as u64
        &&& forall|i: int|
            0 <= i < self.steps@.len() ==> (#[trigger] self.steps@[i]).id == i as u64
        &&& forall|i: int|
            0 <= i < self.steps@.len() ==> ((#[trigger] self.steps@[i]).requirement_id as int)
                < self.requirements@.len() as int
        &&& forall|i: int|
            0 <= i < self.steps@.len() ==> (#[trigger] self.steps@[i]).step_order as int
                == steps_of(self.steps@.take(i), self.steps@[i].requirement_id).len()
        &&& forall|i: int|
            0 <= i < self.test_cases@.len() ==> (#[trigger] self.test_cases@[i]).id == i as u64
        &&& forall|i: int|
            0 <= i < self.test_cases@.len() ==> ((#[trigger] self.test_cases@[i]).requirement_id
                as int) < self.requirements@.len() as int
    }

    /// An empty store.
    pub fn new() -> (s: Self)
        ensures
            s.wf(),
            s.domains@.len() == 0,
            s.attributes@.len() == 0,
            s.requirements@.len() == 0,
            s.steps@.len() == 0,
            s.test_cases@.len() == 0,
    {
        ProjectStore {
            domains: Vec::new(),
            attributes: Vec::new(),
            requirements: Vec::new(),
            steps: Vec::new(),
            test_cases: Vec::new(),
        }
    }

    /// Creates a domain for a project and returns the stored record.
    pub fn create_domain(&mut self, project_id: u64, payload: CreateDomainRequest) -> (r: Result<
        Domain,
        AppError,
    >)
        requires
            old(self).wf(),
        ensures
            final(self).wf(),
            final(self).attributes == old(self).attributes,
            final(self).requirements == old(self).requirements,
            final(self).steps == old(self).steps,
            final(self).test_cases == old(self).test_cases,
            match r {
                Ok(d) => {
                    &&& 1 <= payload.name@.len() <= 255
                    &&& d.id as int == old(self).domains@.len() as int
                    &&& d.project_id == project_id
                    &&& d.name == payload.name
                    &&& d.description == payload.description
                    &&& final(self).domains@ == old(self).domains@.push(d)
                },
                Err(e) => {
                    &&& e is Validation
                    &&& !(1 <= payload.name@.len() <= 255)
                    &&& final(self).domains == old(self).domains
                },
            },
    {
        if let Err(e) = payload.validate() {
            return Err(e);
        }
        let id = self.domains.len() as u64;
        let d = Domain {
            id,
            project_id,
            name: payload.name,
            description: payload.description,
        };
        self.domains.push(d.clone());
        proof {
            assert forall|i: int| 0 <= i < self.domains@.len() implies (#[trigger] self.domains@[i]).id
                == i as u64 by {
                if i < old(self).domains@.len() {
                    assert(self.domains@[i] == old(self).domains@[i]);
                }
            }
        }
        Ok(d)
    }

    /// Updates a domain's name and/or description; absent fields keep their
    /// stored value. Fails exactly when no such domain exists or the payload
    /// is rejected.
    pub fn update_domain(&mut self, domain_id: u64, payload: UpdateDomainRequest) -> (r: Result<
        Domain,
        AppError,
    >)
        requires
            old(self).wf(),
        ensures
            final(self).wf(),
            final(self).attributes == old(self).attributes,
            final(self).requirements == old(self).requirements,
            final(self).steps == old(self).steps,
            final(self).test_cases == old(self).test_cases,
            match r {
                Ok(d) => {
                    &&& (payload.name matches Some(n) ==> 1 <= n@.len() <= 255)
                    &&& domain_id < old(self).domains@.len()
                    &&& d == ({
                        let prev = old(self).domains@[domain_id as int];
                        Domain {
                            name: if payload.name is Some {
                                payload.name.unwrap()
                            } else {
                                prev.name
                            },
                            description: if payload.description is Some {
                                payload.description
                            } else {
                                prev.description
                            },
                            ..prev
                        }
                    })
                    &&& final(self).domains@ == old(self).domains@.update(domain_id as int, d)
                },
                Err(e) => {
                    &&& final(self).domains == old(self).domains
                    &&& e is Validation ==> !(payload.name matches Some(n) ==> 1 <= n@.len()
                        <= 255)
                    &&& e is NotFound ==> (domain_id as int) >= old(self).domains@.len() as int
                    &&& (e is Validation || e is NotFound)
                },
            },
    {
        if let Err(e) = payload.validate() {
            return Err(e);
        }
        if domain_id >= self.domains.len() as u64 {
            return Err(AppError::NotFound("Domain not found".to_owned()));
        }
        let idx = domain_id as usize;
        let prev = self.domains[idx].clone();
        let d = Domain {
            id: prev.id,
            project_id: prev.project_id,
            name: match payload.name {
                Some(n) => n,
                None => prev.name,
            },
            description: match payload.description {
                Some(s) => Some(s),
                None => prev.description,
            },
        };
        self.domains.set(idx, d.clone());
        proof {
            assert forall|i: int| 0 <= i < self.domains@.len() implies (#[trigger] self.domains@[i]).id
                == i as u64 by {
                if i != idx {
                    assert(self.domains@[i] == old(self).domains@[i]);
                }
            }
        }
        Ok(d)
    }

    /// Creates an attribute under a domain. Fails exactly when the domain
    /// does not exist.
    pub fn create_attribute(
        &mut self,
        domain_id: u64,
        name: String,
        data_type: String,
        is_required: bool,
        default_value: Option<String>,
        validation_rules: Option<String>,
    ) -> (r: Result<DomainAttribute, AppError>)
        requires
            old(self).wf(),
        ensures
            final(self).wf(),
            final(self).domains == old(self).domains,
            final(self).requirements == old(self).requirements,
            final(self).steps == old(self).steps,
            final(self).test_cases == old(self).test_cases,
            match r {
                Ok(a) => {
                    &&& (domain_id as int) < old(self).domains@.len() as int
                    &&& a.id as int == old(self).attributes@.len() as int
                    &&& a.domain_id == domain_id
                    &&& a.name == name
                    &&& a.data_type == data_type
                    &&& a.is_required == is_required
                    &&& a.default_value == default_value
                    &&& a.validation_rules == validation_rules
                    &&& final(self).attributes@ == old(self).attributes@.push(a)
                },
                Err(e) => {
                    &&& e is NotFound
                    &&& (domain_id as int) >= old(self).domains@.len() as int
                    &&& final(self).attributes == old(self).attributes
                },
            },
    {
        if domain_id >= self.domains.len() as u64 {
            return Err(AppError::NotFound("Domain not found".to_owned()));
        }
        let id = self.attributes.len() as u64;
        let a = DomainAttribute {
            id,
            domain_id,
            name,
            data_type,
            is_required,
            default_value,
            validation_rules,
        };
        self.attributes.push(a.clone());
        proof {
            assert forall|i: int|
                0 <= i < self.attributes@.len() implies (#[trigger] self.attributes@[i]).id
                == i as u64 && ((self.attributes@[i]).domain_id as int)
                < self.domains@.len() as int by {
                if i < old(self).attributes@.len() {
                    assert(self.attributes@[i] == old(self).attributes@[i]);
                }
            }
        }
        Ok(a)
    }

    /// Creates a test case under a requirement. Fails exactly when the
    /// requirement does not exist.
    pub fn create_test_case(
        &mut self,
        requirement_id: u64,
        name: String,
        description: Option<String>,
        expected_outcome: Option<String>,
    ) -> (r: Result<TestCase, AppError>)
        requires
            old(self).wf(),
        ensures
            final(self).wf(),
            final(self).domains == old(self).domains,
            final(self).attributes == old(self).attributes,
            final(self).requirements == old(self).requirements,
            final(self).steps == old(self).steps,
            match r {
                Ok(t) => {
                    &&& (requirement_id as int) < old(self).requirements@.len() as int
                    &&& t.id as int == old(self).test_cases@.len() as int
                    &&& t.requirement_id == requirement_id
                    &&& t.name == name
                    &&& t.description == description
                    &&& t.expected_outcome == expected_outcome
                    &&& final(self).test_cases@ == old(self).test_cases@.push(t)
                },
                Err(e) => {
                    &&& e is NotFound
                    &&& (requirement_id as int) >= old(self).requirements@.len() as int
                    &&& final(self).test_cases == old(self).test_cases
                },
            },
    {
        if requirement_id >= self.requirements.len() as u64 {
            return Err(AppError::NotFound("Requirement not found".to_owned()));
        }
        let id = self.test_cases.len() as u64;
        let t = TestCase { id, requirement_id, name, description, expected_outcome };
        self.test_cases.push(t.clone());
        proof {
            assert forall|i: int|
                0 <= i < self.test_cases@.len() implies (#[trigger] self.test_cases@[i]).id
                == i as u64 && ((self.test_cases@[i]).requirement_id as int)
                < self.requirements@.len() as int by {
                if i < old(self).test_cases@.len() {
                    assert(self.test_cases@[i] == old(self).test_cases@[i]);
                }
            }
        }
        Ok(t)
    }

    /// Creates a requirement together with the steps parsed from its
    /// scenario. Fails exactly when the scenario holds no recognizable step;
    /// nothing is stored then.
    pub fn create_requirement(
        &mut self,
        project_id: u64,
        title: String,
        description: Option<String>,
        gherkin_scenario: String,
    ) -> (r: Result<Requirement, AppError>)
        requires
            old(self).wf(),
        ensures
            final(self).wf(),
            final(self).domains == old(self).domains,
            final(self).attributes == old(self).attributes,
            final(self).test_cases == old(self).test_cases,
            match r {
                Ok(q) => {
                    &&& parse_view(gherkin_scenario@).len() > 0
                    &&& q.id as int == old(self).requirements@.len() as int
                    &&& q.project_id == project_id
                    &&& q.title == title
                    &&& q.description == description
                    &&& q.gherkin_scenario == gherkin_scenario
                    &&& final(self).requirements@ == old(self).requirements@.push(q)
                    &&& final(self).steps@.len() == old(self).steps@.len() + parse_view(
                        gherkin_scenario@,
                    ).len()
                    &&& (forall|j: int|
                        0 <= j < old(self).steps@.len() ==> final(self).steps@[j] == old(
                            self,
                        ).steps@[j])
                    &&& (forall|k: int|
                        0 <= k < parse_view(gherkin_scenario@).len() ==> {
                            let row = #[trigger] final(self).steps@[old(self).steps@.len() + k];
                            let ps = parse_view(gherkin_scenario@);
                            &&& row.requirement_id == q.id
                            &&& row.step_type@ == ps[k].step_type
                            &&& row.step_order as int == k
                            &&& row.step_text@ == ps[k].step_text
                            &&& row.domain_references.deep_view() == ps[k].domain_references
                        })
                },
                Err(e) => {
                    &&& parse_view(gherkin_scenario@).len() == 0
                    &&& e matches AppError::Validation(m) && m@ == "Invalid Gherkin: "@
                        + "No valid Gherkin steps found. Please use Given/When/Then/And/But keywords."@
                    &&& final(self).requirements == old(self).requirements
                    &&& final(self).steps == old(self).steps
                },
            },
    {
        if let Err(msg) = GherkinParser::validate(gherkin_scenario.as_str()) {
            let mut m = "Invalid Gherkin: ".to_owned();
            m.append(msg.as_str());
            return Err(AppError::Validation(m));
        }
        let parsed = GherkinParser::parse(gherkin_scenario.as_str());
        let ghost psv = parse_view(gherkin_scenario@);
        let rid = self.requirements.len() as u64;
        let q = Requirement { id: rid, project_id, title, description, gherkin_scenario };
        self.requirements.push(q.clone());
        proof {
            assert forall|i: int|
                0 <= i < self.requirements@.len() implies (#[trigger] self.requirements@[i]).id
                == i as u64 by {
                if i < old(self).requirements@.len() {
                    assert(self.requirements@[i] == old(self).requirements@[i]);
                }
            }
            lemma_filter_none(old(self).steps@, step_pred(rid));
        }
        let ghost base = old(self).steps@.len();
        let mut k: usize = 0;
        while k < parsed.len()
            invariant
                0 <= k <= parsed.len(),
                parsed@.map_values(|p: ParsedStep| p@) == psv,
                psv.len() == parsed@.len(),
                self.wf(),
                self.domains == old(self).domains,
                self.attributes == old(self).attributes,
                self.test_cases == old(self).test_cases,
                self.requirements@ == old(self).requirements@.push(q),
                rid as int == old(self).requirements@.len() as int,
                self.steps@.len() == base + k,
                forall|j: int| 0 <= j < base ==> self.steps@[j] == old(self).steps@[j],
                steps_of(self.steps@, rid).len() == k,
                forall|j: int|
                    0 <= j < k ==> {
                        let row = #[trigger] self.steps@[base + j];
                        &&& row.requirement_id == rid
                        &&& row.step_type@ == psv[j].step_type
                        &&& row.step_order as int == j
                        &&& row.step_text@ == psv[j].step_text
                        &&& row.domain_references.deep_view() == psv[j].domain_references
                    },
            decreases parsed@.len() - k,
        {
            let ghost steps_before = self.steps@;
            let p = &parsed[k];
            let row = RequirementStep {
                id: self.steps.len() as u64,
                requirement_id: rid,
                step_type: p.step_type.clone(),
                step_order: k,
                step_text: p.step_text.clone(),
                domain_references: clone_string_vec(&p.domain_references),
            };
            self.steps.push(row);
            proof {
                assert(parsed@[k as int]@ == psv[k as int]);
                assert(self.steps@ =~= steps_before + seq![self.steps@[base + k]]);
                lemma_filter_push(steps_before, step_pred(rid), self.steps@[base + k]);
                assert forall|i: int|
                    0 <= i < self.steps@.len() implies (#[trigger] self.steps@[i]).id == i as u64
                    && ((self.steps@[i]).requirement_id as int) < self.requirements@.len() as int
                    && (self.steps@[i]).step_order as int == steps_of(
                    self.steps@.take(i),
                    self.steps@[i].requirement_id,
                ).len() by {
                    lemma_take_of_push(steps_before, self.steps@[base + k], i);
                    if i < steps_before.len() {
                        assert(self.steps@[i] == steps_before[i]);
                        assert(self.steps@.take(i) =~= steps_before.take(i));
                    } else {
                        assert(self.steps@.take(i) =~= steps_before);
                    }
                }
            }
            k = k + 1;
        }
        Ok(q)
    }

    /// Appends one scenario step under a requirement. The step's order must
    /// continue the requirement's stored steps; otherwise the step is
    /// rejected. Fails also when the requirement does not exist.
    pub fn create_step(
        &mut self,
        requirement_id: u64,
        step_type: String,
        step_order: usize,
        step_text: String,
        domain_references: Vec<String>,
    ) -> (r: Result<RequirementStep, AppError>)
        requires
            old(self).wf(),
        ensures
            final(self).wf(),
            final(self).domains == old(self).domains,
            final(self).attributes == old(self).attributes,
            final(self).requirements == old(self).requirements,
            final(self).test_cases == old(self).test_cases,
            match r {
                Ok(s) => {
                    &&& (requirement_id as int) < old(self).requirements@.len() as int
                    &&& step_order == steps_of(old(self).steps@, requirement_id).len()
                    &&& s.id as int == old(self).steps@.len() as int
                    &&& s.requirement_id == requirement_id
                    &&& s.step_type == step_type
                    &&& s.step_order == step_order
                    &&& s.step_text == step_text
                    &&& s.domain_references.deep_view() == domain_references.deep_view()
                    &&& final(self).steps@.len() == old(self).steps@.len() + 1
                    &&& final(self).steps@[old(self).steps@.len() as int]@ == s@
                    &&& (forall|j: int|
                        0 <= j < old(self).steps@.len() ==> final(self).steps@[j] == old(
                            self,
                        ).steps@[j])
                },
                Err(e) => {
                    &&& final(self).steps == old(self).steps
                    &&& e is NotFound ==> (requirement_id as int) >= old(
                        self,
                    ).requirements@.len() as int
                    &&& e is Validation ==> step_order != steps_of(
                        old(self).steps@,
                        requirement_id,
                    ).len()
                    &&& (e is NotFound || e is Validation)
                },
            },
    {
        if requirement_id >= self.requirements.len() as u64 {
            return Err(AppError::NotFound("Requirement not found".to_owned()));
        }
        // Count the steps the requirement already has.
        let mut count: usize = 0;
        let mut i: usize = 0;
        proof {
            reveal(Seq::filter);
            assert(self.steps@.take(0) =~= Seq::<RequirementStep>::empty());
        }
        while i < self.steps.len()
            invariant
                0 <= i <= self.steps@.len(),
                count == steps_of(self.steps@.take(i as int), requirement_id).len(),
                count <= i,
            decreases self.steps@.len() - i,
        {
            proof {
                lemma_take_one_more(self.steps@, i as int);
                lemma_filter_push(
                    self.steps@.take(i as int),
                    step_pred(requirement_id),
                    self.steps@[i as int],
                );
            }
            if self.steps[i].requirement_id == requirement_id {
                count = count + 1;
            }
            i = i + 1;
        }
        proof {
            assert(self.steps@.take(self.steps@.len() as int) =~= self.steps@);
        }
        if step_order != count {
            return Err(
                AppError::Validation("Step order must continue the requirement's steps".to_owned()),
            );
        }
        let ghost steps_before = self.steps@;
        let out_type = step_type.clone();
        let out_text = step_text.clone();
        let out_refs = clone_string_vec(&domain_references);
        let id = self.steps.len() as u64;
        let s = RequirementStep {
            id,
            requirement_id,
            step_type,
            step_order,
            step_text,
            domain_references,
        };
        let out = RequirementStep {
            id,
            requirement_id,
            step_type: out_type,
            step_order,
            step_text: out_text,
            domain_references: out_refs,
        };
        self.steps.push(s);
        proof {
            assert(self.steps@[steps_before.len() as int]@ =~= out@);
            assert(self.steps@ =~= steps_before + seq![self.steps@[steps_before.len() as int]]);
            assert forall|i: int|
                0 <= i < self.steps@.len() implies (#[trigger] self.steps@[i]).id == i as u64 && ((
            self.steps@[i]).requirement_id as int) < self.requirements@.len() as int && (
            self.steps@[i]).step_order as int == steps_of(
                self.steps@.take(i),
                self.steps@[i].requirement_id,
            ).len() by {
                lemma_take_of_push(steps_before, self.steps@[steps_before.len() as int], i);
                if i < steps_before.len() {
                    assert(self.steps@[i] == steps_before[i]);
                    assert(self.steps@.take(i) =~= steps_before.take(i));
                } else {
                    assert(self.steps@.take(i) =~= steps_before);
                }
            }
        }
        Ok(out)
    }

    /// The domains of `project_id`, oldest first.
    pub fn find_domains_by_project(&self, project_id: u64) -> (r: Vec<Domain>)
        ensures
            r@ == domains_of(self.domains@, project_id),
    {
        let mut r: Vec<Domain> = Vec::new();
        let mut i: usize = 0;
        proof {
            reveal(Seq::filter);
            assert(self.domains@.take(0) =~= Seq::<Domain>::empty());
            assert(r@ =~= domains_of(self.domains@.take(0), project_id));
        }
        while i < self.domains.len()
            invariant
                0 <= i <= self.domains@.len(),
                r@ == domains_of(self.domains@.take(i as int), project_id),
            decreases self.domains@.len() - i,
        {
            proof {
                lemma_take_one_more(self.domains@, i as int);
                lemma_filter_push(
                    self.domains@.take(i as int),
                    domain_pred(project_id),
                    self.domains@[i as int],
                );
            }
            let d = &self.domains[i];
            if d.project_id == project_id {
                r.push(d.clone());
            }
            i = i + 1;
        }
        proof {
            assert(self.domains@.take(self.domains@.len() as int) =~= self.domains@);
        }
        r
    }

    /// The attributes of `domain_id`, oldest first.
    pub fn find_attributes_by_domain(&self, domain_id: u64) -> (r: Vec<DomainAttribute>)
        ensures
            r@ == attributes_of(self.attributes@, domain_id),
    {
        let mut r: Vec<DomainAttribute> = Vec::new();
        let mut i: usize = 0;
        proof {
            reveal(Seq::filter);
            assert(self.attributes@.take(0) =~= Seq::<DomainAttribute>::empty());
            assert(r@ =~= attributes_of(self.attributes@.take(0), domain_id));
        }
        while i < self.attributes.len()
            invariant
                0 <= i <= self.attributes@.len(),
                r@ == attributes_of(self.attributes@.take(i as int), domain_id),
            decreases self.attributes@.len() - i,
        {
            proof {
                lemma_take_one_more(self.attributes@, i as int);
                lemma_filter_push(
                    self.attributes@.take(i as int),
                    attribute_pred(domain_id),
                    self.attributes@[i as int],
                );
            }
            let a = &self.attributes[i];
            if a.domain_id == domain_id {
                r.push(a.clone());
            }
            i = i + 1;
        }
        proof {
            assert(self.attributes@.take(self.attributes@.len() as int) =~= self.attributes@);
        }
        r
    }

    /// The requirements of `project_id`, oldest first.
    pub fn find_requirements_by_project(&self, project_id: u64) -> (r: Vec<Requirement>)
        ensures
            r@ == requirements_of(self.requirements@, project_id),
    {
        let mut r: Vec<Requirement> = Vec::new();
        let mut i: usize = 0;
        proof {
            reveal(Seq::filter);
            assert(self.requirements@.take(0) =~= Seq::<Requirement>::empty());
            assert(r@ =~= requirements_of(self.requirements@.take(0), project_id));
        }
        while i < self.requirements.len()
            invariant
                0 <= i <= self.requirements@.len(),
                r@ == requirements_of(self.requirements@.take(i as int), project_id),
            decreases self.requirements@.len() - i,
        {
            proof {
                lemma_take_one_more(self.requirements@, i as int);
                lemma_filter_push(
                    self.requirements@.take(i as int),
                    requirement_pred(project_id),
                    self.requirements@[i as int],
                );
            }
            let q = &self.requirements[i];
            if q.project_id == project_id {
                r.push(q.clone());
            }
            i = i + 1;
        }
        proof {
            assert(self.requirements@.take(self.requirements@.len() as int) =~= self.requirements@);
        }
        r
    }

    /// The steps of `requirement_id`; under `wf` their orders count up from
    /// zero in this very order.
    pub fn find_steps_by_requirement(&self, requirement_id: u64) -> (r: Vec<RequirementStep>)
        ensures
            r@.map_values(|s: RequirementStep| s@) == steps_of(self.steps@, requirement_id)
                .map_values(|s: RequirementStep| s@),
            r@.len() == steps_of(self.steps@, requirement_id).len(),
    {
        let mut r: Vec<RequirementStep> = Vec::new();
        let mut i: usize = 0;
        let ghost stepview = |s: RequirementStep| s@;
        proof {
            reveal(Seq::filter);
            assert(self.steps@.take(0) =~= Seq::<RequirementStep>::empty());
            assert(r@.map_values(stepview) =~= steps_of(self.steps@.take(0), requirement_id)
                .map_values(stepview));
        }
        while i < self.steps.len()
            invariant
                0 <= i <= self.steps@.len(),
                stepview == (|s: RequirementStep| s@),
                r@.map_values(stepview) == steps_of(self.steps@.take(i as int), requirement_id)
                    .map_values(stepview),
                r@.len() == steps_of(self.steps@.take(i as int), requirement_id).len(),
            decreases self.steps@.len() - i,
        {
            proof {
                lemma_take_one_more(self.steps@, i as int);
                lemma_filter_push(
                    self.steps@.take(i as int),
                    step_pred(requirement_id),
                    self.steps@[i as int],
                );
            }
            let ghost prev = r@.map_values(stepview);
            let ghost fprev = steps_of(self.steps@.take(i as int), requirement_id);
            let s = &self.steps[i];
            if s.requirement_id == requirement_id {
                r.push(s.clone());
                proof {
                    assert(r@.map_values(stepview) =~= prev.push(self.steps@[i as int]@));
                    assert(fprev.push(self.steps@[i as int]).map_values(stepview) =~= fprev
                        .map_values(stepview).push(self.steps@[i as int]@));
                }
            }
            i = i + 1;
        }
        proof {
            assert(self.steps@.take(self.steps@.len() as int) =~= self.steps@);
        }
        r
    }

    /// The test cases of `requirement_id`, oldest first.
    pub fn find_test_cases_by_requirement(&self, requirement_id: u64) -> (r: Vec<TestCase>)
        ensures
            r@ == test_cases_of(self.test_cases@, requirement_id),
    {
        let mut r: Vec<TestCase> = Vec::new();
        let mut i: usize = 0;
        proof {
            reveal(Seq::filter);
            assert(self.test_cases@.take(0) =~= Seq::<TestCase>::empty());
            assert(r@ =~= test_cases_of(self.test_cases@.take(0), requirement_id));
        }
        while i < self.test_cases.len()
            invariant
                0 <= i <= self.test_cases@.len(),
                r@ == test_cases_of(self.test_cases@.take(i as int), requirement_id),
            decreases self.test_cases@.len() - i,
        {
            proof {
                lemma_take_one_more(self.test_cases@, i as int);
                lemma_filter_push(
                    self.test_cases@.take(i as int),
                    test_case_pred(requirement_id),
                    self.test_cases@[i as int],
                );
            }
            let t = &self.test_cases[i];
            if t.requirement_id == requirement_id {
                r.push(t.clone());
            }
            i = i + 1;
        }
        proof {
            assert(self.test_cases@.take(self.test_cases@.len() as int) =~= self.test_cases@);
        }
        r
    }
}

/// Law: in a well-formed store the steps of one requirement, read in store
/// order (as `find_steps_by_requirement` returns them), carry the orders
/// 0, 1, 2, ... — store order and step order agree.
pub proof fn lemma_steps_ordered(store: ProjectStore, requirement_id: u64)
    requires
        store.wf(),
    ensures
        forall|k: int|
            0 <= k < steps_of(store.steps@, requirement_id).len() ==> (#[trigger] steps_of(
                store.steps@,
                requirement_id,
            )[k]).step_order as int == k,
{
    lemma_filter_step_orders(store.steps@, requirement_id);
}

proof fn lemma_filter_step_orders(s: Seq<RequirementStep>, requirement_id: u64)
    requires
        forall|i: int|
            0 <= i < s.len() ==> (#[trigger] s[i]).step_order as int == steps_of(
                s.take(i),
                s[i].requirement_id,
            ).len(),
    ensures
        forall|k: int|
            0 <= k < steps_of(s, requirement_id).len() ==> (#[trigger] steps_of(
                s,
                requirement_id,
            )[k]).step_order as int == k,
    decreases s.len(),
{
    reveal(Seq::filter);
    if s.len() > 0 {
        let d = s.drop_last();
        assert forall|i: int|
            0 <= i < d.len() implies (#[trigger] d[i]).step_order as int == steps_of(
            d.take(i),
            d[i].requirement_id,
        ).len() by {
            assert(d[i] == s[i]);
            assert(d.take(i) =~= s.take(i));
        }
        lemma_filter_step_orders(d, requirement_id);
        let f = steps_of(s, requirement_id);
        let fd = steps_of(d, requirement_id);
        if step_pred(requirement_id)(s.last()) {
            assert(f == fd.push(s.last()));
            assert(d =~= s.take(s.len() - 1));
            assert(s.last().step_order as int == steps_of(d, s.last().requirement_id).len());
            assert(s.last().requirement_id == requirement_id);
            assert forall|k: int| 0 <= k < f.len() implies (#[trigger] f[k]).step_order as int
                == k by {
                if k < fd.len() {
                    assert(f[k] == fd[k]);
                } else {
                    assert(f[k] == s.last());
                }
            }
        } else {
            assert(f == fd);
        }
    }
}

// ===================== the specification store =====================

/// In-memory store of generated specifications and their jobs, with a
/// logical clock supplying timestamps.
pub struct SpecStore {
    pub specifications: Vec<Specification>,
    pub jobs: Vec<SpecificationJob>,
    pub clock: u64,
}

impl SpecStore {
    /// Well-formedness: ids equal positions; a specification's version is one
    /// more than the number of earlier specifications of its project, so the
    /// versions of one project read 1, 2, 3, ... in creation order; a job
    /// carries a completion time exactly when it is terminal, and an error
    /// message only when it failed.
    pub open spec fn wf(self) -> bool {
        &&& forall|i: int|
            0 <= i < self.specifications@.len() ==> (#[trigger] self.specifications@[i]).id
                == i as u64
        &&& forall|i: int|
            0 <= i < self.specifications@.len() ==> (#[trigger] self.specifications@[i]).version
                as int == specs_of(
                self.specifications@.take(i),
                self.specifications@[i].project_id,
            ).len() + 1
        &&& forall|i: int| 0 <= i < self.jobs@.len() ==> (#[trigger] self.jobs@[i]).id == i as u64
        &&& forall|i: int|
            0 <= i < self.jobs@.len() ==> ((#[trigger] self.jobs@[i]).completed_at is Some
                <==> self.jobs@[i].status.is_terminal())
        &&& forall|i: int|
            0 <= i < self.jobs@.len() ==> ((#[trigger] self.jobs@[i]).error_message is Some
                ==> self.jobs@[i].status == JobStatus::Failed)
    }

    /// An empty store.
    pub fn new() -> (s: Self)
        ensures
            s.wf(),
            s.specifications@.len() == 0,
            s.jobs@.len() == 0,
            s.clock == 0,
    {
        SpecStore { specifications: Vec::new(), jobs: Vec::new(), clock: 0 }
    }

    /// Reads the clock and advances it (the clock saturates at its maximum,
    /// so times never decrease).
    fn tick(&mut self) -> (t: u64)
        ensures
            t == old(self).clock,
            final(self).specifications == old(self).specifications,
            final(self).jobs == old(self).jobs,
            final(self).clock >= old(self).clock,
    {
        let t = self.clock;
        if t < u64::MAX {
            self.clock = t + 1;
        }
        t
    }

    /// Creates a job in `Pending` state for a project and returns the stored
    /// record.
    pub fn create_job(&mut self, project_id: u64, model: String) -> (job: SpecificationJob)
        requires
            old(self).wf(),
        ensures
            final(self).wf(),
            final(self).specifications == old(self).specifications,
            job.id as int == old(self).jobs@.len() as int,
            job.project_id == project_id,
            job.status == JobStatus::Pending,
            job.model == model,
            job.error_message is None,
            job.created_at == old(self).clock,
            job.completed_at is None,
            final(self).jobs@ == old(self).jobs@.push(job),
    {
        let t = self.tick();
        let id = self.jobs.len() as u64;
        let job = SpecificationJob {
            id,
            project_id,
            status: JobStatus::Pending,
            model,
            error_message: None,
            created_at: t,
            completed_at: None,
        };
        self.jobs.push(job.clone());
        proof {
            assert forall|i: int|
                0 <= i < self.jobs@.len() implies (#[trigger] self.jobs@[i]).id == i as u64 && (
            self.jobs@[i].completed_at is Some <==> self.jobs@[i].status.is_terminal()) && (
            self.jobs@[i].error_message is Some ==> self.jobs@[i].status == JobStatus::Failed) by {
                if i < old(self).jobs@.len() {
                    assert(self.jobs@[i] == old(self).jobs@[i]);
                }
            }
        }
        job
    }

    /// Rewrites a job's status and error message. Updating a terminal job is
    /// not allowed: terminal records are immutable. A transition into a
    /// terminal state stamps the completion time; an error message may only
    /// accompany `Failed`.
    pub fn update_job_status(
        &mut self,
        job_id: u64,
        status: JobStatus,
        error_message: Option<String>,
    )
        requires
            old(self).wf(),
            (job_id as int) < old(self).jobs@.len() as int,
            !old(self).jobs@[job_id as int].status.is_terminal(),
            error_message is Some ==> status == JobStatus::Failed,
        ensures
            final(self).wf(),
            final(self).specifications == old(self).specifications,
            final(self).jobs@.len() == old(self).jobs@.len(),
            forall|j: int|
                0 <= j < old(self).jobs@.len() && j != job_id as int ==> final(self).jobs@[j] == old(
                    self,
                ).jobs@[j],
            ({
                let nj = final(self).jobs@[job_id as int];
                let oj = old(self).jobs@[job_id as int];
                &&& nj.id == oj.id
                &&& nj.project_id == oj.project_id
                &&& nj.model == oj.model
                &&& nj.created_at == oj.created_at
                &&& nj.status == status
                &&& nj.error_message == error_message
                &&& nj.completed_at == if status.is_terminal() {
                    Some(old(self).clock)
                } else {
                    oj.completed_at
                }
            }),
    {
        let t = self.tick();
        let idx = job_id as usize;
        let prev = self.jobs[idx].clone();
        let terminal = match status {
            JobStatus::Completed => true,
            JobStatus::Failed => true,
            _ => false,
        };
        let nj = SpecificationJob {
            id: prev.id,
            project_id: prev.project_id,
            status,
            model: prev.model,
            error_message,
            created_at: prev.created_at,
            completed_at: if terminal {
                Some(t)
            } else {
                prev.completed_at
            },
        };
        self.jobs.set(idx, nj);
        proof {
            assert(idx as int == job_id as int);
            assert(prev == old(self).jobs@[job_id as int]);
            assert(old(self).jobs@[job_id as int].id == job_id);
            assert(self.jobs@.len() == old(self).jobs@.len());
            assert(forall|j: int|
                0 <= j < self.jobs@.len() && j != idx as int ==> self.jobs@[j] == old(
                    self,
                ).jobs@[j]);
            assert(old(self).jobs@[job_id as int].completed_at is None);
            assert(terminal == status.is_terminal());
            assert forall|i: int|
                0 <= i < self.jobs@.len() implies (#[trigger] self.jobs@[i]).id == i as u64 && (
            self.jobs@[i].completed_at is Some <==> self.jobs@[i].status.is_terminal()) && (
            self.jobs@[i].error_message is Some ==> self.jobs@[i].status == JobStatus::Failed) by {
                if i != idx {
                    assert(self.jobs@[i] == old(self).jobs@[i]);
                }
            }
        }
    }

    /// Looks a job up by id; `None` exactly when no such job exists.
    pub fn find_job_by_id(&self, job_id: u64) -> (r: Option<SpecificationJob>)
        requires
            self.wf(),
        ensures
            match r {
                Some(j) => (job_id as int) < self.jobs@.len() as int && j == self.jobs@[job_id as int],
                None => (job_id as int) >= self.jobs@.len() as int,
            },
    {
        if job_id < self.jobs.len() as u64 {
            Some(self.jobs[job_id as usize].clone())
        } else {
            None
        }
    }

    /// Counts the specifications stored for one project.
    fn count_project_specifications(&self, project_id: u64) -> (count: usize)
        ensures
            count == specs_of(self.specifications@, project_id).len(),
            count <= self.specifications@.len(),
    {
        let mut count: usize = 0;
        let mut i: usize = 0;
        proof {
            reveal(Seq::filter);
            assert(self.specifications@.take(0) =~= Seq::<Specification>::empty());
        }
        while i < self.specifications.len()
            invariant
                0 <= i <= self.specifications@.len(),
                count == specs_of(self.specifications@.take(i as int), project_id).len(),
                count <= i,
            decreases self.specifications@.len() - i,
        {
            proof {
                lemma_take_one_more(self.specifications@, i as int);
                lemma_filter_push(
                    self.specifications@.take(i as int),
                    spec_pred(project_id),
                    self.specifications@[i as int],
                );
            }
            if self.specifications[i].project_id == project_id {
                count = count + 1;
            }
            i = i + 1;
        }
        proof {
            assert(self.specifications@.take(self.specifications@.len() as int)
                =~= self.specifications@);
        }
        count
    }

    /// Persists a new specification under the next version for its project:
    /// one more than the number of the project's existing specifications.
    /// Fails exactly when that next version would not fit the version field.
    #[verifier::rlimit(50)]
    pub fn create_specification(
        &mut self,
        project_id: u64,
        model: String,
        text: String,
        metadata: Option<SpecMetadata>,
    ) -> (r: Result<Specification, AppError>)
        requires
            old(self).wf(),
        ensures
            final(self).wf(),
            final(self).jobs == old(self).jobs,
            match r {
                Ok(spec) => {
                    &&& specs_of(old(self).specifications@, project_id).len() + 1 <= u32::MAX
                    &&& spec.id as int == old(self).specifications@.len() as int
                    &&& spec.project_id == project_id
                    &&& spec.model == model
                    &&& spec.text == text
                    &&& spec.metadata == metadata
                    &&& spec.created_at == old(self).clock
                    &&& spec.version as int == specs_of(
                        old(self).specifications@,
                        project_id,
                    ).len() + 1
                    &&& final(self).specifications@ == old(self).specifications@.push(spec)
                },
                Err(e) => {
                    &&& e matches AppError::DataAccess(m) && m@
                        == "Version numbers exhausted for project"@
                    &&& specs_of(old(self).specifications@, project_id).len() + 1 > u32::MAX
                    &&& final(self).specifications == old(self).specifications
                    &&& final(self).clock == old(self).clock
                },
            },
    {
        let count = self.count_project_specifications(project_id);
        if count as u64 >= u32::MAX as u64 {
            return Err(AppError::DataAccess("Version numbers exhausted for project".to_owned()));
        }
        let t = self.tick();
        let id = self.specifications.len() as u64;
        let version = (count + 1) as u32;
        let spec = Specification { id, project_id, model, text, metadata, version, created_at: t };
        self.specifications.push(spec.clone());
        proof {
            let ghost prev = old(self).specifications@;
            assert forall|i: int|
                0 <= i < self.specifications@.len() implies (#[trigger] self.specifications@[i]).id
                == i as u64 && (self.specifications@[i]).version as int == specs_of(
                self.specifications@.take(i),
                self.specifications@[i].project_id,
            ).len() + 1 by {
                lemma_take_of_push(prev, self.specifications@[prev.len() as int], i);
                if i < prev.len() {
                    assert(self.specifications@[i] == prev[i]);
                    assert(self.specifications@.take(i) =~= prev.take(i));
                } else {
                    assert(self.specifications@.take(i) =~= prev);
                }
            }
        }
        Ok(spec)
    }

    /// The specifications of `project_id`, newest version first.
    pub fn find_specifications_by_project(&self, project_id: u64) -> (r: Vec<Specification>)
        ensures
            r@ == specs_of(self.specifications@, project_id).reverse(),
    {
        let mut r: Vec<Specification> = Vec::new();
        let mut i: usize = self.specifications.len();
        proof {
            reveal(Seq::filter);
            assert(self.specifications@.skip(i as int) =~= Seq::<Specification>::empty());
            assert(specs_of(Seq::<Specification>::empty(), project_id) =~= Seq::<
                Specification,
            >::empty());
            assert(r@ =~= specs_of(self.specifications@.skip(i as int), project_id).reverse());
        }
        while i > 0
            invariant
                0 <= i <= self.specifications@.len(),
                r@ == specs_of(self.specifications@.skip(i as int), project_id).reverse(),
            decreases i,
        {
            i = i - 1;
            let ghost prev = r@;
            let ghost x = self.specifications@[i as int];
            let ghost tail = self.specifications@.skip(i as int + 1);
            proof {
                assert(self.specifications@.skip(i as int) =~= seq![x] + tail);
                Seq::filter_distributes_over_add(seq![x], tail, spec_pred(project_id));
                assert(seq![x].drop_last() =~= Seq::<Specification>::empty());
                lemma_reverse_add(seq![x].filter(spec_pred(project_id)), tail.filter(spec_pred(project_id)));
            }
            let s = &self.specifications[i];
            if s.project_id == project_id {
                r.push(s.clone());
                proof {
                    reveal(Seq::filter);
                    assert(seq![x].drop_last() =~= Seq::<Specification>::empty());
                    assert(seq![x].filter(spec_pred(project_id)) =~= seq![x]);
                    assert(seq![x].reverse() =~= seq![x]);
                    assert(r@ =~= prev + seq![x]);
                    assert(specs_of(self.specifications@.skip(i as int), project_id).reverse()
                        =~= prev + seq![x]);
                }
            } else {
                proof {
                    reveal(Seq::filter);
                    assert(!spec_pred(project_id)(x));
                    assert(seq![x].drop_last() =~= Seq::<Specification>::empty());
                    assert(Seq::<Specification>::empty().filter(spec_pred(project_id)) =~= Seq::<
                        Specification,
                    >::empty());
                    assert(seq![x].filter(spec_pred(project_id)) =~= Seq::<Specification>::empty());
                    assert(Seq::<Specification>::empty().reverse() =~= Seq::<
                        Specification,
                    >::empty());
                    assert(specs_of(self.specifications@.skip(i as int), project_id).reverse()
                        =~= prev);
                }
            }
        }
        proof {
            assert(self.specifications@.skip(0) =~= self.specifications@);
        }
        r
    }

    /// Looks a specification up by id; `None` exactly when no such record
    /// exists.
    pub fn find_specification_by_id(&self, specification_id: u64) -> (r: Option<Specification>)
        requires
            self.wf(),
        ensures
            match r {
                Some(s) => (specification_id as int) < self.specifications@.len() as int && s
                    == self.specifications@[specification_id as int],
                None => (specification_id as int) >= self.specifications@.len() as int,
            },
    {
        if specification_id < self.specifications.len() as u64 {
            Some(self.specifications[specification_id as usize].clone())
        } else {
            None
        }
    }
}

} // verus!
