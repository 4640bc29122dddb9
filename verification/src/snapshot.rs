//! Read-only aggregation of one project's data into a snapshot.
//!
//! The aggregator fans out over the project's domains and requirements in a
//! fixed, deterministic order — the stores' creation order, oldest first —
//! so that the prompt built from the snapshot is reproducible for unchanged
//! data. The snapshot is ephemeral: it is built for one generation run and
//! discarded after prompt assembly.

use vstd::prelude::*;

use crate::model::{
    Domain, DomainAttribute, ProjectSnapshot, Requirement, RequirementStep, StepRowView, TestCase,
};
use crate::seqtools::{concat_map, lemma_concat_map_snoc, lemma_take_one_more};
use crate::store::{
    attributes_of, domains_of, requirements_of, steps_of, test_cases_of, ProjectStore,
};

verus! {

/// The attributes fetched for one domain, as a renderer for `concat_map`.
pub open spec fn domain_attrs_fn(attrs: Seq<DomainAttribute>) -> spec_fn(Domain) -> Seq<
    DomainAttribute,
> {
    |d: Domain| attributes_of(attrs, d.id)
}

/// The steps fetched for one requirement, as a renderer for `concat_map`.
pub open spec fn requirement_steps_fn(steps: Seq<RequirementStep>) -> spec_fn(Requirement) -> Seq<
    RequirementStep,
> {
    |q: Requirement| steps_of(steps, q.id)
}

/// The test cases fetched for one requirement, as a renderer for
/// `concat_map`.
pub open spec fn requirement_tests_fn(tests: Seq<TestCase>) -> spec_fn(Requirement) -> Seq<
    TestCase,
> {
    |q: Requirement| test_cases_of(tests, q.id)
}

/// Assembles a consistent, read-only view of one project: its domains
/// (oldest first), their attributes grouped domain by domain, its
/// requirements (oldest first), and their steps and test cases grouped
/// requirement by requirement.
pub fn aggregate(store: &ProjectStore, project_id: u64) -> (snapshot: ProjectSnapshot)
    ensures
        snapshot.domains@ == domains_of(store.domains@, project_id),
        snapshot.attributes@ == concat_map(
            domains_of(store.domains@, project_id),
            domain_attrs_fn(store.attributes@),
        ),
        snapshot.requirements@ == requirements_of(store.requirements@, project_id),
        snapshot.steps@.map_values(|s: RequirementStep| s@) == concat_map(
            requirements_of(store.requirements@, project_id),
            requirement_steps_fn(store.steps@),
        ).map_values(|s: RequirementStep| s@),
        snapshot.test_cases@ == concat_map(
            requirements_of(store.requirements@, project_id),
            requirement_tests_fn(store.test_cases@),
        ),
{
    let domains = store.find_domains_by_project(project_id);
    let ghost dvs = domains@;
    let mut attributes: Vec<DomainAttribute> = Vec::new();
    let mut i: usize = 0;
    proof {
        assert(dvs.take(0) =~= Seq::<Domain>::empty());
        assert(attributes@ =~= concat_map(dvs.take(0), domain_attrs_fn(store.attributes@)));
    }
    while i < domains.len()
        invariant
            0 <= i <= domains@.len(),
            dvs == domains@,
            attributes@ == concat_map(dvs.take(i as int), domain_attrs_fn(store.attributes@)),
        decreases domains@.len() - i,
    {
        let mut found = store.find_attributes_by_domain(domains[i].id);
        proof {
            lemma_take_one_more(dvs, i as int);
            lemma_concat_map_snoc(
                dvs.take(i as int),
                domain_attrs_fn(store.attributes@),
                dvs[i as int],
            );
            assert(domain_attrs_fn(store.attributes@)(dvs[i as int]) == attributes_of(
                store.attributes@,
                domains@[i as int].id,
            ));
        }
        attributes.append(&mut found);
        i = i + 1;
    }
    proof {
        assert(dvs.take(dvs.len() as int) =~= dvs);
    }
    let requirements = store.find_requirements_by_project(project_id);
    let ghost qvs = requirements@;
    let ghost stepview = |s: RequirementStep| s@;
    let mut steps: Vec<RequirementStep> = Vec::new();
    let mut test_cases: Vec<TestCase> = Vec::new();
    let mut k: usize = 0;
    proof {
        assert(qvs.take(0) =~= Seq::<Requirement>::empty());
        assert(steps@.map_values(stepview) =~= concat_map(
            qvs.take(0),
            requirement_steps_fn(store.steps@),
        ).map_values(stepview));
        assert(test_cases@ =~= concat_map(qvs.take(0), requirement_tests_fn(store.test_cases@)));
    }
    while k < requirements.len()
        invariant
            0 <= k <= requirements@.len(),
            qvs == requirements@,
            stepview == (|s: RequirementStep| s@),
            steps@.map_values(stepview) == concat_map(
                qvs.take(k as int),
                requirement_steps_fn(store.steps@),
            ).map_values(stepview),
            test_cases@ == concat_map(qvs.take(k as int), requirement_tests_fn(store.test_cases@)),
        decreases requirements@.len() - k,
    {
        let ghost steps_prev = steps@;
        let mut found_steps = store.find_steps_by_requirement(requirements[k].id);
        let ghost found_view = found_steps@;
        let mut found_tests = store.find_test_cases_by_requirement(requirements[k].id);
        proof {
            lemma_take_one_more(qvs, k as int);
            lemma_concat_map_snoc(
                qvs.take(k as int),
                requirement_steps_fn(store.steps@),
                qvs[k as int],
            );
            lemma_concat_map_snoc(
                qvs.take(k as int),
                requirement_tests_fn(store.test_cases@),
                qvs[k as int],
            );
            assert(requirement_steps_fn(store.steps@)(qvs[k as int]) == steps_of(
                store.steps@,
                requirements@[k as int].id,
            ));
            assert(requirement_tests_fn(store.test_cases@)(qvs[k as int]) == test_cases_of(
                store.test_cases@,
                requirements@[k as int].id,
            ));
        }
        steps.append(&mut found_steps);
        test_cases.append(&mut found_tests);
        proof {
            let whole = concat_map(qvs.take(k as int + 1), requirement_steps_fn(store.steps@));
            let first = concat_map(qvs.take(k as int), requirement_steps_fn(store.steps@));
            let second = steps_of(store.steps@, requirements@[k as int].id);
            assert(steps@ =~= steps_prev + found_view);
            assert(steps_prev.map_values(stepview).len() == steps_prev.len());
            assert(first.map_values(stepview).len() == first.len());
            assert(steps_prev.len() == first.len());
            assert(found_view.map_values(stepview).len() == second.map_values(stepview).len());
            assert(found_view.len() == second.len());
            assert forall|j: int| 0 <= j < whole.len() implies whole.map_values(stepview)[j]
                == steps@.map_values(stepview)[j] by {
                assert(whole.map_values(stepview)[j] == stepview(whole[j]));
                assert(steps@.map_values(stepview)[j] == stepview(steps@[j]));
                if j < first.len() {
                    assert(whole[j] == first[j]);
                    assert(steps@[j] == steps_prev[j]);
                    assert(stepview(first[j]) == first.map_values(stepview)[j]);
                    assert(stepview(steps_prev[j]) == steps_prev.map_values(stepview)[j]);
                } else {
                    assert(whole[j] == second[j - first.len()]);
                    assert(steps@[j] == found_view[j - first.len()]);
                    assert(stepview(second[j - first.len()]) == second.map_values(stepview)[j
                        - first.len()]);
                    assert(stepview(found_view[j - first.len()]) == found_view.map_values(
                        stepview,
                    )[j - first.len()]);
                    assert(found_view.map_values(stepview)[j - first.len()] == second.map_values(
                        stepview,
                    )[j - first.len()]);
                }
            }
            assert(steps@.map_values(stepview) =~= whole.map_values(stepview));
        }
        k = k + 1;
    }
    proof {
        assert(qvs.take(qvs.len() as int) =~= qvs);
    }
    ProjectSnapshot { domains, attributes, requirements, steps, test_cases }
}

} // verus!
