//! Deterministic assembly of the generation prompt.
//!
//! `assemble` turns a project snapshot into the document sent to the
//! text-generation service. It is a pure function of the snapshot's
//! collections: the exact document is pinned down, character for character,
//! by `assemble_view` over the snapshot's mathematical view.

use vstd::prelude::*;

use crate::model::{
    AttributeView, Domain, DomainAttribute, DomainView, ProjectSnapshot, Requirement,
    RequirementStep, RequirementView, SnapshotView, StepRowView, TestCase, TestCaseView,
};
use crate::seqtools::{concat_map, lemma_concat_map_snoc, lemma_filter_push, lemma_take_one_more};

verus! {

// ===================== the document, mathematically =====================

/// Selects the attribute views of one domain.
pub open spec fn attr_in_domain(domain_id: int) -> spec_fn(AttributeView) -> bool {
    |a: AttributeView| a.domain_id == domain_id
}

/// Selects the step views of one requirement.
pub open spec fn step_in_requirement(requirement_id: int) -> spec_fn(StepRowView) -> bool {
    |s: StepRowView| s.requirement_id == requirement_id
}

/// Selects the test-case views of one requirement.
pub open spec fn test_in_requirement(requirement_id: int) -> spec_fn(TestCaseView) -> bool {
    |t: TestCaseView| t.requirement_id == requirement_id
}

/// The fixed introductory instruction.
pub open spec fn intro_view() -> Seq<char> {
    "You are a software architect tasked with generating a comprehensive software specification based on the following business requirements.\n\n"@
}

/// One attribute bullet.
pub open spec fn attr_line(a: AttributeView) -> Seq<char> {
    "- `"@ + a.name + "` ("@ + a.data_type + ")"@ + (if a.is_required {
        ", required"@
    } else {
        Seq::<char>::empty()
    }) + (match a.validation_rules {
        Some(v) => ", validation: "@ + v,
        None => Seq::<char>::empty(),
    }) + "\n"@
}

/// The attribute bullets, as a renderer for `concat_map`.
pub open spec fn attr_line_fn() -> spec_fn(AttributeView) -> Seq<char> {
    |a: AttributeView| attr_line(a)
}

/// One domain subsection: heading, optional description, attribute bullets.
pub open spec fn domain_block(d: DomainView, attrs: Seq<AttributeView>) -> Seq<char> {
    let fa = attrs.filter(attr_in_domain(d.id));
    "## "@ + d.name + "\n"@ + (match d.description {
        Some(t) => t + "\n"@,
        None => Seq::<char>::empty(),
    }) + (if fa.len() > 0 {
        "\n**Attributes:**\n"@ + concat_map(fa, attr_line_fn())
    } else {
        Seq::<char>::empty()
    }) + "\n"@
}

/// The domain subsections, as a renderer for `concat_map`.
pub open spec fn domain_block_fn(attrs: Seq<AttributeView>) -> spec_fn(DomainView) -> Seq<char> {
    |d: DomainView| domain_block(d, attrs)
}

/// The `Business Domains` section, with its placeholder when no domain is
/// defined.
pub open spec fn domains_section(ds: Seq<DomainView>, attrs: Seq<AttributeView>) -> Seq<char> {
    "# Business Domains\n\n"@ + (if ds.len() == 0 {
        "No domains defined.\n\n"@
    } else {
        concat_map(ds, domain_block_fn(attrs))
    })
}

/// One scenario line inside the fenced block: the stored step type and text,
/// verbatim.
pub open spec fn step_line(s: StepRowView) -> Seq<char> {
    s.step_type + " "@ + s.step_text + "\n"@
}

/// The scenario lines, as a renderer for `concat_map`.
pub open spec fn step_line_fn() -> spec_fn(StepRowView) -> Seq<char> {
    |s: StepRowView| step_line(s)
}

/// One test-case bullet with its optional description and expected outcome.
pub open spec fn test_case_lines(t: TestCaseView) -> Seq<char> {
    "- "@ + t.name + "\n"@ + (match t.description {
        Some(d) => "  "@ + d + "\n"@,
        None => Seq::<char>::empty(),
    }) + (match t.expected_outcome {
        Some(e) => "  Expected: "@ + e + "\n"@,
        None => Seq::<char>::empty(),
    })
}

/// The test-case bullets, as a renderer for `concat_map`.
pub open spec fn test_case_lines_fn() -> spec_fn(TestCaseView) -> Seq<char> {
    |t: TestCaseView| test_case_lines(t)
}

/// One requirement subsection: heading, optional description, fenced
/// scenario steps, test-case bullets.
pub open spec fn requirement_block(
    q: RequirementView,
    steps: Seq<StepRowView>,
    tests: Seq<TestCaseView>,
) -> Seq<char> {
    let fs = steps.filter(step_in_requirement(q.id));
    let ft = tests.filter(test_in_requirement(q.id));
    "## "@ + q.title + "\n"@ + (match q.description {
        Some(t) => t + "\n\n"@,
        None => Seq::<char>::empty(),
    }) + (if fs.len() > 0 {
        "```gherkin\n"@ + concat_map(fs, step_line_fn()) + "```\n\n"@
    } else {
        Seq::<char>::empty()
    }) + (if ft.len() > 0 {
        "**Test Cases:**\n"@ + concat_map(ft, test_case_lines_fn()) + "\n"@
    } else {
        Seq::<char>::empty()
    })
}

/// The requirement subsections, as a renderer for `concat_map`.
pub open spec fn requirement_block_fn(steps: Seq<StepRowView>, tests: Seq<TestCaseView>) -> spec_fn(
    RequirementView,
) -> Seq<char> {
    |q: RequirementView| requirement_block(q, steps, tests)
}

/// The `Functional Requirements` section, with its placeholder when no
/// requirement is defined.
pub open spec fn requirements_section(
    qs: Seq<RequirementView>,
    steps: Seq<StepRowView>,
    tests: Seq<TestCaseView>,
) -> Seq<char> {
    "# Functional Requirements\n\n"@ + (if qs.len() == 0 {
        "No requirements defined.\n\n"@
    } else {
        concat_map(qs, requirement_block_fn(steps, tests))
    })
}

/// The fixed closing task instructions: the ten required output sections and
/// the formatting instruction.
pub open spec fn closing_view() -> Seq<char> {
    "# Task\n\n"@
        + "Based on the above business domains and functional requirements, please generate a comprehensive software specification that includes:\n\n"@
        + "1. **System Overview**: High-level description of the system\n"@
        + "2. **Architecture**: Recommended architecture and design patterns\n"@
        + "3. **Technical Requirements**: Technology stack, frameworks, and tools\n"@
        + "4. **Data Models**: Detailed data models based on the domains\n"@
        + "5. **API Specifications**: Recommended API endpoints and their contracts\n"@
        + "6. **Business Logic**: Key algorithms and business rules\n"@
        + "7. **Security Considerations**: Authentication, authorization, and data protection\n"@
        + "8. **Testing Strategy**: Unit, integration, and end-to-end testing approach\n"@
        + "9. **Deployment**: Recommended deployment strategy\n"@
        + "10. **Implementation Notes**: Key considerations for developers\n\n"@
        + "Please provide the specification in well-structured Markdown format with clear sections and subsections.\n"@
}

/// The whole document for a snapshot: introduction, the two data sections,
/// the closing instructions.
pub open spec fn assemble_view(s: SnapshotView) -> Seq<char> {
    intro_view() + domains_section(s.domains, s.attributes) + requirements_section(
        s.requirements,
        s.steps,
        s.test_cases,
    ) + closing_view()
}

// ===================== filters =====================

fn attributes_of_domain(attrs: &Vec<DomainAttribute>, domain_id: u64) -> (r: Vec<DomainAttribute>)
    ensures
        r@.map_values(|a: DomainAttribute| a@) == attrs@.map_values(
            |a: DomainAttribute| a@,
        ).filter(attr_in_domain(domain_id as int)),
{
    let ghost avs = attrs@.map_values(|a: DomainAttribute| a@);
    let ghost pred = attr_in_domain(domain_id as int);
    let mut r: Vec<DomainAttribute> = Vec::new();
    let mut i: usize = 0;
    proof {
        reveal(Seq::filter);
        assert(avs.take(0) =~= Seq::<AttributeView>::empty());
        assert(r@.map_values(|a: DomainAttribute| a@) =~= avs.take(0).filter(pred));
    }
    while i < attrs.len()
        invariant
            0 <= i <= attrs@.len(),
            avs == attrs@.map_values(|a: DomainAttribute| a@),
            avs.len() == attrs@.len(),
            pred == attr_in_domain(domain_id as int),
            r@.map_values(|a: DomainAttribute| a@) == avs.take(i as int).filter(pred),
        decreases attrs@.len() - i,
    {
        let ghost prev = r@.map_values(|a: DomainAttribute| a@);
        proof {
            lemma_take_one_more(avs, i as int);
            lemma_filter_push(avs.take(i as int), pred, avs[i as int]);
            assert(avs[i as int] == attrs@[i as int]@);
        }
        let a = &attrs[i];
        if a.domain_id == domain_id {
            r.push(a.clone());
            proof {
                assert(r@.map_values(|a: DomainAttribute| a@) =~= prev.push(attrs@[i as int]@));
            }
        }
        i = i + 1;
    }
    proof {
        assert(avs.take(avs.len() as int) =~= avs);
    }
    r
}

fn steps_of_requirement(steps: &Vec<RequirementStep>, requirement_id: u64) -> (r: Vec<
    RequirementStep,
>)
    ensures
        r@.map_values(|s: RequirementStep| s@) == steps@.map_values(
            |s: RequirementStep| s@,
        ).filter(step_in_requirement(requirement_id as int)),
{
    let ghost svs = steps@.map_values(|s: RequirementStep| s@);
    let ghost pred = step_in_requirement(requirement_id as int);
    let mut r: Vec<RequirementStep> = Vec::new();
    let mut i: usize = 0;
    proof {
        reveal(Seq::filter);
        assert(svs.take(0) =~= Seq::<StepRowView>::empty());
        assert(r@.map_values(|s: RequirementStep| s@) =~= svs.take(0).filter(pred));
    }
    while i < steps.len()
        invariant
            0 <= i <= steps@.len(),
            svs == steps@.map_values(|s: RequirementStep| s@),
            svs.len() == steps@.len(),
            pred == step_in_requirement(requirement_id as int),
            r@.map_values(|s: RequirementStep| s@) == svs.take(i as int).filter(pred),
        decreases steps@.len() - i,
    {
        let ghost prev = r@.map_values(|s: RequirementStep| s@);
        proof {
            lemma_take_one_more(svs, i as int);
            lemma_filter_push(svs.take(i as int), pred, svs[i as int]);
            assert(svs[i as int] == steps@[i as int]@);
        }
        let s = &steps[i];
        if s.requirement_id == requirement_id {
            r.push(s.clone());
            proof {
                assert(r@.map_values(|s: RequirementStep| s@) =~= prev.push(steps@[i as int]@));
            }
        }
        i = i + 1;
    }
    proof {
        assert(svs.take(svs.len() as int) =~= svs);
    }
    r
}

fn tests_of_requirement(tests: &Vec<TestCase>, requirement_id: u64) -> (r: Vec<TestCase>)
    ensures
        r@.map_values(|t: TestCase| t@) == tests@.map_values(|t: TestCase| t@).filter(
            test_in_requirement(requirement_id as int),
        ),
{
    let ghost tvs = tests@.map_values(|t: TestCase| t@);
    let ghost pred = test_in_requirement(requirement_id as int);
    let mut r: Vec<TestCase> = Vec::new();
    let mut i: usize = 0;
    proof {
        reveal(Seq::filter);
        assert(tvs.take(0) =~= Seq::<TestCaseView>::empty());
        assert(r@.map_values(|t: TestCase| t@) =~= tvs.take(0).filter(pred));
    }
    while i < tests.len()
        invariant
            0 <= i <= tests@.len(),
            tvs == tests@.map_values(|t: TestCase| t@),
            tvs.len() == tests@.len(),
            pred == test_in_requirement(requirement_id as int),
            r@.map_values(|t: TestCase| t@) == tvs.take(i as int).filter(pred),
        decreases tests@.len() - i,
    {
        let ghost prev = r@.map_values(|t: TestCase| t@);
        proof {
            lemma_take_one_more(tvs, i as int);
            lemma_filter_push(tvs.take(i as int), pred, tvs[i as int]);
            assert(tvs[i as int] == tests@[i as int]@);
        }
        let t = &tests[i];
        if t.requirement_id == requirement_id {
            r.push(t.clone());
            proof {
                assert(r@.map_values(|t: TestCase| t@) =~= prev.push(tests@[i as int]@));
            }
        }
        i = i + 1;
    }
    proof {
        assert(tvs.take(tvs.len() as int) =~= tvs);
    }
    r
}

// ===================== rendering =====================

fn push_attr_line(out: &mut String, a: &DomainAttribute)
    ensures
        final(out)@ == old(out)@ + attr_line(a@),
{
    out.append("- `");
    out.append(a.name.as_str());
    out.append("` (");
    out.append(a.data_type.as_str());
    out.append(")");
    if a.is_required {
        out.append(", required");
    }
    if let Some(v) = &a.validation_rules {
        out.append(", validation: ");
        out.append(v.as_str());
    }
    out.append("\n");
    proof {
        assert(final(out)@ =~= old(out)@ + attr_line(a@));
    }
}

fn push_domain_block(out: &mut String, d: &Domain, attrs: &Vec<DomainAttribute>)
    ensures
        final(out)@ == old(out)@ + domain_block(d@, attrs@.map_values(|a: DomainAttribute| a@)),
{
    let fa = attributes_of_domain(attrs, d.id);
    let ghost favs = fa@.map_values(|a: DomainAttribute| a@);
    out.append("## ");
    out.append(d.name.as_str());
    out.append("\n");
    if let Some(t) = &d.description {
        out.append(t.as_str());
        out.append("\n");
    }
    let ghost mid = out@;
    if fa.len() > 0 {
        out.append("\n**Attributes:**\n");
        let ghost base = out@;
        let mut j: usize = 0;
        proof {
            assert(favs.take(0) =~= Seq::<AttributeView>::empty());
            assert(concat_map(favs.take(0), attr_line_fn()) =~= Seq::<char>::empty());
            assert(out@ =~= base + concat_map(favs.take(0), attr_line_fn()));
        }
        while j < fa.len()
            invariant
                0 <= j <= fa@.len(),
                favs == fa@.map_values(|a: DomainAttribute| a@),
                favs.len() == fa@.len(),
                out@ == base + concat_map(favs.take(j as int), attr_line_fn()),
            decreases fa@.len() - j,
        {
            let ghost prev = out@;
            push_attr_line(out, &fa[j]);
            proof {
                lemma_take_one_more(favs, j as int);
                lemma_concat_map_snoc(favs.take(j as int), attr_line_fn(), favs[j as int]);
                assert(favs[j as int] == fa@[j as int]@);
                assert(attr_line_fn()(favs[j as int]) == attr_line(fa@[j as int]@));
                assert(out@ =~= base + concat_map(favs.take(j as int + 1), attr_line_fn()));
            }
            j = j + 1;
        }
        proof {
            assert(favs.take(favs.len() as int) =~= favs);
        }
    }
    out.append("\n");
    proof {
        assert(final(out)@ =~= old(out)@ + domain_block(
            d@,
            attrs@.map_values(|a: DomainAttribute| a@),
        ));
    }
}

#[verifier::rlimit(100)]
fn push_requirement_block(
    out: &mut String,
    q: &Requirement,
    steps: &Vec<RequirementStep>,
    tests: &Vec<TestCase>,
)
    ensures
        final(out)@ == old(out)@ + requirement_block(
            q@,
            steps@.map_values(|s: RequirementStep| s@),
            tests@.map_values(|t: TestCase| t@),
        ),
{
    let fs = steps_of_requirement(steps, q.id);
    let ghost fsvs = fs@.map_values(|s: RequirementStep| s@);
    let ft = tests_of_requirement(tests, q.id);
    let ghost ftvs = ft@.map_values(|t: TestCase| t@);
    out.append("## ");
    out.append(q.title.as_str());
    out.append("\n");
    if let Some(t) = &q.description {
        out.append(t.as_str());
        out.append("\n\n");
    }
    if fs.len() > 0 {
        out.append("```gherkin\n");
        let ghost base = out@;
        let mut j: usize = 0;
        proof {
            assert(fsvs.take(0) =~= Seq::<StepRowView>::empty());
            assert(concat_map(fsvs.take(0), step_line_fn()) =~= Seq::<char>::empty());
            assert(out@ =~= base + concat_map(fsvs.take(0), step_line_fn()));
        }
        while j < fs.len()
            invariant
                0 <= j <= fs@.len(),
                fsvs == fs@.map_values(|s: RequirementStep| s@),
                fsvs.len() == fs@.len(),
                out@ == base + concat_map(fsvs.take(j as int), step_line_fn()),
            decreases fs@.len() - j,
        {
            let s = &fs[j];
            out.append(s.step_type.as_str());
            out.append(" ");
            out.append(s.step_text.as_str());
            out.append("\n");
            proof {
                lemma_take_one_more(fsvs, j as int);
                lemma_concat_map_snoc(fsvs.take(j as int), step_line_fn(), fsvs[j as int]);
                assert(fsvs[j as int] == fs@[j as int]@);
                assert(step_line_fn()(fsvs[j as int]) == step_line(fs@[j as int]@));
                assert(out@ =~= base + concat_map(fsvs.take(j as int + 1), step_line_fn()));
            }
            j = j + 1;
        }
        proof {
            assert(fsvs.take(fsvs.len() as int) =~= fsvs);
        }
        out.append("```\n\n");
    }
    if ft.len() > 0 {
        out.append("**Test Cases:**\n");
        let ghost base = out@;
        let mut j: usize = 0;
        proof {
            assert(ftvs.take(0) =~= Seq::<TestCaseView>::empty());
            assert(concat_map(ftvs.take(0), test_case_lines_fn()) =~= Seq::<char>::empty());
            assert(out@ =~= base + concat_map(ftvs.take(0), test_case_lines_fn()));
        }
        while j < ft.len()
            invariant
                0 <= j <= ft@.len(),
                ftvs == ft@.map_values(|t: TestCase| t@),
                ftvs.len() == ft@.len(),
                out@ == base + concat_map(ftvs.take(j as int), test_case_lines_fn()),
            decreases ft@.len() - j,
        {
            let t = &ft[j];
            out.append("- ");
            out.append(t.name.as_str());
            out.append("\n");
            if let Some(dsc) = &t.description {
                out.append("  ");
                out.append(dsc.as_str());
                out.append("\n");
            }
            if let Some(e) = &t.expected_outcome {
                out.append("  Expected: ");
                out.append(e.as_str());
                out.append("\n");
            }
            proof {
                lemma_take_one_more(ftvs, j as int);
                lemma_concat_map_snoc(ftvs.take(j as int), test_case_lines_fn(), ftvs[j as int]);
                assert(ftvs[j as int] == ft@[j as int]@);
                assert(test_case_lines_fn()(ftvs[j as int]) == test_case_lines(ft@[j as int]@));
                assert(out@ =~= base + concat_map(ftvs.take(j as int + 1), test_case_lines_fn()));
            }
            j = j + 1;
        }
        proof {
            assert(ftvs.take(ftvs.len() as int) =~= ftvs);
        }
        out.append("\n");
    }
    proof {
        assert(final(out)@ =~= old(out)@ + requirement_block(
            q@,
            steps@.map_values(|s: RequirementStep| s@),
            tests@.map_values(|t: TestCase| t@),
        ));
    }
}

fn push_domains_section(out: &mut String, domains: &Vec<Domain>, attrs: &Vec<DomainAttribute>)
    ensures
        final(out)@ == old(out)@ + domains_section(
            domains@.map_values(|d: Domain| d@),
            attrs@.map_values(|a: DomainAttribute| a@),
        ),
{
    let ghost dvs = domains@.map_values(|d: Domain| d@);
    let ghost avs = attrs@.map_values(|a: DomainAttribute| a@);
    out.append("# Business Domains\n\n");
    if domains.len() == 0 {
        out.append("No domains defined.\n\n");
        proof {
            assert(final(out)@ =~= old(out)@ + domains_section(dvs, avs));
        }
    } else {
        let ghost base = out@;
        let mut i: usize = 0;
        proof {
            assert(dvs.take(0) =~= Seq::<DomainView>::empty());
            assert(concat_map(dvs.take(0), domain_block_fn(avs)) =~= Seq::<char>::empty());
            assert(out@ =~= base + concat_map(dvs.take(0), domain_block_fn(avs)));
        }
        while i < domains.len()
            invariant
                0 <= i <= domains@.len(),
                dvs == domains@.map_values(|d: Domain| d@),
                avs == attrs@.map_values(|a: DomainAttribute| a@),
                dvs.len() == domains@.len(),
                out@ == base + concat_map(dvs.take(i as int), domain_block_fn(avs)),
            decreases domains@.len() - i,
        {
            push_domain_block(out, &domains[i], attrs);
            proof {
                lemma_take_one_more(dvs, i as int);
                lemma_concat_map_snoc(dvs.take(i as int), domain_block_fn(avs), dvs[i as int]);
                assert(dvs[i as int] == domains@[i as int]@);
                assert(domain_block_fn(avs)(dvs[i as int]) == domain_block(
                    domains@[i as int]@,
                    avs,
                ));
                assert(out@ =~= base + concat_map(dvs.take(i as int + 1), domain_block_fn(avs)));
            }
            i = i + 1;
        }
        proof {
            assert(dvs.take(dvs.len() as int) =~= dvs);
            assert(final(out)@ =~= old(out)@ + domains_section(dvs, avs));
        }
    }
}

fn push_requirements_section(
    out: &mut String,
    requirements: &Vec<Requirement>,
    steps: &Vec<RequirementStep>,
    tests: &Vec<TestCase>,
)
    ensures
        final(out)@ == old(out)@ + requirements_section(
            requirements@.map_values(|q: Requirement| q@),
            steps@.map_values(|s: RequirementStep| s@),
            tests@.map_values(|t: TestCase| t@),
        ),
{
    let ghost qvs = requirements@.map_values(|q: Requirement| q@);
    let ghost svs = steps@.map_values(|s: RequirementStep| s@);
    let ghost tvs = tests@.map_values(|t: TestCase| t@);
    out.append("# Functional Requirements\n\n");
    if requirements.len() == 0 {
        out.append("No requirements defined.\n\n");
        proof {
            assert(final(out)@ =~= old(out)@ + requirements_section(qvs, svs, tvs));
        }
    } else {
        let ghost base = out@;
        let mut i: usize = 0;
        proof {
            assert(qvs.take(0) =~= Seq::<RequirementView>::empty());
            assert(concat_map(qvs.take(0), requirement_block_fn(svs, tvs)) =~= Seq::<
                char,
            >::empty());
            assert(out@ =~= base + concat_map(qvs.take(0), requirement_block_fn(svs, tvs)));
        }
        while i < requirements.len()
            invariant
                0 <= i <= requirements@.len(),
                qvs == requirements@.map_values(|q: Requirement| q@),
                svs == steps@.map_values(|s: RequirementStep| s@),
                tvs == tests@.map_values(|t: TestCase| t@),
                qvs.len() == requirements@.len(),
                out@ == base + concat_map(qvs.take(i as int), requirement_block_fn(svs, tvs)),
            decreases requirements@.len() - i,
        {
            push_requirement_block(out, &requirements[i], steps, tests);
            proof {
                lemma_take_one_more(qvs, i as int);
                lemma_concat_map_snoc(
                    qvs.take(i as int),
                    requirement_block_fn(svs, tvs),
                    qvs[i as int],
                );
                assert(qvs[i as int] == requirements@[i as int]@);
                assert(requirement_block_fn(svs, tvs)(qvs[i as int]) == requirement_block(
                    requirements@[i as int]@,
                    svs,
                    tvs,
                ));
                assert(out@ =~= base + concat_map(
                    qvs.take(i as int + 1),
                    requirement_block_fn(svs, tvs),
                ));
            }
            i = i + 1;
        }
        proof {
            assert(qvs.take(qvs.len() as int) =~= qvs);
            assert(final(out)@ =~= old(out)@ + requirements_section(qvs, svs, tvs));
        }
    }
}

fn push_closing(out: &mut String)
    ensures
        final(out)@ == old(out)@ + closing_view(),
{
    out.append("# Task\n\n");
    out.append(
        "Based on the above business domains and functional requirements, please generate a comprehensive software specification that includes:\n\n",
    );
    out.append("1. **System Overview**: High-level description of the system\n");
    out.append("2. **Architecture**: Recommended architecture and design patterns\n");
    out.append("3. **Technical Requirements**: Technology stack, frameworks, and tools\n");
    out.append("4. **Data Models**: Detailed data models based on the domains\n");
    out.append("5. **API Specifications**: Recommended API endpoints and their contracts\n");
    out.append("6. **Business Logic**: Key algorithms and business rules\n");
    out.append("7. **Security Considerations**: Authentication, authorization, and data protection\n");
    out.append("8. **Testing Strategy**: Unit, integration, and end-to-end testing approach\n");
    out.append("9. **Deployment**: Recommended deployment strategy\n");
    out.append("10. **Implementation Notes**: Key considerations for developers\n\n");
    out.append(
        "Please provide the specification in well-structured Markdown format with clear sections and subsections.\n",
    );
    proof {
        assert(final(out)@ =~= old(out)@ + closing_view());
    }
}

/// Assembles the generation prompt for a snapshot: a pure, deterministic
/// rendering whose exact text is `assemble_view` of the snapshot's view.
pub fn assemble(snapshot: &ProjectSnapshot) -> (r: String)
    ensures
        r@ == assemble_view(snapshot@),
{
    let mut out = String::new();
    out.append(
        "You are a software architect tasked with generating a comprehensive software specification based on the following business requirements.\n\n",
    );
    push_domains_section(&mut out, &snapshot.domains, &snapshot.attributes);
    push_requirements_section(
        &mut out,
        &snapshot.requirements,
        &snapshot.steps,
        &snapshot.test_cases,
    );
    push_closing(&mut out);
    proof {
        assert(out@ =~= assemble_view(snapshot@));
    }
    out
}

// ===================== laws =====================

/// `needle` occurs in `text` as a contiguous run.
pub open spec fn contains_seq(text: Seq<char>, needle: Seq<char>) -> bool {
    exists|k: int|
        0 <= k && k + needle.len() <= text.len() && #[trigger] text.subrange(k, k + needle.len())
            == needle
}

/// Law: assembly is deterministic — two snapshots with equal collections
/// produce the identical document, whatever values carried them.
pub proof fn lemma_assemble_deterministic(a: SnapshotView, b: SnapshotView)
    requires
        a.domains == b.domains,
        a.attributes == b.attributes,
        a.requirements == b.requirements,
        a.steps == b.steps,
        a.test_cases == b.test_cases,
    ensures
        assemble_view(a) == assemble_view(b),
{
}

/// Law: the document of a snapshot without domains and without requirements
/// carries both placeholder sentences verbatim.
pub proof fn lemma_assemble_empty_placeholders(s: SnapshotView)
    requires
        s.domains.len() == 0,
        s.requirements.len() == 0,
    ensures
        contains_seq(assemble_view(s), "No domains defined.\n\n"@),
        contains_seq(assemble_view(s), "No requirements defined.\n\n"@),
{
    let doc = assemble_view(s);
    let d = "No domains defined.\n\n"@;
    let q = "No requirements defined.\n\n"@;
    let k1 = intro_view().len() as int + "# Business Domains\n\n"@.len() as int;
    assert(doc.subrange(k1, k1 + d.len() as int) =~= d);
    let k2 = k1 + d.len() as int + "# Functional Requirements\n\n"@.len() as int;
    assert(doc.subrange(k2, k2 + q.len() as int) =~= q);
}

} // verus!