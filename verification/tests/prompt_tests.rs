use specgen::model::{
    Domain, DomainAttribute, ProjectSnapshot, Requirement, RequirementStep, TestCase,
};
use specgen::prompt::assemble;

fn empty_snapshot() -> ProjectSnapshot {
    ProjectSnapshot {
        domains: vec![],
        attributes: vec![],
        requirements: vec![],
        steps: vec![],
        test_cases: vec![],
    }
}

#[test]
fn test_build_prompt_with_empty_data() {
    let prompt = assemble(&empty_snapshot());

    assert!(prompt.contains("Business Domains"));
    assert!(prompt.contains("Functional Requirements"));
    assert!(prompt.contains("No domains defined"));
    assert!(prompt.contains("No requirements defined"));
}

#[test]
fn test_build_prompt_with_domain() {
    let domain = Domain {
        id: 0,
        project_id: 0,
        name: "User".to_string(),
        description: Some("User entity".to_string()),
    };

    let attr = DomainAttribute {
        id: 0,
        domain_id: domain.id,
        name: "email".to_string(),
        data_type: "email".to_string(),
        is_required: true,
        default_value: None,
        validation_rules: None,
    };

    let snapshot = ProjectSnapshot {
        domains: vec![domain],
        attributes: vec![attr],
        requirements: vec![],
        steps: vec![],
        test_cases: vec![],
    };
    let prompt = assemble(&snapshot);

    assert!(prompt.contains("## User"));
    assert!(prompt.contains("User entity"));
    assert!(prompt.contains("email"));
    assert!(prompt.contains("required"));
}

#[test]
fn test_build_prompt_with_requirement() {
    let req = Requirement {
        id: 0,
        project_id: 0,
        title: "User Login".to_string(),
        description: Some("User can login".to_string()),
        gherkin_scenario: "Given a user\nWhen they login\nThen they see dashboard".to_string(),
    };

    let step = RequirementStep {
        id: 0,
        requirement_id: req.id,
        step_type: "Given".to_string(),
        step_order: 0,
        step_text: "a user exists".to_string(),
        domain_references: vec![],
    };

    let snapshot = ProjectSnapshot {
        domains: vec![],
        attributes: vec![],
        requirements: vec![req],
        steps: vec![step],
        test_cases: vec![],
    };
    let prompt = assemble(&snapshot);

    assert!(prompt.contains("## User Login"));
    assert!(prompt.contains("User can login"));
    assert!(prompt.contains("```gherkin"));
    assert!(prompt.contains("Given a user exists"));
}

fn sample_snapshot() -> ProjectSnapshot {
    ProjectSnapshot {
        domains: vec![Domain {
            id: 0,
            project_id: 3,
            name: "Order".to_string(),
            description: None,
        }],
        attributes: vec![DomainAttribute {
            id: 0,
            domain_id: 0,
            name: "total".to_string(),
            data_type: "number".to_string(),
            is_required: false,
            default_value: None,
            validation_rules: Some("min: 0".to_string()),
        }],
        requirements: vec![Requirement {
            id: 0,
            project_id: 3,
            title: "Checkout".to_string(),
            description: None,
            gherkin_scenario: "Given a cart".to_string(),
        }],
        steps: vec![RequirementStep {
            id: 0,
            requirement_id: 0,
            step_type: "given".to_string(),
            step_order: 0,
            step_text: "a cart".to_string(),
            domain_references: vec![],
        }],
        test_cases: vec![TestCase {
            id: 0,
            requirement_id: 0,
            name: "happy path".to_string(),
            description: Some("one item".to_string()),
            expected_outcome: Some("order placed".to_string()),
        }],
    }
}

#[test]
fn test_assemble_deterministic() {
    // Two snapshots built independently from the same data give the
    // byte-identical document.
    let a = assemble(&sample_snapshot());
    let b = assemble(&sample_snapshot());
    assert_eq!(a, b);
}

#[test]
fn test_assemble_sections_and_details() {
    let prompt = assemble(&sample_snapshot());
    assert!(prompt.contains("# Business Domains"));
    assert!(prompt.contains("## Order"));
    assert!(prompt.contains("- `total` (number), validation: min: 0"));
    assert!(prompt.contains("# Functional Requirements"));
    assert!(prompt.contains("## Checkout"));
    assert!(prompt.contains("given a cart"));
    assert!(prompt.contains("**Test Cases:**"));
    assert!(prompt.contains("- happy path"));
    assert!(prompt.contains("  one item"));
    assert!(prompt.contains("  Expected: order placed"));
    assert!(prompt.contains("# Task"));
    assert!(prompt.contains("10. **Implementation Notes**: Key considerations for developers"));
    assert!(prompt.contains("well-structured Markdown format"));
}
