use specgen::gherkin::{GherkinParser, ParsedStep};

#[test]
fn test_parse_gherkin() {
    let gherkin = "Given a user exists\nWhen they log in\nThen they see the dashboard";
    let steps = GherkinParser::parse(gherkin);

    assert_eq!(steps.len(), 3);
    assert_eq!(steps[0].step_type, "given");
    assert_eq!(steps[1].step_type, "when");
    assert_eq!(steps[2].step_type, "then");
}

#[test]
fn test_extract_domain_references() {
    let text = "User with email ${User.email} and name ${User.name}";
    let refs = GherkinParser::extract_domain_references(text);

    assert_eq!(refs.len(), 2);
    assert_eq!(refs[0], "User.email");
    assert_eq!(refs[1], "User.name");
}

#[test]
fn test_format() {
    let steps = vec![
        ParsedStep {
            step_type: "given".to_string(),
            step_order: 0,
            step_text: "a user exists".to_string(),
            domain_references: vec![],
        },
        ParsedStep {
            step_type: "when".to_string(),
            step_order: 1,
            step_text: "they log in".to_string(),
            domain_references: vec![],
        },
    ];

    let formatted = GherkinParser::format(&steps);
    assert!(formatted.contains("Given a user exists"));
    assert!(formatted.contains("When they log in"));
}

#[test]
fn test_case_insensitive_parsing() {
    // Lower-case keywords are recognized.
    let gherkin_lower = "given a user exists\nwhen they log in\nthen they see dashboard";
    let steps_lower = GherkinParser::parse(gherkin_lower);
    assert_eq!(steps_lower.len(), 3);

    // Mixed case is recognized too.
    let gherkin_mixed = "GIVEN a user\nWhen they act\ntHen result";
    let steps_mixed = GherkinParser::parse(gherkin_mixed);
    assert_eq!(steps_mixed.len(), 3);

    // Validation passes in both spellings.
    assert!(GherkinParser::validate(gherkin_lower).is_ok());
    assert!(GherkinParser::validate(gherkin_mixed).is_ok());
}

#[test]
fn test_case_variants_same_step_type() {
    let a = GherkinParser::parse("given a user");
    let b = GherkinParser::parse("GIVEN a user");
    let c = GherkinParser::parse("Given a user");
    assert_eq!(a.len(), 1);
    assert_eq!(b.len(), 1);
    assert_eq!(c.len(), 1);
    assert_eq!(a[0].step_type, "given");
    assert_eq!(b[0].step_type, "given");
    assert_eq!(c[0].step_type, "given");
}

#[test]
fn test_orders_contiguous_and_unrecognized_dropped() {
    let gherkin = "a comment line\nGiven a user\n\nnot a step\nWhen they act\nThen done";
    let steps = GherkinParser::parse(gherkin);
    assert_eq!(steps.len(), 3);
    assert_eq!(steps[0].step_order, 0);
    assert_eq!(steps[1].step_order, 1);
    assert_eq!(steps[2].step_order, 2);
    assert_eq!(steps[0].step_text, "a user");
    assert_eq!(steps[1].step_text, "they act");
    assert_eq!(steps[2].step_text, "done");
}

#[test]
fn test_validate_rejects_unrecognized_only() {
    assert_eq!(GherkinParser::parse("").len(), 0);
    assert_eq!(GherkinParser::parse("no keywords here\njust prose").len(), 0);
    let err = GherkinParser::validate("no keywords here").unwrap_err();
    assert_eq!(
        err,
        "No valid Gherkin steps found. Please use Given/When/Then/And/But keywords."
    );
    assert!(GherkinParser::validate("").is_err());
}

#[test]
fn test_format_parse_round_trip() {
    let gherkin = "Given a user exists\nWhen they log in\nAnd they wait\nBut not too long\nThen they see the dashboard";
    let steps = GherkinParser::parse(gherkin);
    let formatted = GherkinParser::format(&steps);
    let reparsed = GherkinParser::parse(&formatted);
    assert_eq!(steps.len(), reparsed.len());
    for (a, b) in steps.iter().zip(reparsed.iter()) {
        assert_eq!(a.step_type, b.step_type);
        assert_eq!(a.step_text, b.step_text);
        assert_eq!(a.step_order, b.step_order);
    }
}

#[test]
fn test_extract_references_order_and_duplicates() {
    let refs = GherkinParser::extract_domain_references("${A.x} and ${B.y} and ${A.x}");
    assert_eq!(refs, vec!["A.x", "B.y", "A.x"]);
}

#[test]
fn test_extract_references_malformed_not_matched() {
    assert!(GherkinParser::extract_domain_references("${A.} ${.b} ${A.b ${A-b.c}").is_empty());
    let refs = GherkinParser::extract_domain_references("x ${Dom_1.attr_2} y");
    assert_eq!(refs, vec!["Dom_1.attr_2"]);
}

#[test]
fn test_parse_keyword_is_prefix_not_word() {
    // The keyword match is a plain prefix: no separating space is demanded.
    let steps = GherkinParser::parse("Butter the bread");
    assert_eq!(steps.len(), 1);
    assert_eq!(steps[0].step_type, "but");
    assert_eq!(steps[0].step_text, "ter the bread");
}

#[test]
fn test_parse_keeps_text_casing_and_trims() {
    let steps = GherkinParser::parse("  GIVEN   The User EXISTS  ");
    assert_eq!(steps.len(), 1);
    assert_eq!(steps[0].step_type, "given");
    assert_eq!(steps[0].step_text, "The User EXISTS");
}

#[test]
fn test_parse_step_carries_references() {
    let steps = GherkinParser::parse("Then they see ${Dashboard.summary}");
    assert_eq!(steps.len(), 1);
    assert_eq!(steps[0].domain_references, vec!["Dashboard.summary"]);
}

#[test]
fn test_parse_line_unrecognized_is_none() {
    assert!(GherkinParser::parse_line("no keyword", 0).is_none());
    let step = GherkinParser::parse_line("  then done  ", 7).unwrap();
    assert_eq!(step.step_type, "then");
    assert_eq!(step.step_order, 7);
    assert_eq!(step.step_text, "done");
}

#[test]
fn test_crlf_lines() {
    let steps = GherkinParser::parse("Given a user\r\nWhen they act\r\n");
    assert_eq!(steps.len(), 2);
    assert_eq!(steps[0].step_text, "a user");
    assert_eq!(steps[1].step_text, "they act");
}

#[test]
fn test_end_to_end_example() {
    let text = "Given a user exists\nWhen they log in\nThen they see ${Dashboard.summary}";
    let steps = GherkinParser::parse(text);
    assert_eq!(steps.len(), 3);
    assert_eq!(steps[2].domain_references, vec!["Dashboard.summary"]);
}
