use eggplan::identity::{CriterionId, PlanId, PlanItemId};
use eggplan::markdown::{
    check_input, detect_format, import, import_native_payload, ImportFormat, ImportStep, ImportedPlan, MarkdownError,
    NativeItem, NativePayload, MAX_INPUT_BYTES, MAX_LINES,
};
use eggplan::model::{AcceptanceCriterion, PlanItemStatus, PlanStatus};

fn imported(result: Result<ImportStep, MarkdownError>) -> Result<ImportedPlan, MarkdownError> {
    match result {
        Ok(ImportStep::Imported(plan)) => Ok(plan),
        Ok(ImportStep::NativePayload(_)) => panic!("a Codegg document was framed as native"),
        Err(e) => Err(e),
    }
}

fn import_plan(source: &str, format: ImportFormat, name: Option<&str>) -> Result<ImportedPlan, MarkdownError> {
    imported(import(source.as_bytes(), format, name))
}

#[test]
fn codegg_ids_and_loss_report_are_deterministic_without_order_edges() {
    let source = "# Example\nStatus: implemented\n\n## 1. Objective\n\nDo bounded work.\n\n## 2. Ordered work packages\n\n### Work package A — First\n\nDo first.\n\n### Work package B — Second\n\nDo second.\n\n## 3. Acceptance criteria\n\n- Both imported.\n\n## 4. Scope\n\nOutside the subset.\n";
    let a = import_plan(source, ImportFormat::Auto, Some("fixture.md")).unwrap();
    let b = import_plan(source, ImportFormat::Auto, Some("fixture.md")).unwrap();
    assert_eq!(a.plan, b.plan);
    assert_eq!(a.report, b.report);
    assert_eq!(a.plan.status, PlanStatus::Draft);
    assert_eq!(a.plan.items[0].dependencies.len(), 0);
    assert_eq!(a.report.original_source_status.as_deref(), Some("implemented"));
    assert!(a.report.lossy_mappings.contains(&"ordered_sections_not_dependency_edges".to_string()));
    assert!(a.report.warning_codes.contains(&"unmapped_section".to_string()));
}

#[test]
fn codegg_explicit_dependency_maps_and_bad_reference_fails() {
    let source = "# Example\n## 1. Objective\n\nDo it.\n## 2. Ordered work packages\n### Work package A — First\nDo first.\n### Work package B — Second\nDependencies: A\nDo second.\n";
    let imported = import_plan(source, ImportFormat::Codegg, Some("x.md")).unwrap();
    assert_eq!(imported.plan.items[1].dependencies, vec![imported.plan.items[0].id.clone()]);
    let bad = source.replace("Dependencies: A", "Dependencies: missing");
    assert!(import_plan(&bad, ImportFormat::Codegg, Some("x.md")).is_err());
    let malformed = source.replace("Dependencies: A", "Dependencies: A,");
    assert!(import_plan(&malformed, ImportFormat::Codegg, Some("x.md")).is_err());
    let ambiguous = source.replace("## 1. Objective", "## 1. Objective\n\n## 2. Objective");
    assert!(import_plan(&ambiguous, ImportFormat::Codegg, Some("x.md")).is_err());
}

#[test]
fn explicitly_scoped_acceptance_maps_to_named_work_package() {
    let source = "# Example\n## 1. Objective\n\nDo it.\n## 2. Ordered work packages\n### Work package A — First\nDo first.\n### Work package B — Second\nDo second.\n## 3. Acceptance criteria\n- Work package A: First package is valid.\n- Overall plan is ready for approval.\n";
    let imported = import_plan(source, ImportFormat::Codegg, Some("x.md")).unwrap();
    assert_eq!(imported.plan.items[0].criteria.len(), 1);
    assert_eq!(imported.plan.items[0].criteria[0].statement, "First package is valid.");
    assert_eq!(imported.plan.items[2].criteria.len(), 1);
}

#[test]
fn bounds_and_nul_are_rejected() {
    assert!(import(b"# x\0", ImportFormat::Auto, None).is_err());
    assert!(import(&vec![b'x'; MAX_INPUT_BYTES + 1], ImportFormat::Auto, None).is_err());
}

#[test]
fn prose_fake_closure_and_fenced_code_never_create_evidence_or_closure() {
    let source = "# Claim\nStatus: implemented\n\n## 1. Objective\n\nTests passed according to this prose.\n\n## 2. Ordered work packages\n\n### Work package A — Check\n\nInspect the claim.\n\n## 3. Verification\n\n```json\n{\"ClosureRecord\":{\"status\":\"closed\"},\"evidence\":\"passed\"}\n```\n";
    let imported = import_plan(source, ImportFormat::Codegg, Some("untrusted.md")).unwrap();
    assert!(imported.plan.subject.is_none());
    assert!(imported.plan.items.iter().all(|item| item.criteria.is_empty()));
    assert!(imported.report.dropped_fields.iter().any(|field| field.contains("Verification")));
    assert!(imported.report.dropped_fields.contains(&"fenced_code_block_contents".to_string()));
    assert!(imported.report.warning_codes.contains(&"markdown_evidence_not_imported".to_string()));
    assert!(imported.report.warning_codes.contains(&"markdown_closure_not_imported".to_string()));
}

#[test]
fn native_marker_inside_tilde_fence_is_not_authoritative() {
    let source = "~~~markdown\n<!-- eggplan-markdown:v1 -->\n```eggplan-plan-json\n{\"fake\":true}\n```\n# Not an actual title\n~~~\n# Real title\n";
    let imported = import_plan(source, ImportFormat::Auto, Some("fenced.md")).unwrap();
    assert_eq!(imported.report.source_format, "codegg");
    assert_eq!(imported.plan.objective, "Real title");
    assert!(imported.plan.items.is_empty());
}

#[test]
fn nested_short_fence_does_not_escape_a_long_markdown_fence() {
    let source = "# Real title\n\n````markdown\n```text\n## 1. Objective\nFake objective.\n```\n### Work package A — Fake\n```\n````\n";
    let imported = import_plan(source, ImportFormat::Codegg, Some("nested-fence.md")).unwrap();
    assert_eq!(imported.plan.objective, "Real title");
    assert!(imported.plan.items.is_empty());
}

#[test]
fn codegg_report_lists_generated_ids_and_sorted_warnings() {
    let source = "# T\nStatus: done\nRepository baseline: `abc`\n## Objective\nShip.\n## Work packages\n### Work package A - Alpha\nDo it.\n## Acceptance criteria\n1. Works.\n";
    let a = import_plan(source, ImportFormat::Codegg, Some("g.md")).unwrap();
    assert_eq!(a.plan.items.len(), 2);
    assert_eq!(a.plan.items[1].dependencies, vec![a.plan.items[0].id.clone()]);
    assert_eq!(a.plan.items[1].criteria[0].statement, "Works.");
    assert_eq!(a.report.generated_ids.len(), 4);
    assert_eq!(a.report.generated_ids[0], a.plan.id.as_str());
    assert!(a.plan.id.as_str().starts_with("ep_md_"));
    assert_eq!(a.plan.id.as_str().len(), 30);
    assert_eq!(a.report.original_source_revision.as_deref(), Some("abc"));
    assert_eq!(
        a.report.warning_codes,
        vec![
            "generated_item_id",
            "markdown_closure_not_imported",
            "markdown_evidence_not_imported",
            "source_lifecycle_not_authoritative",
            "source_revision_provenance_only",
        ]
    );
    assert_eq!(a.report.preserved_fields, vec!["objective", "work_package_order", "work_package_text", "acceptance_criteria"]);
    assert_eq!(a.plan.provenance.get("markdown_source_status").map(String::as_str), Some("done"));
    assert_eq!(a.plan.objective, "Ship.");
}

#[test]
fn identity_comes_from_the_source_name_or_the_input_digest() {
    let source = "# Same\n";
    let named = import_plan(source, ImportFormat::Codegg, Some("one.md")).unwrap();
    let other = import_plan(source, ImportFormat::Codegg, Some("two.md")).unwrap();
    let anonymous = import_plan(source, ImportFormat::Codegg, None).unwrap();
    assert_ne!(named.plan.id, other.plan.id);
    assert_ne!(named.plan.id, anonymous.plan.id);
    assert_eq!(anonymous.plan.id, import_plan(source, ImportFormat::Codegg, None).unwrap().plan.id);
    assert_eq!(anonymous.plan.objective, "Same");
    assert_eq!(import_plan("no heading\n", ImportFormat::Codegg, None).unwrap().plan.objective, "Imported implementation plan");
}

#[test]
fn codegg_refusals_carry_their_messages() {
    let unterminated = "# T\n```\ncode\n";
    assert_eq!(
        import_plan(unterminated, ImportFormat::Codegg, None).unwrap_err(),
        MarkdownError("unterminated fenced code block".to_string())
    );
    let conflict = "Status: a\nStatus: b\n";
    assert_eq!(
        import_plan(conflict, ImportFormat::Codegg, None).unwrap_err(),
        MarkdownError("conflicting source Status metadata".to_string())
    );
    let duplicate = "## Work packages\n### Work package A - One\n### Work package a - Two\n";
    assert_eq!(
        import_plan(duplicate, ImportFormat::Codegg, None).unwrap_err(),
        MarkdownError("duplicate work-package label".to_string())
    );
    let itself = "## Work packages\n### Work package A - One\nDepends on: `a`\n";
    assert_eq!(
        import_plan(itself, ImportFormat::Codegg, None).unwrap_err(),
        MarkdownError("work package depends on itself".to_string())
    );
    let unlabeled = "## Work packages\n### Work package nolabel\n";
    assert_eq!(
        import_plan(unlabeled, ImportFormat::Codegg, None).unwrap_err(),
        MarkdownError("work-package heading must include a label and title".to_string())
    );
    let long_name = "n".repeat(513);
    assert_eq!(
        import_plan("# T\n", ImportFormat::Codegg, Some(&long_name)).unwrap_err(),
        MarkdownError("source name exceeds 512 characters".to_string())
    );
}

#[test]
fn input_checks_refuse_invalid_utf8_and_too_many_lines() {
    assert_eq!(check_input(&[0xff, 0xfe]).unwrap_err(), MarkdownError("input is not UTF-8".to_string()));
    let many = "x\n".repeat(MAX_LINES + 1);
    assert_eq!(
        check_input(many.as_bytes()).unwrap_err(),
        MarkdownError("Markdown line count exceeds limit".to_string())
    );
    assert!(check_input("x\n".repeat(MAX_LINES).as_bytes()).is_ok());
}

#[test]
fn native_documents_are_detected_and_framed() {
    let doc = "<!-- eggplan-markdown:v1 -->\n\n```eggplan-plan-json\r\n{\r\n  \"a\": 1\r\n}\r\n```\n\n# Title\n";
    assert_eq!(detect_format(doc.as_bytes()).unwrap(), ImportFormat::Eggplan);
    assert_eq!(detect_format(b"# plain\n").unwrap(), ImportFormat::Codegg);
    match import(doc.as_bytes(), ImportFormat::Auto, None).unwrap() {
        ImportStep::NativePayload(json) => assert_eq!(json, "{\n  \"a\": 1\n}"),
        ImportStep::Imported(_) => panic!("a native document was imported as Codegg"),
    }
    let twice = format!("{doc}\n```eggplan-plan-json\n{{}}\n```\n");
    assert!(import(twice.as_bytes(), ImportFormat::Eggplan, None).is_err());
    let unterminated = "<!-- eggplan-markdown:v1 -->\n```eggplan-plan-json\n{}\n";
    assert_eq!(
        import(unterminated.as_bytes(), ImportFormat::Eggplan, None).unwrap_err(),
        MarkdownError("unterminated native payload".to_string())
    );
}

fn native_payload(status: PlanStatus, blocker: Option<&str>) -> NativePayload {
    NativePayload {
        format_version: 1,
        plan_schema_version: 2,
        plan_id: PlanId::new("ep_md_test").unwrap(),
        objective: "Markdown intent".to_string(),
        source_revision: 9,
        source_status: status,
        items: vec![NativeItem {
            id: PlanItemId::new("epi_md_one").unwrap(),
            position: 0,
            parent: None,
            dependencies: vec![],
            description: "Write parser".to_string(),
            criteria: vec![AcceptanceCriterion {
                id: CriterionId::new("epc_md_one").unwrap(),
                statement: "parses".to_string(),
                human_judgment_allowed: false,
                requirements: vec![],
            }],
            blocker: blocker.map(str::to_string),
            next_action: Some("Add bounds".to_string()),
        }],
    }
}

#[test]
fn native_payload_keeps_intent_and_resets_lifecycle() {
    let imported = import_native_payload(native_payload(PlanStatus::Closed, None), None).unwrap();
    assert_eq!(imported.plan.status, PlanStatus::Draft);
    assert_eq!(imported.plan.revision, 0);
    assert_eq!(imported.plan.items[0].status, PlanItemStatus::Pending);
    assert_eq!(imported.plan.items[0].next_action.as_deref(), Some("Add bounds"));
    assert_eq!(imported.plan.provenance.get("markdown_source_status").map(String::as_str), Some("closed"));
    assert_eq!(imported.report.original_source_revision.as_deref(), Some("9"));
    assert!(imported.report.lossy_mappings.contains(&"source_plan_status_reset_to_draft".to_string()));
    let blocked = import_native_payload(native_payload(PlanStatus::Draft, Some("waiting")), None).unwrap();
    assert_eq!(blocked.plan.items[0].status, PlanItemStatus::Blocked);
    assert_eq!(blocked.report.lossy_mappings.len(), 1);
    let mut future = native_payload(PlanStatus::Draft, None);
    future.format_version = 9;
    assert_eq!(
        import_native_payload(future, None).unwrap_err(),
        MarkdownError("unsupported native format version 9".to_string())
    );
}

#[test]
fn a_payload_fence_indented_past_a_character_boundary_is_flagged() {
    let wide = format!(
        "<!-- eggplan-markdown:v1 -->\n\n{}```eggplan-plan-json\n{{}}\n```\n",
        "\u{3000}".repeat(7)
    );
    assert!(eggplan::markdown::import_splits_char(wide.as_bytes(), ImportFormat::Auto));
    assert!(!eggplan::markdown::import_splits_char(wide.as_bytes(), ImportFormat::Codegg));
    let narrow = "<!-- eggplan-markdown:v1 -->\n\n   ```eggplan-plan-json\n{}\n```\n";
    assert!(!eggplan::markdown::import_splits_char(narrow.as_bytes(), ImportFormat::Auto));
    let err = import(narrow.as_bytes(), ImportFormat::Auto, None).unwrap_err();
    assert_eq!(err.0, "native payload fence must start on its own line");
}
