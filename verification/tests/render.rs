use eggplan::identity::{CriterionId, EvidenceProviderId, PlanId, PlanItemId, VerificationDigest};
use eggplan::markdown::{import, ImportFormat, ImportStep, MAX_INPUT_BYTES};
use eggplan::markdown_render::render;
use eggplan::model::{
    AcceptanceCriterion, EvidenceCardinality, EvidenceKind, EvidenceRequirement, Plan, PlanItem, PlanItemStatus,
    SubjectPolicy,
};

const PAYLOAD: &str = "{\n  \"format_version\": 1\n}";

fn item(id: &str, position: u32) -> PlanItem {
    PlanItem {
        id: PlanItemId::new(id).unwrap(),
        position,
        parent: None,
        dependencies: vec![],
        status: PlanItemStatus::Pending,
        description: format!("work {id}"),
        criteria: vec![],
        blocker: None,
        next_action: None,
    }
}

fn sample_plan() -> Plan {
    let mut first = item("epi_first", 1);
    first.description = "Write <parser>\r\n& tests".into();
    first.status = PlanItemStatus::Blocked;
    first.blocker = Some("waiting > input".into());
    first.dependencies = vec![PlanItemId::new("epi_zeta").unwrap(), PlanItemId::new("epi_alpha").unwrap()];
    first.parent = Some(PlanItemId::new("epi_alpha").unwrap());
    first.criteria = vec![AcceptanceCriterion {
        id: CriterionId::new("epc_check").unwrap(),
        statement: "Suite passes".into(),
        human_judgment_allowed: false,
        requirements: vec![
            EvidenceRequirement {
                description: "unit tests".into(),
                kind: EvidenceKind::Test,
                provider: Some(EvidenceProviderId::new("epp_runner").unwrap()),
                subject_policy: SubjectPolicy::Exact,
                cardinality: EvidenceCardinality::All,
                min_count: 2,
                allow_human_judgment: false,
                expected_verification_digest: Some(
                    VerificationDigest::new(&format!("sha256:{}", "b".repeat(64))).unwrap(),
                ),
            },
            EvidenceRequirement {
                description: "a report".into(),
                kind: EvidenceKind::StaticAnalysis,
                provider: None,
                subject_policy: SubjectPolicy::Exact,
                cardinality: EvidenceCardinality::Any,
                min_count: 1,
                allow_human_judgment: false,
                expected_verification_digest: None,
            },
        ],
    }];
    let mut alpha = item("epi_alpha", 1);
    alpha.next_action = Some("start".into());
    let zeta = item("epi_zeta", 0);
    Plan::new(PlanId::new("ep_render").unwrap(), "Ship <it>", vec![first, alpha, zeta]).unwrap()
}

#[test]
fn render_frames_the_payload_and_displays_items_in_order() {
    let plan = sample_plan();
    let text = render(&plan, false, PAYLOAD).unwrap();
    let expected = String::new()
        + "<!-- eggplan-markdown:v1 -->\n\n```eggplan-plan-json\n"
        + PAYLOAD
        + "\n```\n\n# Ship &lt;it&gt;\n\nPlan: `ep_render` · revision 0 · status `draft`\n\nItems: 3\n\n"
        + "Closure record present: no (display only)\n"
        + "\n## epi_zeta — work epi_zeta\n\nStatus: `pending`\n\nwork epi_zeta\n"
        + "\n## epi_alpha — work epi_alpha\n\nStatus: `pending`\n\nwork epi_alpha\n"
        + "\nNext action: start\n"
        + "\n## epi_first — Write &lt;parser&gt;<br>&amp; tests\n\nStatus: `blocked`\n\n"
        + "Write &lt;parser&gt;<br>&amp; tests\n"
        + "\nParent: `epi_alpha`\n"
        + "\nDependencies: epi_alpha, epi_zeta\n"
        + "\nBlocker: waiting &gt; input\n"
        + "\n### Acceptance epc_check\n\nSuite passes\n"
        + "\nEvidence requirement (display only): kind=Test, provider=epp_runner, cardinality=All, min_count=2 — unit tests, verification=sha256:"
        + &"b".repeat(64)
        + "\n"
        + "\nEvidence requirement (display only): kind=StaticAnalysis, provider=unspecified, cardinality=Any, min_count=1 — a report\n";
    assert_eq!(text, expected);
}

#[test]
fn render_is_deterministic_and_reports_a_closure_for_display_only() {
    let plan = sample_plan();
    assert_eq!(render(&plan, false, PAYLOAD).unwrap(), render(&plan, false, PAYLOAD).unwrap());
    let with_closure = render(&plan, true, PAYLOAD).unwrap();
    assert!(with_closure.contains("\n\nClosure record present: yes (display only)\n"));
    assert!(!with_closure.contains("Closure record present: no"));
}

#[test]
fn rendered_document_frames_back_the_same_payload() {
    let plan = sample_plan();
    let text = render(&plan, true, PAYLOAD).unwrap();
    match import(text.as_bytes(), ImportFormat::Auto, None) {
        Ok(ImportStep::NativePayload(payload)) => assert_eq!(payload, PAYLOAD),
        _ => panic!("a rendered document is read as native"),
    }
    let crlf = text.replace('\n', "\r\n");
    match import(crlf.as_bytes(), ImportFormat::Eggplan, None) {
        Ok(ImportStep::NativePayload(payload)) => assert_eq!(payload, PAYLOAD),
        _ => panic!("a rendered document with CRLF line ends is read as native"),
    }
}

#[test]
fn render_refuses_an_invalid_plan() {
    let mut plan = sample_plan();
    plan.objective = String::new();
    let err = render(&plan, false, PAYLOAD).unwrap_err();
    assert_eq!(
        err.0,
        "invalid plan: text field plan.objective is empty, contains NUL, or exceeds 4000 Unicode scalar values"
    );
}

#[test]
fn render_refuses_a_document_over_the_interchange_bound() {
    let plan = sample_plan();
    let payload = "x".repeat(MAX_INPUT_BYTES);
    let err = render(&plan, false, &payload).unwrap_err();
    assert_eq!(err.0, "rendered Markdown exceeds interchange byte limit");
}
