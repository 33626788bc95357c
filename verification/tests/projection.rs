use eggplan::assessment::AssessmentReason;
use eggplan::identity::{EvidenceProviderId, PlanId, PlanItemId};
use eggplan::model::{Plan, PlanItem, PlanItemStatus, PlanStatus};
use eggplan::projection::{
    bound_warnings, graph_projection, readiness_projection, reason_code, registry_projection, summarize_plan,
    truncate, OutputEnvelope, MAX_PROJECTED_ITEMS, MAX_PROJECTED_PLANS, MAX_TEXT_CHARS, MAX_WARNINGS,
    OUTPUT_SCHEMA_VERSION,
};

fn item(id: &str, position: u32, status: PlanItemStatus, dependencies: &[&str]) -> PlanItem {
    PlanItem {
        id: PlanItemId::new(&format!("epi_{id}")).unwrap(),
        position,
        parent: None,
        dependencies: dependencies.iter().map(|id| PlanItemId::new(&format!("epi_{id}")).unwrap()).collect(),
        status,
        description: format!("description {id}"),
        criteria: vec![],
        blocker: None,
        next_action: None,
    }
}

fn plan(id: &str, items: Vec<PlanItem>) -> Plan {
    let mut plan = Plan::new(PlanId::new(&format!("ep_{id}")).unwrap(), "projection fixture", items).unwrap();
    plan.status = PlanStatus::Active;
    plan
}

#[test]
fn readiness_graph_and_summary_are_stable_and_derive_from_core() {
    let mut root = item("root", 0, PlanItemStatus::Pending, &["dependency"]);
    root.parent = Some(PlanItemId::new("epi_done").unwrap());
    root.next_action = Some("n".repeat(MAX_TEXT_CHARS + 1));
    let mut blocked = item("blocked", 3, PlanItemStatus::Blocked, &[]);
    blocked.blocker = Some("b".repeat(MAX_TEXT_CHARS + 1));
    let plan = plan(
        "projection",
        vec![
            root,
            item("done", 1, PlanItemStatus::Completed, &[]),
            item("free", 2, PlanItemStatus::Actionable, &[]),
            blocked,
            item("dependency", 4, PlanItemStatus::InProgress, &[]),
        ],
    );
    let ready = readiness_projection(&plan);
    assert_eq!(ready.ready_count, 1);
    assert_eq!(ready.waiting_count, 1);
    assert_eq!(ready.not_actionable_count, 3);
    assert_eq!(ready.items[0].readiness.as_deref(), Some("waiting_on_dependencies"));
    assert_eq!(ready.items[0].waiting_on[0].as_str(), "epi_dependency");
    assert!(ready.items[0].next_action_truncated);
    assert!(ready.items[3].blocker_truncated);

    let graph = graph_projection(&plan);
    assert_eq!(
        graph.nodes.iter().map(|node| node.item_id.as_str()).collect::<Vec<_>>(),
        ["epi_root", "epi_done", "epi_free", "epi_blocked", "epi_dependency"]
    );
    assert_eq!(graph.dependency_edges.len(), 1);
    assert_eq!(graph.parent_edges.len(), 1);
    assert_eq!(graph, graph_projection(&plan));

    let summary = summarize_plan(&plan, None, None, false);
    assert_eq!(summary.item_count, 5);
    let pending = summary.item_status_counts.iter().find(|(code, _)| code == "pending").map(|(_, count)| *count);
    assert_eq!(pending, Some(1));
}

#[test]
fn graph_and_registry_truncation_report_original_counts() {
    let items = (0..MAX_PROJECTED_ITEMS + 1)
        .map(|index| item(&format!("node{index}"), index as u32, PlanItemStatus::Pending, &[]))
        .collect();
    let large_plan = plan("large", items);
    let graph = graph_projection(&large_plan);
    assert_eq!(graph.nodes.len(), MAX_PROJECTED_ITEMS);
    assert_eq!(graph.total_nodes, MAX_PROJECTED_ITEMS + 1);
    assert!(graph.truncated);

    let plans = (0..MAX_PROJECTED_PLANS + 1).map(|index| (plan(&format!("r{index}"), vec![]), false, None)).collect::<Vec<_>>();
    let registry = registry_projection("epr_projection", plans);
    assert_eq!(registry.plan_count, MAX_PROJECTED_PLANS + 1);
    assert_eq!(registry.projected_plan_count, MAX_PROJECTED_PLANS);
    assert!(registry.plans_truncated);
}

#[test]
fn reason_codes_are_stable_and_do_not_depend_on_rendered_messages() {
    assert_eq!(reason_code(&AssessmentReason::PlanBlocked), "plan_blocked");
    assert_eq!(
        reason_code(&AssessmentReason::UntrustedProvider(EvidenceProviderId::new("epp_fixture").unwrap())),
        "untrusted_provider"
    );
}

#[test]
fn envelope_warnings_are_bounded_in_count_and_length() {
    let bounded = OutputEnvelope::<u8>::success("status", 0, vec!["w".repeat(MAX_TEXT_CHARS + 20); 40]);
    assert_eq!(bounded.warnings.len(), MAX_WARNINGS);
    assert!(bounded.warnings.iter().all(|warning| warning.chars().count() == MAX_TEXT_CHARS));
    assert_eq!(bounded.schema_version, OUTPUT_SCHEMA_VERSION);
    assert!(bounded.ok);
    assert_eq!(bounded.command, "status");
    assert!(bounded.error.is_none());
    let kept = bound_warnings(&vec!["short".to_string()]);
    assert_eq!(kept, vec!["short".to_string()]);
}

#[test]
fn failure_envelope_carries_code_and_no_data() {
    let failed = OutputEnvelope::<u8>::failure("check", "invalid_input", "bad");
    assert!(!failed.ok);
    assert!(failed.data.is_none());
    let error = failed.error.unwrap();
    assert_eq!(error.code, "invalid_input");
    assert_eq!(error.message, "bad");
}

#[test]
fn truncation_counts_unicode_scalars() {
    let (cut, truncated) = truncate("héllo", 2);
    assert_eq!(cut, "hé");
    assert!(truncated);
    let (whole, truncated) = truncate("héllo", 5);
    assert_eq!(whole, "héllo");
    assert!(!truncated);
}

#[test]
fn graph_edges_point_from_dependent_to_dependency() {
    let plan = plan(
        "edges",
        vec![item("a", 0, PlanItemStatus::Pending, &[]), item("b", 1, PlanItemStatus::Pending, &["a"])],
    );
    let graph = graph_projection(&plan);
    assert_eq!(graph.total_dependency_edges, 1);
    assert_eq!(graph.dependency_edges[0].from.as_str(), "epi_b");
    assert_eq!(graph.dependency_edges[0].to.as_str(), "epi_a");
    assert!(!graph.edges_truncated);
}
