use eggplan::cli::{parse_args, CliFailure};
use eggplan::identity::{EvidenceProviderId, PlanId, PlanItemId};
use eggplan::model::{EvidenceKind, Plan, PlanItem, PlanItemStatus, PlanStatus};
use eggplan::mutation::{
    activate_plan, apply_item_update, locate_item, require_item_change, require_new_draft, revision_conflict,
};
use eggplan::policy::{admit_policy, PolicyProvider};

fn item(id: &str) -> PlanItem {
    PlanItem {
        id: PlanItemId::new(id).unwrap(),
        position: 0,
        parent: None,
        dependencies: vec![],
        status: PlanItemStatus::Pending,
        description: "step".into(),
        criteria: vec![],
        blocker: None,
        next_action: Some("begin".into()),
    }
}

fn plan() -> Plan {
    Plan::new(PlanId::new("ep_mut").unwrap(), "Mutate", vec![item("epi_one"), item("epi_two")]).unwrap()
}

fn failure(command: &str, code: &str, message: &str) -> CliFailure {
    CliFailure { command: command.into(), code: code.into(), message: message.into(), json: true }
}

fn provider(id: &str, class: &str, kinds: Vec<EvidenceKind>) -> PolicyProvider {
    PolicyProvider { provider_id: EvidenceProviderId::new(id).unwrap(), class: class.into(), allowed_kinds: kinds }
}

#[test]
fn activation_moves_a_draft_to_active_at_the_next_revision() {
    let p = plan();
    let active = activate_plan(p.clone(), 0, true).unwrap();
    assert_eq!(active.status, PlanStatus::Active);
    assert_eq!(active.revision, 1);
    assert_eq!(active.items, p.items);
    assert_eq!(
        activate_plan(p.clone(), 3, true).unwrap_err(),
        failure("activate", "revision_conflict", "expected revision 3, current 0")
    );
    assert_eq!(
        activate_plan(active, 1, true).unwrap_err(),
        failure("activate", "invalid_transition", "only Draft or Blocked Plans can be activated")
    );
    let mut last = p;
    last.revision = u64::MAX;
    assert_eq!(
        activate_plan(last, u64::MAX, true).unwrap_err(),
        failure("activate", "invalid_update", "revision overflow")
    );
}

#[test]
fn item_updates_change_only_the_named_item() {
    let p = plan();
    let id = PlanItemId::new("epi_two").unwrap();
    let index = locate_item(&p, 0, &id, true).unwrap();
    assert_eq!(index, 1);
    let updated = apply_item_update(p.clone(), index, Some(PlanItemStatus::Blocked), Some("waiting"), Some(""), true)
        .unwrap();
    assert_eq!(updated.revision, 1);
    assert_eq!(updated.items[0], p.items[0]);
    assert_eq!(updated.items[1].status, PlanItemStatus::Blocked);
    assert_eq!(updated.items[1].blocker.as_deref(), Some("waiting"));
    assert_eq!(updated.items[1].next_action, None);
    assert_eq!(updated.items[1].description, "step");
    let kept = apply_item_update(p.clone(), 0, None, None, None, true).unwrap();
    assert_eq!(kept.items, p.items);
    assert_eq!(
        locate_item(&p, 0, &PlanItemId::new("epi_none").unwrap(), false).unwrap_err(),
        CliFailure { command: "item update".into(), code: "item_not_found".into(), message: "epi_none".into(), json: false }
    );
    assert_eq!(
        locate_item(&p, 7, &id, true).unwrap_err(),
        failure("item update", "revision_conflict", "expected revision 7, current 0")
    );
}

#[test]
fn item_updates_must_name_a_change_and_new_plans_must_be_fresh_drafts() {
    let none = parse_args(&["--json".to_string(), "item".to_string(), "update".to_string()]).unwrap();
    assert_eq!(
        require_item_change(&none).unwrap_err(),
        failure("item update", "usage", "provide at least one of --status, --blocker, or --next-action")
    );
    let some = parse_args(&["item".to_string(), "update".to_string(), "--blocker".to_string(), "x".to_string()])
        .unwrap();
    assert!(require_item_change(&some).is_ok());
    assert!(require_new_draft(&plan(), true).is_ok());
    let mut moved = plan();
    moved.revision = 2;
    assert_eq!(
        require_new_draft(&moved, true).unwrap_err(),
        failure("new", "invalid_plan", "new Plan must be revision zero and Draft")
    );
    assert_eq!(revision_conflict("close", 1, 2, true), failure("close", "revision_conflict", "expected revision 1, current 2"));
}

#[test]
fn a_policy_registers_its_providers_and_orders_its_entries() {
    let providers = vec![
        provider("epp_zeta", "ci", vec![EvidenceKind::Test, EvidenceKind::Command]),
        provider("epp_alpha", "research", vec![EvidenceKind::Research]),
    ];
    let loaded = admit_policy(1, &providers, true).unwrap();
    assert_eq!(loaded.entries.len(), 2);
    assert_eq!(loaded.entries[0].provider_id.as_str(), "epp_alpha");
    assert_eq!(loaded.entries[1].provider_id.as_str(), "epp_zeta");
    assert_eq!(loaded.entries[1].allowed_kinds.len(), 2);
    assert!(loaded.registry.get(&EvidenceProviderId::new("epp_zeta").unwrap()).is_some());
    assert!(loaded.registry.get(&EvidenceProviderId::new("epp_alpha").unwrap()).is_some());
}

#[test]
fn policy_refusals_name_their_cause() {
    let ok = provider("epp_one", "ci", vec![EvidenceKind::Test]);
    assert_eq!(
        admit_policy(2, &vec![ok.clone()], true).unwrap_err(),
        failure("provider-policy", "unknown_schema", "provider policy schema_version must be 1")
    );
    let many: Vec<PolicyProvider> =
        (0..129).map(|i| provider(&format!("epp_p{i}"), "ci", vec![EvidenceKind::Test])).collect();
    assert_eq!(
        admit_policy(1, &many, true).unwrap_err(),
        failure("provider-policy", "policy_bound", "provider count exceeds 128")
    );
    assert_eq!(
        admit_policy(1, &vec![ok.clone(), ok.clone()], true).unwrap_err(),
        failure("provider-policy", "duplicate_provider", "epp_one")
    );
    assert_eq!(
        admit_policy(1, &vec![provider("epp_two", "ci", vec![])], true).unwrap_err(),
        failure("provider-policy", "invalid_policy", "allowed_kinds must contain 1 to 10 values")
    );
    assert_eq!(
        admit_policy(1, &vec![provider("epp_two", "ci", vec![EvidenceKind::Test, EvidenceKind::Test])], true)
            .unwrap_err(),
        failure("provider-policy", "duplicate_kind", "epp_two")
    );
    let bad_class = admit_policy(1, &vec![provider("epp_two", "", vec![EvidenceKind::Test])], true).unwrap_err();
    assert_eq!(bad_class.code, "invalid_policy");
    assert!(bad_class.message.contains("provider class"));
}
