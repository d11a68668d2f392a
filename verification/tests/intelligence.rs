use astra::intelligence::relationship::{ProjectRelationship, ProjectRelationshipKind};
use astra::intelligence::rule::{InsightRule, RuleContext, VerificationRuleInput};
use astra::intelligence::analyzer::{DeterministicProjectIntelligenceAnalyzer, ProjectIntelligenceAnalyzer};
use astra::intelligence::authority::{authority_targets, entity_target_binding, insight_target_binding};
use astra::intelligence::entity::{EntityKind, InformationClassification, ProjectEntity};
use astra::intelligence::error::IntelligenceError;
use astra::intelligence::evidence::IntelligenceEvidenceRef;
use astra::intelligence::ids::{EntityId, RuleId, PI_006};
use astra::intelligence::input::{
    ActionInput, ExecutionCapabilityInput, KnowledgeCategoryInput, KnowledgeClaimInput, ProjectContextInput,
    ProjectIdentityInput, ProjectIntelligenceInput, ProjectKnowledgeInput, RepositoryInput, WorkspacePackageInput,
};
use astra::intelligence::insight::ProjectInsight;
use astra::intelligence::model::{
    ArchitectureModel, CapabilityModel, IdentityModel, KnowledgeSummary, ProjectIdentityModel, ProjectIntelligence,
    RepositoryStatus, VerificationModel, PROJECT_INTELLIGENCE_SCHEMA_VERSION,
};
use astra::intelligence::report::render_text;
use astra::intelligence::resolution::{
    render_resolved_text, InterpretationStatus, OperatorAuthorityResolver, ResolutionStatus,
};
use astra::intelligence::status::{Availability, IntelligenceConfidence, VerificationValidity};
use astra::knowledge::operator::{
    AcceptancePayload, AnnotationPayload, AnnotationScope, CorrectionPayload, DisputePayload, OperatorConfidence,
    OperatorIdentity, OperatorIntent, OperatorResponse, OperatorResponseId, OperatorResponsePayload,
    OperatorTargetBinding, OperatorTransactionId, ResponseAuditMetadata, ResponseLifecycle,
    OPERATOR_RESPONSE_SCHEMA_VERSION,
};

fn package(name: &str, path: &str) -> WorkspacePackageInput {
    WorkspacePackageInput {
        name: name.to_string(),
        ecosystem: "cargo".to_string(),
        relative_path: path.to_string(),
        confidence: IntelligenceConfidence::Certain,
        evidence: vec![IntelligenceEvidenceRef::ContextPackage { package: name.to_string() }],
    }
}

fn action(id: &str) -> ActionInput {
    ActionInput {
        id: id.to_string(),
        confidence: IntelligenceConfidence::High,
        evidence: vec![IntelligenceEvidenceRef::Action { action_id: id.to_string() }],
    }
}

fn input(root_variant: &str) -> ProjectIntelligenceInput {
    ProjectIntelligenceInput {
        project: ProjectIdentityInput {
            name: "demo".to_string(),
            project_type: Some("Rust Cargo workspace".to_string()),
        },
        context: ProjectContextInput {
            workspace_kinds: vec!["cargo_workspace".to_string()],
            packages: vec![package("core", "crates/core"), package("app", "crates/app")],
            languages: vec!["rust".to_string()],
            build_systems: vec!["cargo".to_string()],
            continuous_integration: vec!["github_actions".to_string()],
            repository: RepositoryInput { state: Some("git".to_string()), clean: Some(true) },
        },
        actions: vec![action("build"), action("check"), action("test")],
        execution_capabilities: ExecutionCapabilityInput {
            discovered_actions: vec!["build".to_string(), "check".to_string(), "test".to_string()],
            controlled_actions: vec!["check".to_string()],
            dry_run_only_actions: vec!["build".to_string(), "test".to_string()],
            unsupported_actions: Vec::new(),
        },
        knowledge: ProjectKnowledgeInput {
            claims: vec![KnowledgeClaimInput {
                id: format!("k1-{root_variant}"),
                category: KnowledgeCategoryInput::Verification,
                predicate: "check".to_string(),
                confidence: IntelligenceConfidence::Certain,
                validity: VerificationValidity::Current,
                created_at: "2026-01-01T00:00:00Z".to_string(),
                verification_action: Some("check".to_string()),
                verification_verdict: Some("verified_check".to_string()),
            }],
        },
    }
}

#[test]
fn analyzer_is_deterministic_for_reordered_input() {
    let analyzer = DeterministicProjectIntelligenceAnalyzer;
    let first = analyzer.analyze(&input("one")).expect("analysis");
    let mut shuffled = input("one");
    shuffled.actions.reverse();
    shuffled.context.packages.reverse();
    let second = analyzer.analyze(&shuffled).expect("analysis");
    assert_eq!(first, second);
    assert!(!render_text(&first).contains("crates/core"));
    assert!(first.entities.iter().all(|entity| {
        !entity.id.as_str().contains("crates/core") && !entity.name.contains("crates/core")
    }));
    assert!(first.insights.iter().any(|insight| insight.rule_id.as_str() == "PI-001"));
    let pi_002 = first.insights.iter().find(|insight| insight.rule_id.as_str() == "PI-002").expect("PI-002 insight");
    assert!(pi_002.related_entities.iter().any(|id| {
        first.entities.iter().any(|entity| entity.id == *id && entity.kind == EntityKind::Action && entity.name == "check")
    }));
    assert!(pi_002.related_entities.iter().any(|id| {
        first.entities.iter().any(|entity| {
            entity.id == *id && entity.kind == EntityKind::ExecutionCapability && entity.name == "controlled execution: check"
        })
    }));
    assert!(pi_002.related_entities.iter().any(|id| {
        first.entities.iter().any(|entity| entity.id == *id && entity.kind == EntityKind::Verification)
    }));
    let pi_003 = first.insights.iter().find(|insight| insight.rule_id.as_str() == "PI-003").expect("PI-003 insight");
    let pi_003_entities = pi_003
        .related_entities
        .iter()
        .filter_map(|id| first.entities.iter().find(|entity| entity.id == *id))
        .collect::<Vec<_>>();
    assert_eq!(pi_003_entities.iter().filter(|entity| entity.kind == EntityKind::Action).count(), 2);
    let names = pi_003_entities.iter().map(|entity| entity.name.as_str()).collect::<Vec<_>>();
    assert!(names.contains(&"build"));
    assert!(names.contains(&"test"));
    assert!(names.contains(&"dry run only: build"));
    assert!(names.contains(&"dry run only: test"));
    assert_eq!(pi_003_entities.iter().filter(|entity| entity.kind == EntityKind::ExecutionCapability).count(), 2);
    let pi_006 = first.insights.iter().find(|insight| insight.rule_id.as_str() == "PI-006").expect("PI-006 insight");
    assert_eq!(pi_006.statement, "The project is divided into multiple workspace packages.");
}

#[test]
fn analyzer_emits_only_derived_observations_not_recommendations() {
    let report = DeterministicProjectIntelligenceAnalyzer.analyze(&input("observations")).expect("analysis");
    assert!(report.insights.iter().all(|insight| insight.classification == InformationClassification::Derived));
    assert!(report.insights.iter().all(|insight| {
        !insight.statement.contains(" should ") && !insight.statement.contains("recommend") && !insight.statement.contains("execute")
    }));
}

#[test]
fn stale_verification_creates_an_insight_and_risk() {
    let mut input = input("stale");
    input.knowledge.claims[0].validity = VerificationValidity::Stale;
    let report = DeterministicProjectIntelligenceAnalyzer.analyze(&input).expect("analysis");
    assert!(report.insights.iter().any(|insight| insight.rule_id.as_str() == "PI-004"));
    assert_eq!(report.risks.len(), 1);
    assert_eq!(report.limitations.len(), 1);
}

#[test]
fn inconsistent_capabilities_are_typed_errors() {
    let mut input = input("bad");
    input.execution_capabilities.controlled_actions = vec!["missing".to_string()];
    assert!(matches!(
        DeterministicProjectIntelligenceAnalyzer.analyze(&input),
        Err(IntelligenceError::InconsistentCapability(_))
    ));
}

#[test]
fn operator_decisions_remain_distinct_and_remove_only_the_limitation() {
    let mut input = input("decision");
    input.knowledge.claims.push(KnowledgeClaimInput {
        id: "k1-decision".to_string(),
        category: KnowledgeCategoryInput::Decision,
        predicate: "execution_boundary".to_string(),
        confidence: IntelligenceConfidence::High,
        validity: VerificationValidity::Current,
        created_at: "2026-01-02T00:00:00Z".to_string(),
        verification_action: None,
        verification_verdict: None,
    });
    let report = DeterministicProjectIntelligenceAnalyzer.analyze(&input).expect("analysis");
    assert!(report.limitations.is_empty());
    assert!(report.entities.iter().any(|entity| {
        entity.kind == EntityKind::Decision && entity.classification == InformationClassification::OperatorDecided
    }));
}

#[test]
fn non_current_verifications_do_not_claim_current_state() {
    for validity in [VerificationValidity::Invalidated, VerificationValidity::Unknown] {
        let mut input = input("validity");
        input.knowledge.claims[0].validity = validity;
        let report = DeterministicProjectIntelligenceAnalyzer.analyze(&input).expect("analysis");
        assert_eq!(report.verification.validity, Availability::Available(validity));
        assert!(!report.insights.iter().any(|insight| insight.rule_id.as_str() == "PI-004"));
    }
}

#[test]
fn reports_render_their_identity_and_insights() {
    let report = DeterministicProjectIntelligenceAnalyzer.analyze(&input("render")).expect("analysis");
    let text = render_text(&report);
    assert!(text.contains("demo"));
    assert!(text.contains("The project is divided into multiple workspace packages."));
}

fn insight(evidence: &str, related_entities: Vec<EntityId>) -> ProjectInsight {
    ProjectInsight::new(
        RuleId::new(PI_006.to_string()),
        "The project is divided into multiple workspace packages.".to_string(),
        IntelligenceConfidence::Certain,
        vec![IntelligenceEvidenceRef::context(evidence.to_string())],
        related_entities,
    )
    .expect("insight")
}

fn base_with_insight(insight: ProjectInsight) -> ProjectIntelligence {
    ProjectIntelligence {
        schema_version: PROJECT_INTELLIGENCE_SCHEMA_VERSION,
        project: ProjectIdentityModel { name: "demo".to_string() },
        identity: IdentityModel {
            project_type: Availability::available("Rust".to_string()),
            languages: vec!["rust".to_string()],
            build_systems: vec!["cargo".to_string()],
            workspace: Availability::available("cargo".to_string()),
            package_count: 2,
        },
        architecture: ArchitectureModel {
            workspace_detected: Availability::available(true),
            package_structure: Availability::available("workspace packages detected".to_string()),
        },
        capabilities: CapabilityModel {
            discovered_actions: Vec::new(),
            controlled_execution_actions: Vec::new(),
            dry_run_only_actions: Vec::new(),
            unsupported_actions: Vec::new(),
        },
        verification: VerificationModel {
            availability: Availability::Unavailable,
            latest_action: Availability::Unavailable,
            verdict: Availability::Unavailable,
            validity: Availability::Unavailable,
        },
        knowledge: KnowledgeSummary::default(),
        repository: RepositoryStatus {
            state: Availability::Unknown,
            clean: Availability::Unknown,
            continuous_integration: Availability::Unavailable,
        },
        entities: Vec::new(),
        relationships: Vec::new(),
        insights: vec![insight],
        risks: Vec::new(),
        limitations: Vec::new(),
    }
}

fn response(sequence: u64, target: OperatorTargetBinding, payload: OperatorResponsePayload) -> OperatorResponse {
    let suffix = format!("{sequence:06}");
    OperatorResponse {
        schema_version: OPERATOR_RESPONSE_SCHEMA_VERSION,
        id: OperatorResponseId::parse(format!("or-response-v1-{suffix}")).expect("response ID"),
        project: "demo".to_string(),
        target,
        operator: OperatorIdentity::local("Local operator".to_string()).expect("operator"),
        lifecycle: ResponseLifecycle::Active,
        payload,
        supersedes: None,
        audit: ResponseAuditMetadata {
            transaction_id: OperatorTransactionId::parse(format!("or-transaction-v1-{suffix}")).expect("transaction ID"),
            created_at: "2026-01-01T00:00:00Z".to_string(),
        },
    }
}

#[test]
fn correction_changes_only_resolved_interpretation_and_explains_provenance() {
    let base = base_with_insight(insight("workspace.packages", Vec::new()));
    let target = insight_target_binding(&base.insights[0]).expect("target");
    let correction = response(
        1,
        target,
        OperatorResponsePayload::Correction(CorrectionPayload {
            replacement_statement: "Packages are implementation boundaries within one integrated system.".to_string(),
            reason: Some("Architecture intent differs.".to_string()),
            intent: OperatorIntent::Architecture,
            confidence: Some(OperatorConfidence::High),
        }),
    );
    let resolved = OperatorAuthorityResolver.resolve(&base, &[correction], true).expect("resolved");
    assert_eq!(resolved.base_intelligence, base);
    assert_eq!(resolved.resolution_status, ResolutionStatus::Resolved);
    assert_eq!(resolved.resolved_interpretations[0].status, InterpretationStatus::Corrected);
    assert_eq!(
        resolved.resolved_interpretations[0].resolved_statement.as_deref(),
        Some("Packages are implementation boundaries within one integrated system.")
    );
    assert_eq!(resolved.explanations.len(), 1);
    assert_eq!(resolved.explanations[0].lifecycle, ResponseLifecycle::Active);
    let text = render_resolved_text(&resolved, true);
    assert!(text.contains("Packages are implementation boundaries within one integrated system."));
}

#[test]
fn acceptance_expires_on_evidence_change_without_changing_base() {
    let original = base_with_insight(insight("workspace.packages", Vec::new()));
    let acceptance = response(
        1,
        insight_target_binding(&original.insights[0]).expect("target"),
        OperatorResponsePayload::Acceptance(AcceptancePayload { reason: None, confidence: Some(OperatorConfidence::Certain) }),
    );
    let changed = base_with_insight(insight("workspace.packages.changed", Vec::new()));
    let resolved = OperatorAuthorityResolver.resolve(&changed, &[acceptance], true).expect("resolved");
    assert_eq!(resolved.base_intelligence, changed);
    assert_eq!(resolved.active_response_count, 0);
    assert_eq!(resolved.resolved_interpretations[0].status, InterpretationStatus::Base);
    assert_eq!(resolved.explanations[0].lifecycle, ResponseLifecycle::Expired);
}

#[test]
fn state_bound_annotations_expire_while_persistent_annotations_remain_on_target() {
    let related = EntityId::derive("package", &vec!["one".to_string()]);
    let original = base_with_insight(insight("workspace.packages", Vec::new()));
    let target = insight_target_binding(&original.insights[0]).expect("target");
    let persistent = response(
        1,
        target.clone(),
        OperatorResponsePayload::Annotation(AnnotationPayload {
            statement: "Persistent context.".to_string(),
            intent: OperatorIntent::Context,
            scope: AnnotationScope::Persistent,
            confidence: None,
        }),
    );
    let state_bound = response(
        2,
        target,
        OperatorResponsePayload::Annotation(AnnotationPayload {
            statement: "State-specific context.".to_string(),
            intent: OperatorIntent::TemporaryConstraint,
            scope: AnnotationScope::StateBound,
            confidence: None,
        }),
    );
    let changed = base_with_insight(insight("workspace.packages", vec![related]));
    let resolved = OperatorAuthorityResolver.resolve(&changed, &[state_bound, persistent], true).expect("resolved");
    assert_eq!(resolved.active_response_count, 1);
    assert_eq!(resolved.annotations.len(), 1);
    assert_eq!(resolved.annotations[0].statement, "Persistent context.");
    assert_eq!(
        resolved
            .explanations
            .iter()
            .find(|explanation| explanation.response_id.as_str().ends_with("000002"))
            .expect("state-bound explanation")
            .lifecycle,
        ResponseLifecycle::Expired
    );
}

#[test]
fn dispute_is_unresolved_and_output_is_deterministic_without_audit_timestamps() {
    let base = base_with_insight(insight("workspace.packages", Vec::new()));
    let target = insight_target_binding(&base.insights[0]).expect("target");
    let dispute = response(
        2,
        target.clone(),
        OperatorResponsePayload::Dispute(DisputePayload {
            reason: "More evidence is required.".to_string(),
            intent: Some(OperatorIntent::Context),
            confidence: Some(OperatorConfidence::Tentative),
        }),
    );
    let annotation = response(
        1,
        target,
        OperatorResponsePayload::Annotation(AnnotationPayload {
            statement: "Operator context.".to_string(),
            intent: OperatorIntent::Context,
            scope: AnnotationScope::Persistent,
            confidence: None,
        }),
    );
    let first = OperatorAuthorityResolver.resolve(&base, &[dispute.clone(), annotation.clone()], true).expect("resolved");
    let second = OperatorAuthorityResolver.resolve(&base, &[annotation, dispute], true).expect("resolved");
    assert_eq!(first, second);
    assert_eq!(first.resolution_status, ResolutionStatus::Unresolved);
    assert_eq!(first.resolved_interpretations[0].status, InterpretationStatus::Disputed);
    let text = format!("{:?}", first);
    assert!(!text.contains("2026-01-01"));
    assert!(!text.contains("/Users/"));
}

#[test]
fn observed_entities_can_be_annotated_but_are_never_reinterpreted() {
    let mut base = base_with_insight(insight("workspace.packages", Vec::new()));
    let entity = ProjectEntity::new(
        EntityKind::BuildSystem,
        "cargo".to_string(),
        "cargo".to_string(),
        InformationClassification::Observed,
        IntelligenceConfidence::Certain,
        vec![IntelligenceEvidenceRef::context("tooling.build_systems".to_string())],
    )
    .expect("entity");
    let target = entity_target_binding(&entity).expect("target");
    base.entities.push(entity);
    let annotation = response(
        1,
        target,
        OperatorResponsePayload::Annotation(AnnotationPayload {
            statement: "Cargo is governed by workspace policy.".to_string(),
            intent: OperatorIntent::Context,
            scope: AnnotationScope::Persistent,
            confidence: None,
        }),
    );
    let resolved = OperatorAuthorityResolver.resolve(&base, &[annotation], false).expect("resolved");
    assert_eq!(resolved.annotations.len(), 1);
    assert_eq!(resolved.resolved_interpretations.len(), 1);
    assert_eq!(resolved.resolved_interpretations[0].status, InterpretationStatus::Base);
}

#[test]
fn responses_of_another_project_are_refused() {
    let base = base_with_insight(insight("workspace.packages", Vec::new()));
    let target = insight_target_binding(&base.insights[0]).expect("target");
    let mut other = response(
        1,
        target,
        OperatorResponsePayload::Acceptance(AcceptancePayload { reason: None, confidence: None }),
    );
    other.project = "other".to_string();
    assert!(matches!(
        OperatorAuthorityResolver.resolve(&base, &[other], false),
        Err(IntelligenceError::InvalidInput(_))
    ));
}

#[test]
fn semantic_ids_are_stable_for_equal_inputs() {
    let make = || {
        ProjectEntity::new(
            EntityKind::Package,
            "cargo:app:crates/app".to_string(),
            "app".to_string(),
            InformationClassification::Observed,
            IntelligenceConfidence::High,
            vec![IntelligenceEvidenceRef::context("workspace.packages".to_string())],
        )
        .expect("entity")
    };
    let entity = make();
    let same = make();
    assert_eq!(entity.id, same.id);
    assert!(!entity.id.as_str().contains("crates/app"));
}

#[test]
fn relationships_reject_missing_evidence_and_self_edges() {
    let entity = EntityId::derive("entity", &vec!["demo".to_string()]);
    assert!(ProjectRelationship::new(
        ProjectRelationshipKind::Contains,
        entity.clone(),
        entity,
        InformationClassification::Observed,
        IntelligenceConfidence::High,
        Vec::new(),
    )
    .is_err());
}

#[test]
fn stale_rule_emits_a_risk_without_a_recommendation() {
    let output = InsightRule::StaleVerification
        .evaluate(&RuleContext {
            workspace_detected: false,
            package_entities: Vec::new(),
            workspace_entity: None,
            discovered_actions: Vec::new(),
            controlled_actions: Vec::new(),
            check_action_entity: None,
            check_controlled_execution_capability_entity: None,
            restricted_actions: Vec::new(),
            verification: Some(VerificationRuleInput {
                claim_id: "k1-demo".to_string(),
                validity: VerificationValidity::Stale,
                entity: EntityId::derive("test", &vec!["verification".to_string()]),
            }),
            package_structure_evidence: false,
        })
        .expect("rule output");
    assert_eq!(output.insights.len(), 1);
    assert_eq!(output.risks.len(), 1);
    assert!(!output.insights[0].statement.contains("run"));
}

#[test]
fn canonical_evidence_keys_tell_references_apart() {
    let refs = vec![
        IntelligenceEvidenceRef::ContextField { field: "x".to_string() },
        IntelligenceEvidenceRef::ContextPackage { package: "x".to_string() },
        IntelligenceEvidenceRef::Action { action_id: "x".to_string() },
        IntelligenceEvidenceRef::ExecutionCapability { action_id: "x".to_string() },
        IntelligenceEvidenceRef::KnowledgeClaim { claim_id: "x".to_string() },
        IntelligenceEvidenceRef::Verification { claim_id: "x".to_string() },
        IntelligenceEvidenceRef::Input { field: "x".to_string() },
    ];
    let keys = refs.iter().map(|r| r.canonical_key()).collect::<Vec<_>>();
    assert_eq!(keys[0], "context_field:x");
    for i in 0..keys.len() {
        for j in 0..keys.len() {
            assert_eq!(keys[i] == keys[j], i == j);
        }
    }
}

#[test]
fn analyzed_entities_and_relationships_have_distinct_identifiers_and_listed_endpoints() {
    let report = DeterministicProjectIntelligenceAnalyzer.analyze(&input("one")).expect("analysis");
    for (i, a) in report.entities.iter().enumerate() {
        for b in report.entities.iter().skip(i + 1) {
            assert_ne!(a.id, b.id);
        }
    }
    for relationship in &report.relationships {
        assert!(report.entities.iter().any(|entity| entity.id == relationship.source));
        assert!(report.entities.iter().any(|entity| entity.id == relationship.target));
    }
}

#[test]
fn authority_targets_hold_each_binding_once_insights_first() {
    let mut base = base_with_insight(insight("workspace.packages", Vec::new()));
    base.insights.push(base.insights[0].clone());
    let entity = ProjectEntity::new(
        EntityKind::BuildSystem,
        "cargo".to_string(),
        "cargo".to_string(),
        InformationClassification::Observed,
        IntelligenceConfidence::Certain,
        vec![IntelligenceEvidenceRef::context("tooling.build_systems".to_string())],
    )
    .expect("entity");
    base.entities.push(entity.clone());
    let targets = authority_targets(&base).expect("targets");
    let insight_binding = insight_target_binding(&base.insights[0]).expect("insight");
    let entity_binding = entity_target_binding(&entity).expect("entity");
    assert_eq!(targets.len(), 3);
    assert_eq!(targets[0], insight_binding);
    assert_eq!(targets[1], insight_binding);
    assert_eq!(targets[2], entity_binding);
}

#[test]
fn insights_cite_their_evidence_and_related_entities_by_rule() {
    let report = DeterministicProjectIntelligenceAnalyzer.analyze(&input("one")).expect("analysis");
    let find = |rule: &str| report.insights.iter().find(|insight| insight.rule_id.as_str() == rule).expect("insight");
    let pi_001 = find("PI-001");
    assert_eq!(pi_001.confidence, IntelligenceConfidence::Certain);
    assert_eq!(pi_001.evidence, vec![IntelligenceEvidenceRef::context("workspace.kinds".to_string())]);
    assert_eq!(pi_001.related_entities.len(), 3);
    let kinds = pi_001
        .related_entities
        .iter()
        .map(|id| report.entities.iter().find(|entity| entity.id == *id).expect("listed").kind)
        .collect::<Vec<_>>();
    assert_eq!(kinds.iter().filter(|kind| **kind == EntityKind::Workspace).count(), 1);
    assert_eq!(kinds.iter().filter(|kind| **kind == EntityKind::Package).count(), 2);
    let pi_002 = find("PI-002");
    assert_eq!(
        pi_002.evidence,
        vec![
            IntelligenceEvidenceRef::Action { action_id: "check".to_string() },
            IntelligenceEvidenceRef::ExecutionCapability { action_id: "check".to_string() },
            IntelligenceEvidenceRef::Verification { claim_id: "k1-one".to_string() },
        ]
    );
    let pi_003 = find("PI-003");
    assert_eq!(
        pi_003.evidence,
        vec![
            IntelligenceEvidenceRef::Action { action_id: "build".to_string() },
            IntelligenceEvidenceRef::Action { action_id: "test".to_string() },
            IntelligenceEvidenceRef::ExecutionCapability { action_id: "build".to_string() },
            IntelligenceEvidenceRef::ExecutionCapability { action_id: "test".to_string() },
        ]
    );
    assert_eq!(pi_003.related_entities.len(), 4);
    assert_eq!(pi_002.related_entities.len(), 3);
    let pi_006 = find("PI-006");
    assert_eq!(pi_006.evidence, vec![IntelligenceEvidenceRef::context("workspace.packages".to_string())]);
    assert_eq!(pi_006.related_entities.len(), 2);
    assert!(report.insights.iter().all(|insight| insight.rule_id.as_str() != "PI-004"));
}

#[test]
fn stale_insight_relates_only_the_latest_verification() {
    let mut input = input("stale");
    input.knowledge.claims[0].validity = VerificationValidity::Stale;
    let report = DeterministicProjectIntelligenceAnalyzer.analyze(&input).expect("analysis");
    let pi_004 = report.insights.iter().find(|insight| insight.rule_id.as_str() == "PI-004").expect("PI-004");
    assert_eq!(pi_004.evidence, vec![IntelligenceEvidenceRef::Verification { claim_id: "k1-stale".to_string() }]);
    assert_eq!(pi_004.related_entities.len(), 1);
    let entity = report.entities.iter().find(|entity| entity.id == pi_004.related_entities[0]).expect("listed");
    assert_eq!(entity.kind, EntityKind::Verification);
    assert_eq!(entity.name, "check");
}

#[test]
fn claim_creation_times_shape_no_entity_or_relationship() {
    let first = DeterministicProjectIntelligenceAnalyzer.analyze(&input("times")).expect("analysis");
    let mut later = input("times");
    later.knowledge.claims[0].created_at = "2027-06-30T12:00:00Z".to_string();
    let second = DeterministicProjectIntelligenceAnalyzer.analyze(&later).expect("analysis");
    assert_eq!(first.entities, second.entities);
    assert_eq!(first.relationships, second.relationships);
    assert!(!render_text(&second).contains("2027-06-30"));
}

#[test]
fn repeated_packages_are_merged_into_one_entity() {
    let mut input = input("repeated");
    input.context.packages.push(package("core", "crates/core"));
    let report = DeterministicProjectIntelligenceAnalyzer.analyze(&input).expect("analysis");
    assert_eq!(report.entities.iter().filter(|entity| entity.kind == EntityKind::Package).count(), 2);
    assert_eq!(
        report
            .relationships
            .iter()
            .filter(|relationship| relationship.kind == ProjectRelationshipKind::Contains
                && report.entities.iter().any(|entity| entity.id == relationship.target && entity.kind == EntityKind::Package))
            .count(),
        2
    );
}

#[test]
fn repeated_actions_are_merged_into_one_entity() {
    let mut input = input("repeated-actions");
    input.actions.push(action("check"));
    let report = DeterministicProjectIntelligenceAnalyzer.analyze(&input).expect("analysis");
    assert_eq!(report.entities.iter().filter(|entity| entity.kind == EntityKind::Action).count(), 3);
    assert!(report.insights.iter().any(|insight| insight.rule_id.as_str() == "PI-002"));
}

#[test]
fn repeated_claims_are_merged_into_one_entity() {
    let mut input = input("repeated-claims");
    let claim = input.knowledge.claims[0].clone();
    input.knowledge.claims.push(claim);
    let report = DeterministicProjectIntelligenceAnalyzer.analyze(&input).expect("analysis");
    assert_eq!(report.entities.iter().filter(|entity| entity.kind == EntityKind::Verification).count(), 1);
    assert_eq!(report.knowledge.verifications, 2);
}
