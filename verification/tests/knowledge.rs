use astra::knowledge::claim::{canonical_json, JsonValue, KnowledgeClaim};
use astra::knowledge::error::KnowledgeError;
use astra::knowledge::model::{
    Confidence, Evidence, EvidenceKind, KnowledgeCategory, KnowledgeId, KnowledgeNamespace, KnowledgeRelationship,
    OperatorHistoryOperation, RelationshipType, Validity, ValidityCondition,
};
use astra::knowledge::operator::{
    AcceptancePayload, AnnotationPayload, AnnotationScope, CorrectionPayload, DisputePayload, NewOperatorResponse,
    OperatorConfidence, OperatorIdentity, OperatorIntent, OperatorResponse, OperatorResponseId, OperatorResponsePayload,
    OperatorTargetBinding, OperatorTargetClassification, OperatorTargetKind, OperatorTransactionId, ResponseAuditMetadata,
    ResponseLifecycle, OPERATOR_RESPONSE_SCHEMA_VERSION,
};
use astra::knowledge::store::{parse_sequence, validate_project_name, KnowledgeStore};

fn target(classification: OperatorTargetClassification) -> OperatorTargetBinding {
    OperatorTargetBinding::new(
        "pi-insight-v1-demo".to_string(),
        OperatorTargetKind::Insight,
        classification,
        Some("PI-006".to_string()),
        "Multiple workspace packages.".to_string(),
        vec!["context_field:workspace.packages".to_string()],
        vec!["pi-entity-v1-package".to_string()],
    )
    .expect("target")
}

#[test]
fn identities_are_stable_independent_of_display_name() {
    let first = OperatorIdentity::named("alice".to_string(), "Alice".to_string()).expect("identity");
    let renamed = OperatorIdentity::named("alice".to_string(), "A. Operator".to_string()).expect("identity");
    assert_eq!(first.id, renamed.id);
    assert_ne!(first.display_name, renamed.display_name);
    assert_eq!(
        OperatorIdentity::local("Local".to_string()).expect("local").id,
        OperatorIdentity::local("Developer".to_string()).expect("local").id
    );
}

#[test]
fn target_fingerprints_are_deterministic_and_order_independent() {
    let first = target(OperatorTargetClassification::Derived);
    let second = OperatorTargetBinding::new(
        first.target_id.clone(),
        first.target_kind,
        first.classification,
        first.rule_id.clone(),
        first.statement.clone(),
        first.evidence_references.iter().rev().cloned().collect(),
        first.related_entities.iter().rev().cloned().collect(),
    )
    .expect("target");
    assert_eq!(first, second);
}

#[test]
fn payloads_have_typed_lifecycle_and_observations_cannot_be_governed() {
    let correction = OperatorResponsePayload::Correction(CorrectionPayload {
        replacement_statement: "One integrated system.".to_string(),
        reason: None,
        intent: OperatorIntent::Architecture,
        confidence: Some(OperatorConfidence::High),
    });
    assert_eq!(correction.initial_lifecycle(), ResponseLifecycle::Draft);
    let response = OperatorResponse {
        schema_version: OPERATOR_RESPONSE_SCHEMA_VERSION,
        id: OperatorResponseId::from_sequence(1),
        project: "demo".to_string(),
        target: target(OperatorTargetClassification::Observed),
        operator: OperatorIdentity::local("Local operator".to_string()).expect("operator"),
        lifecycle: ResponseLifecycle::Draft,
        payload: correction,
        supersedes: None,
        audit: ResponseAuditMetadata {
            transaction_id: OperatorTransactionId::from_sequence(1),
            created_at: "2026-01-01T00:00:00Z".to_string(),
        },
    };
    assert!(matches!(response.validate(), Err(KnowledgeError::ObservedTargetGovernance)));
}

#[test]
fn obvious_sensitive_text_and_absolute_paths_are_rejected() {
    assert!(matches!(
        OperatorResponsePayload::Annotation(AnnotationPayload {
            statement: "api token".to_string(),
            intent: OperatorIntent::Context,
            scope: AnnotationScope::Persistent,
            confidence: None,
        })
        .validate(),
        Err(KnowledgeError::SensitiveOperatorResponse(_))
    ));
    assert!(OperatorTargetBinding::new(
        "pi-insight-v1-demo".to_string(),
        OperatorTargetKind::Insight,
        OperatorTargetClassification::Derived,
        None,
        "See /Users/example/private".to_string(),
        vec!["context_field:demo".to_string()],
        Vec::new(),
    )
    .is_err());
}

#[test]
fn sequence_identifiers_format_and_parse() {
    assert_eq!(OperatorResponseId::from_sequence(1).as_str(), "or-response-v1-000001");
    assert_eq!(OperatorTransactionId::from_sequence(1234567).as_str(), "or-transaction-v1-1234567");
    assert_eq!(parse_sequence("or-transaction-v1-000042"), Ok(42));
    assert!(parse_sequence("or-transaction-v1-000000").is_err());
    assert!(OperatorResponseId::parse("or-response-v1-12".to_string()).is_err());
    assert!(OperatorResponseId::parse("or-response-v1-000012".to_string()).is_ok());
}

#[test]
fn knowledge_ids_are_lowercase_hexadecimal() {
    let valid = format!("k1-{}", "0".repeat(64));
    assert!(KnowledgeId::parse(valid).is_ok());
    assert_eq!(
        KnowledgeId::parse(format!("k1-{}", "A".repeat(64))),
        Err(KnowledgeError::InvalidId(format!("k1-{}", "A".repeat(64))))
    );
    assert!(KnowledgeId::parse("k1-00".to_string()).is_err());
}

fn operator_target() -> OperatorTargetBinding {
    OperatorTargetBinding::new(
        "pi-insight-v1-demo".to_string(),
        OperatorTargetKind::Insight,
        OperatorTargetClassification::Derived,
        Some("PI-006".to_string()),
        "The project has multiple workspace packages.".to_string(),
        vec!["context_field:workspace.packages".to_string()],
        vec!["pi-entity-v1-package".to_string()],
    )
    .expect("operator target")
}

fn operator_request(payload: OperatorResponsePayload) -> NewOperatorResponse {
    NewOperatorResponse::new(
        "demo".to_string(),
        operator_target(),
        OperatorIdentity::local("Local operator".to_string()).expect("operator"),
        payload,
    )
}

fn store() -> KnowledgeStore {
    KnowledgeStore::open("/knowledge".to_string())
}

#[test]
fn project_names_cannot_escape_storage_root() {
    let store = store();
    assert!(matches!(store.list_project_knowledge("../outside"), Err(KnowledgeError::InvalidProjectName(_))));
    assert!(matches!(store.list_operator_responses("../outside"), Err(KnowledgeError::InvalidProjectName(_))));
    assert!(validate_project_name("demo").is_ok());
    assert!(validate_project_name("..").is_err());
    assert!(validate_project_name("a/b").is_err());
    assert!(validate_project_name("").is_err());
}

#[test]
fn operator_transactions_allocate_stable_ids_and_replay_committed_revisions() {
    let mut store = store();
    let annotation = store
        .create_operator_response(operator_request(OperatorResponsePayload::Annotation(AnnotationPayload {
            statement: "Implementation boundary context.".to_string(),
            intent: OperatorIntent::Context,
            scope: AnnotationScope::Persistent,
            confidence: None,
        })))
        .expect("annotation");
    let acceptance = store
        .create_operator_response(operator_request(OperatorResponsePayload::Acceptance(AcceptancePayload {
            reason: Some("Evidence is sufficient.".to_string()),
            confidence: None,
        })))
        .expect("acceptance");
    assert_eq!(annotation.id.as_str(), "or-response-v1-000001");
    assert_eq!(acceptance.id.as_str(), "or-response-v1-000002");
    assert_eq!(annotation.audit.transaction_id.as_str(), "or-transaction-v1-000001");
    let first = store.list_operator_responses("demo").expect("responses");
    let second = store.list_operator_responses("demo").expect("responses");
    assert_eq!(first, second);
    assert_eq!(first.len(), 2);
    assert_eq!(store.operator_response_history("demo").expect("history").len(), 2);
}

#[test]
fn prepared_transactions_are_ignored_and_remain_recoverable() {
    let store = store();
    assert!(store.list_operator_responses("demo").expect("responses").is_empty());
    assert!(store.operator_response_history("demo").expect("history").is_empty());
}

#[test]
fn draft_edits_activation_and_deletion_preserve_transaction_history() {
    let mut store = store();
    let draft = store
        .create_operator_response(operator_request(OperatorResponsePayload::Correction(CorrectionPayload {
            replacement_statement: "One integrated system.".to_string(),
            reason: None,
            intent: OperatorIntent::Architecture,
            confidence: None,
        })))
        .expect("draft");
    assert_eq!(draft.lifecycle, ResponseLifecycle::Draft);

    let edited = store
        .edit_operator_response_draft(
            "demo",
            &draft.id,
            OperatorResponsePayload::Dispute(DisputePayload {
                reason: "More evidence is required.".to_string(),
                intent: Some(OperatorIntent::Context),
                confidence: Some(OperatorConfidence::Tentative),
            }),
        )
        .expect("edited draft");
    assert_eq!(edited.id, draft.id);
    assert_ne!(edited.audit.transaction_id, draft.audit.transaction_id);

    let changed_target = OperatorTargetBinding::new(
        "pi-insight-v1-changed".to_string(),
        OperatorTargetKind::Insight,
        OperatorTargetClassification::Derived,
        Some("PI-006".to_string()),
        "Changed interpretation.".to_string(),
        vec!["context_field:changed".to_string()],
        Vec::new(),
    )
    .expect("changed target");
    assert!(matches!(
        store.activate_operator_response("demo", &draft.id, &changed_target, None),
        Err(KnowledgeError::OperatorTargetChanged)
    ));
    let active = store.activate_operator_response("demo", &draft.id, &operator_target(), None).expect("active response");
    assert_eq!(active.id, draft.id);
    assert_eq!(active.lifecycle, ResponseLifecycle::Active);
    assert_eq!(store.operator_response_history("demo").expect("history").len(), 3);

    let disposable = store
        .create_operator_response(
            operator_request(OperatorResponsePayload::Correction(CorrectionPayload {
                replacement_statement: "Temporary draft.".to_string(),
                reason: None,
                intent: OperatorIntent::Experiment,
                confidence: None,
            }))
            .with_supersedes(active.id),
        )
        .expect("disposable draft");
    store.delete_operator_response_draft("demo", &disposable.id).expect("delete draft");
    assert!(store.get_operator_response("demo", &disposable.id).expect("response").is_none());
    assert!(store
        .operator_response_history("demo")
        .expect("history")
        .iter()
        .any(|entry| entry.operation == OperatorHistoryOperation::DeleteDraft));
}

#[test]
fn active_governance_requires_explicit_supersession_and_preserves_old_response() {
    let mut store = store();
    let accepted = store
        .create_operator_response(operator_request(OperatorResponsePayload::Acceptance(AcceptancePayload {
            reason: None,
            confidence: Some(OperatorConfidence::High),
        })))
        .expect("acceptance");
    assert!(matches!(
        store.create_operator_response(operator_request(OperatorResponsePayload::Acceptance(AcceptancePayload {
            reason: Some("Second opinion.".to_string()),
            confidence: None,
        }))),
        Err(KnowledgeError::GoverningResponseConflict(_))
    ));
    let replacement = store
        .create_operator_response(
            operator_request(OperatorResponsePayload::Acceptance(AcceptancePayload {
                reason: Some("Reaffirmed.".to_string()),
                confidence: Some(OperatorConfidence::Certain),
            }))
            .with_supersedes(accepted.id.clone()),
        )
        .expect("replacement");
    let responses = store.list_operator_responses("demo").expect("responses");
    assert_eq!(responses.len(), 2);
    assert_eq!(
        responses.iter().find(|response| response.id == accepted.id).expect("old response").lifecycle,
        ResponseLifecycle::Superseded
    );
    assert_eq!(replacement.lifecycle, ResponseLifecycle::Active);
    let retired = store.retire_operator_response("demo", &replacement.id).expect("retired");
    assert_eq!(retired.lifecycle, ResponseLifecycle::Retired);
    assert_eq!(retired.supersedes, Some(replacement.id));
}

#[test]
fn reaffirmation_rebinds_without_rewriting_history() {
    let mut store = store();
    let accepted = store
        .create_operator_response(operator_request(OperatorResponsePayload::Acceptance(AcceptancePayload {
            reason: None,
            confidence: None,
        })))
        .expect("acceptance");
    let new_target = OperatorTargetBinding::new(
        "pi-insight-v1-new".to_string(),
        OperatorTargetKind::Insight,
        OperatorTargetClassification::Derived,
        Some("PI-006".to_string()),
        "Updated package interpretation.".to_string(),
        vec!["context_field:workspace.packages.updated".to_string()],
        vec!["pi-entity-v1-package".to_string()],
    )
    .expect("new target");
    let reaffirmed = store.reaffirm_operator_response("demo", &accepted.id, new_target.clone()).expect("reaffirmed");
    assert_ne!(reaffirmed.id, accepted.id);
    assert_eq!(reaffirmed.target, new_target);
    assert_eq!(reaffirmed.supersedes, Some(accepted.id));
    assert_eq!(store.operator_response_history("demo").expect("history").len(), 2);
}

#[test]
fn lifecycle_errors_name_the_rule_broken() {
    let mut store = store();
    let accepted = store
        .create_operator_response(operator_request(OperatorResponsePayload::Acceptance(AcceptancePayload {
            reason: None,
            confidence: None,
        })))
        .expect("acceptance");
    assert_eq!(
        store.delete_operator_response_draft("demo", &accepted.id),
        Err(KnowledgeError::InvalidResponseTransition("only draft responses are deletable".to_string()))
    );
    let missing = OperatorResponseId::from_sequence(99);
    assert_eq!(
        store.retire_operator_response("demo", &missing),
        Err(KnowledgeError::OperatorResponseNotFound("or-response-v1-000099".to_string()))
    );
    let withdrawn = store.withdraw_operator_response("demo", &accepted.id).expect("withdrawn");
    assert_eq!(withdrawn.lifecycle, ResponseLifecycle::Withdrawn);
    assert_eq!(
        store.withdraw_operator_response("demo", &accepted.id),
        Err(KnowledgeError::InvalidResponseTransition("only an effective active response may transition".to_string()))
    );
    assert_eq!(
        store.create_operator_response_at(
            NewOperatorResponse::new(
                "demo".to_string(),
                operator_target(),
                OperatorIdentity::local("Local operator".to_string()).expect("operator"),
                OperatorResponsePayload::Annotation(AnnotationPayload {
                    statement: "Note.".to_string(),
                    intent: OperatorIntent::Context,
                    scope: AnnotationScope::Persistent,
                    confidence: None,
                }),
            )
            .with_supersedes(accepted.id.clone()),
            "2026-01-01T00:00:00Z".to_string(),
        ),
        Err(KnowledgeError::InvalidOperatorResponse(
            "annotations coexist and cannot supersede governing responses".to_string()
        ))
    );
}

#[test]
fn created_responses_carry_the_given_time_and_are_read_back() {
    let mut store = store();
    let created = store
        .create_operator_response_at(
            operator_request(OperatorResponsePayload::Acceptance(AcceptancePayload { reason: None, confidence: None })),
            "2026-02-03T04:05:06Z".to_string(),
        )
        .expect("created");
    assert_eq!(created.audit.created_at, "2026-02-03T04:05:06Z");
    assert_eq!(store.get_operator_response("demo", &created.id).expect("read"), Some(created.clone()));
    let history = store.operator_response_history("demo").expect("history");
    assert_eq!(history[0].operation, OperatorHistoryOperation::Create);
    assert_eq!(history[0].response, Some(created));
}

fn text(value: &str) -> JsonValue {
    JsonValue::Text(value.to_string())
}

fn object(entries: Vec<(&str, JsonValue)>) -> JsonValue {
    JsonValue::Object(entries.into_iter().map(|(k, v)| (k.to_string(), v)).collect())
}

fn number(value: &str) -> JsonValue {
    JsonValue::Number(value.to_string())
}

fn new_claim(category: KnowledgeCategory, predicate: &str, value: JsonValue) -> KnowledgeClaim {
    KnowledgeClaim::new(
        category,
        "project:demo".to_string(),
        predicate.to_string(),
        value,
        vec![Evidence::new(EvidenceKind::ContextFact, "language-rust".to_string())],
        Confidence::High,
        Validity::Current,
    )
    .and_then(|claim| claim.with_created_at("2026-01-01T00:00:00Z".to_string()))
    .expect("claim")
}

fn claim() -> KnowledgeClaim {
    new_claim(KnowledgeCategory::Fact, "uses_language", text("rust"))
}

#[test]
fn category_is_part_of_the_deterministic_id() {
    let fact = new_claim(KnowledgeCategory::Fact, "uses_language", text("rust"));
    let decision = KnowledgeClaim::new(
        KnowledgeCategory::Decision,
        fact.subject.clone(),
        fact.predicate.clone(),
        fact.value.duplicate(),
        fact.evidence.clone(),
        fact.confidence,
        fact.validity,
    )
    .and_then(|claim| claim.with_created_at(fact.created_at.clone()))
    .expect("decision");
    assert_ne!(fact.id, decision.id);
}

#[test]
fn equivalent_claims_have_stable_ids() {
    let first = new_claim(KnowledgeCategory::Fact, "uses_language", object(vec![("b", number("2")), ("a", number("1"))]));
    let second = new_claim(KnowledgeCategory::Fact, "uses_language", object(vec![("a", number("1")), ("b", number("2"))]));
    assert_eq!(first.id, second.id);
}

#[test]
fn claim_ids_are_well_formed_and_parse_back() {
    let claim = claim();
    assert!(claim.id.as_str().starts_with("k1-"));
    assert_eq!(claim.id.as_str().len(), 67);
    assert_eq!(KnowledgeId::parse(claim.id.as_str().to_string()).expect("parse"), claim.id);
    assert_eq!(claim.validate_identity(), Ok(()));
    let other = new_claim(KnowledgeCategory::Fact, "uses_language", text("go"));
    assert_ne!(claim.id, other.id);
}

#[test]
fn tampered_claims_fail_identity_validation() {
    let mut claim = claim();
    claim.predicate = "uses_framework".to_string();
    assert_eq!(
        claim.validate_identity(),
        Err(KnowledgeError::InvalidClaim(
            "claim ID does not match its category, subject, predicate, and value".to_string()
        ))
    );
}

#[test]
fn state_observation_marks_old_verification_stale_without_deleting_it() {
    let claim = KnowledgeClaim::new(
        KnowledgeCategory::Verification,
        "project:astraos".to_string(),
        "cargo_check".to_string(),
        object(vec![("verdict", text("verified_check"))]),
        vec![Evidence::new(EvidenceKind::ExecutionResult, "execution:test".to_string())],
        Confidence::Certain,
        Validity::Current,
    )
    .map(|claim| {
        claim
            .with_validity_conditions(vec![ValidityCondition::state_bound(
                "sha256:a".to_string(),
                "sha256:b".to_string(),
                "sha256:c".to_string(),
            )])
            .with_created_at("2026-01-01T00:00:00Z".to_string())
    })
    .and_then(|claim| claim)
    .expect("verification");
    let observed = claim.observed_state(Some("sha256:changed"));
    assert_eq!(claim.validity, Validity::Current);
    assert_eq!(observed.validity, Validity::Stale);
    assert_eq!(observed.id, claim.id);
    assert_eq!(claim.observed_state(Some("sha256:a")).validity, Validity::Current);
    assert_eq!(claim.observed_state(None).validity, Validity::Unknown);
    assert_eq!(claim.invalidated().observed_state(Some("sha256:a")).validity, Validity::Invalidated);
}

#[test]
fn obvious_sensitive_fields_are_rejected() {
    let rejected = KnowledgeClaim::new(
        KnowledgeCategory::Fact,
        "project:astraos".to_string(),
        "credential".to_string(),
        object(vec![("api_key", text("secret"))]),
        Vec::new(),
        Confidence::Medium,
        Validity::Unknown,
    );
    assert!(matches!(rejected, Err(KnowledgeError::SensitiveField(_))));
    let nested = KnowledgeClaim::new(
        KnowledgeCategory::Fact,
        "project:astraos".to_string(),
        "credential".to_string(),
        object(vec![("items", JsonValue::Array(vec![object(vec![("Access-Token", text("x"))])]))]),
        vec![Evidence::new(EvidenceKind::ContextFact, "config".to_string())],
        Confidence::Medium,
        Validity::Unknown,
    );
    assert_eq!(nested, Err(KnowledgeError::SensitiveField("value.items[0].Access-Token".to_string())));
}

#[test]
fn claims_require_evidence() {
    let rejected = KnowledgeClaim::new(
        KnowledgeCategory::Fact,
        "project:astraos".to_string(),
        "language".to_string(),
        text("rust"),
        Vec::new(),
        Confidence::High,
        Validity::Current,
    );
    assert!(matches!(rejected, Err(KnowledgeError::InvalidClaim(_))));
}

#[test]
fn claim_texts_must_be_present_and_free_of_control_characters() {
    let blank = KnowledgeClaim::new(
        KnowledgeCategory::Fact,
        "  ".to_string(),
        "language".to_string(),
        text("rust"),
        vec![Evidence::new(EvidenceKind::ContextFact, "x".to_string())],
        Confidence::High,
        Validity::Current,
    );
    assert_eq!(
        blank,
        Err(KnowledgeError::InvalidClaim("subject must be non-empty and contain no control characters".to_string()))
    );
    assert_eq!(
        claim().with_created_at("bell\u{7}".to_string()).err(),
        Some(KnowledgeError::InvalidClaim("created_at must be non-empty and contain no control characters".to_string()))
    );
}

#[test]
fn evidence_is_sorted_and_deduplicated() {
    let claim = KnowledgeClaim::new(
        KnowledgeCategory::Fact,
        "project:demo".to_string(),
        "language".to_string(),
        text("rust"),
        vec![
            Evidence::new(EvidenceKind::ManifestObservation, "b".to_string()),
            Evidence::new(EvidenceKind::ContextFact, "z".to_string()),
            Evidence::new(EvidenceKind::ManifestObservation, "b".to_string()),
        ],
        Confidence::High,
        Validity::Current,
    )
    .expect("claim");
    assert_eq!(
        claim.evidence,
        vec![
            Evidence::new(EvidenceKind::ContextFact, "z".to_string()),
            Evidence::new(EvidenceKind::ManifestObservation, "b".to_string()),
        ]
    );
}

#[test]
fn missing_store_lists_empty_and_writes_versioned_claims_atomically() {
    let mut store = store();
    let namespace = KnowledgeNamespace::project("demo".to_string());
    assert!(store.list_project_knowledge("demo").expect("empty list").is_empty());
    let claim = claim();
    let id = store.add_claim(&namespace, &claim).expect("save claim");
    assert_eq!(store.get_claim(&namespace, &id).expect("get claim"), Some(claim));
    assert_eq!(store.list_project_knowledge("demo").expect("list").len(), 1);
    assert!(store.list_project_knowledge("other").expect("other").is_empty());
}

#[test]
fn corrupted_and_future_versioned_claims_are_recoverable_errors() {
    let mut store = store();
    let namespace = KnowledgeNamespace::project("demo".to_string());
    let claim = claim();
    let id = claim.id.clone();
    assert!(matches!(
        store.load_claim(namespace.clone(), "claims/facts/x.json".to_string(), None, claim.duplicate()),
        Err(KnowledgeError::Corrupt { .. })
    ));
    assert!(matches!(
        store.load_claim(namespace.clone(), "claims/facts/x.json".to_string(), Some(99), claim.duplicate()),
        Err(KnowledgeError::UnsupportedSchema { found: 99, supported: 1 })
    ));
    let mut tampered = claim.duplicate();
    tampered.subject = "project:other".to_string();
    assert!(matches!(
        store.load_claim(namespace.clone(), "claims/facts/x.json".to_string(), Some(1), tampered),
        Err(KnowledgeError::Corrupt { .. })
    ));
    assert_eq!(store.get_claim(&namespace, &id).expect("lookup"), None);
    store.load_claim(namespace.clone(), "claims/facts/x.json".to_string(), Some(1), claim.duplicate()).expect("load");
    assert_eq!(store.get_claim(&namespace, &id).expect("lookup"), Some(claim));
}

#[test]
fn invalidation_preserves_the_claim_and_relationships_validate_endpoints() {
    let mut store = store();
    let namespace = KnowledgeNamespace::project("demo".to_string());
    let first = claim();
    let second = new_claim(KnowledgeCategory::Decision, "uses_language", text("rust"));
    store.add_claim(&namespace, &first).expect("first claim");
    store.add_claim(&namespace, &second).expect("second claim");
    store
        .add_relationship(
            &namespace,
            KnowledgeRelationship { from: second.id.clone(), relationship: RelationshipType::DerivedFrom, to: first.id.clone() },
        )
        .expect("relationship");
    let invalidated = store.invalidate_claim(&namespace, &first.id).expect("invalidate");
    assert_eq!(invalidated.validity, Validity::Invalidated);
    assert_eq!(store.list_project_knowledge("demo").expect("claims").len(), 2);
    assert_eq!(store.list_relationships(&namespace).expect("relationships").len(), 1);
    assert!(matches!(
        store.add_relationship(
            &namespace,
            KnowledgeRelationship {
                from: first.id.clone(),
                relationship: RelationshipType::RelatedTo,
                to: KnowledgeId::parse("k1-0000000000000000000000000000000000000000000000000000000000000000".to_string())
                    .expect("id"),
            }
        ),
        Err(KnowledgeError::RelationshipEndpointMissing(_))
    ));
    assert_eq!(
        store.add_relationship(
            &namespace,
            KnowledgeRelationship { from: first.id.clone(), relationship: RelationshipType::RelatedTo, to: first.id.clone() },
        ),
        Err(KnowledgeError::SelfRelationship)
    );
    assert!(matches!(
        store.invalidate_claim(&namespace, &KnowledgeId::parse(format!("k1-{}", "0".repeat(64))).expect("id")),
        Err(KnowledgeError::ClaimNotFound(_))
    ));
}

#[test]
fn claims_are_listed_by_category_then_identifier() {
    let mut store = store();
    let namespace = KnowledgeNamespace::project("demo".to_string());
    let goal = new_claim(KnowledgeCategory::Goal, "ship", text("v1"));
    let fact_a = new_claim(KnowledgeCategory::Fact, "a", text("x"));
    let fact_b = new_claim(KnowledgeCategory::Fact, "b", text("y"));
    store.add_claim(&namespace, &goal).expect("goal");
    store.add_claim(&namespace, &fact_b).expect("fact");
    store.add_claim(&namespace, &fact_a).expect("fact");
    let listed = store.query_claims(&namespace, None).expect("list");
    assert_eq!(listed.len(), 3);
    assert_eq!(listed[2].category, KnowledgeCategory::Goal);
    assert!(listed[0].id < listed[1].id);
    assert_eq!(store.query_claims(&namespace, Some(KnowledgeCategory::Goal)).expect("goals"), vec![goal]);
    assert!(matches!(
        store.query_claims(&KnowledgeNamespace::project("../x".to_string()), None),
        Err(KnowledgeError::InvalidProjectName(_))
    ));
}

#[test]
fn projects_are_listed_once_in_name_order() {
    let mut store = store();
    assert!(store.list_projects().expect("empty").is_empty());
    let claim = claim();
    store.add_claim(&KnowledgeNamespace::project("zeta".to_string()), &claim).expect("zeta");
    store.add_claim(&KnowledgeNamespace::project("alpha".to_string()), &claim).expect("alpha");
    store.add_claim(&KnowledgeNamespace::Global, &claim).expect("global");
    let second = new_claim(KnowledgeCategory::Decision, "second", text("value"));
    store.add_claim(&KnowledgeNamespace::project("zeta".to_string()), &second).expect("zeta again");
    assert_eq!(store.list_projects().expect("list"), vec!["alpha".to_string(), "zeta".to_string()]);
}

#[test]
fn target_fingerprint_is_prefixed_lowercase_digest_and_ignores_repeats() {
    let first = target(OperatorTargetClassification::Derived);
    let fingerprint = first.evidence_fingerprint.clone();
    assert!(fingerprint.starts_with("or-target-v1-"));
    let hex = &fingerprint["or-target-v1-".len()..];
    assert_eq!(hex.len(), 64);
    assert!(hex.chars().all(|c| c.is_ascii_digit() || ('a'..='f').contains(&c)));
    let repeated = OperatorTargetBinding::new(
        first.target_id.clone(),
        first.target_kind,
        first.classification,
        first.rule_id.clone(),
        first.statement.clone(),
        vec![first.evidence_references[0].clone(), first.evidence_references[0].clone()],
        vec![first.related_entities[0].clone(), first.related_entities[0].clone()],
    )
    .expect("target");
    assert_eq!(repeated.evidence_references, first.evidence_references);
    assert_eq!(repeated.evidence_fingerprint, first.evidence_fingerprint);
    let other = OperatorTargetBinding::new(
        first.target_id.clone(),
        first.target_kind,
        first.classification,
        first.rule_id.clone(),
        "Another statement.".to_string(),
        first.evidence_references.clone(),
        first.related_entities.clone(),
    )
    .expect("target");
    assert_ne!(other.evidence_fingerprint, first.evidence_fingerprint);
}

#[test]
fn relationship_added_twice_is_listed_once() {
    let mut store = store();
    let namespace = KnowledgeNamespace::project("demo".to_string());
    let first = claim();
    let second = new_claim(KnowledgeCategory::Decision, "uses_language", text("rust"));
    store.add_claim(&namespace, &first).expect("first claim");
    store.add_claim(&namespace, &second).expect("second claim");
    let relationship =
        KnowledgeRelationship { from: second.id.clone(), relationship: RelationshipType::DerivedFrom, to: first.id.clone() };
    store.add_relationship(&namespace, relationship.clone()).expect("relationship");
    store.add_relationship(&namespace, relationship.clone()).expect("again");
    let other =
        KnowledgeRelationship { from: first.id.clone(), relationship: RelationshipType::RelatedTo, to: second.id.clone() };
    store.add_relationship(&namespace, other.clone()).expect("other");
    let listed = store.list_relationships(&namespace).expect("relationships");
    assert_eq!(listed.len(), 2);
    assert!(listed.contains(&relationship));
    assert!(listed.contains(&other));
    assert_eq!(store.list_relationships(&KnowledgeNamespace::Global).expect("global").len(), 0);
}

#[test]
fn canonical_json_escapes_strings_and_sorts_object_keys() {
    let text = JsonValue::Text("a\"b\\c\nd\u{1}é".to_string());
    assert_eq!(canonical_json(&text), Some("\"a\\\"b\\\\c\\nd\\u0001é\"".to_string()));
    let object = JsonValue::Object(vec![
        ("z".to_string(), JsonValue::Null),
        ("a".to_string(), JsonValue::Array(vec![JsonValue::Bool(true), JsonValue::Text("x".to_string())])),
    ]);
    assert_eq!(canonical_json(&object), Some("{\"a\":[true,\"x\"],\"z\":null}".to_string()));
}
