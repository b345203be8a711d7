//! Error envelopes: codes, one-line messages, structured payloads and prose.

use memstead_base::archive::FromArchiveBytesError;
use memstead_base::archive::ValidationError as ArchiveValidationError;
use memstead_base::backend::BackendError;
use memstead_base::entity::EntityId;
use memstead_base::error::{
    format_inline_list_overflow, BlockedReferrer, BootError, EngineError, MissingRequiredField,
    MissingRequiredSection, MissingWikiLink, ParseError, ReferrerInfo, SchemaSourceDiagnostic,
    SlugError, ValidationError,
};
use memstead_base::file_watcher::FileWatcherError;
use memstead_base::json::Json;
use memstead_base::schema::Schema;
use std::sync::Arc;

fn text_at<'a>(value: &'a Json, key: &str) -> Option<&'a str> {
    value.get(key).and_then(|v| v.as_text())
}

fn texts_at<'a>(value: &'a Json, key: &str) -> Vec<&'a str> {
    value
        .get(key)
        .and_then(|v| v.items())
        .expect("a list")
        .iter()
        .map(|v| v.as_text().expect("a text"))
        .collect()
}

fn schema(name: &str, version: &str) -> Arc<Schema> {
    Arc::new(Schema {
        name: name.to_string(),
        version: version.to_string(),
        types: Vec::new(),
        heading_violations: Vec::new(),
    })
}

/// The versions of the built-in `default` schema.
fn catalogue() -> Vec<Arc<Schema>> {
    vec![
        schema("default", "1.3.0"),
        schema("default", "1.0.0"),
        schema("default", "1.2.0"),
        schema("software", "0.1.0"),
    ]
}

#[test]
fn error_empty_list_renders_empty_string() {
    let items: Vec<String> = Vec::new();
    assert_eq!(format_inline_list_overflow(&items, "x"), "");
}

#[test]
fn error_list_at_cap_renders_all_no_overflow_suffix() {
    let items = vec!["a".to_string(), "b".to_string(), "c".to_string()];
    assert_eq!(format_inline_list_overflow(&items, "x"), "a, b, c");
}

#[test]
fn error_list_under_cap_renders_all_no_overflow_suffix() {
    let items = vec!["a".to_string(), "b".to_string()];
    assert_eq!(format_inline_list_overflow(&items, "x"), "a, b");
}

#[test]
fn error_list_over_cap_appends_count_and_field_name() {
    let items: Vec<String> = (0..23).map(|i| format!("id{i}")).collect();
    let rendered = format_inline_list_overflow(&items, "referrers");
    assert_eq!(rendered, "id0, id1, id2 +20 more — see details.referrers");
}

#[test]
fn error_list_six_items_truncates_to_three_plus_three() {
    let items: Vec<String> = (0..6).map(|i| format!("t{i}")).collect();
    let rendered = format_inline_list_overflow(&items, "missing");
    assert_eq!(rendered, "t0, t1, t2 +3 more — see details.missing");
}

#[test]
fn error_has_incoming_refs_display_inlines_first_three_referrer_ids() {
    let referrers: Vec<ReferrerInfo> = (0..23)
        .map(|i| ReferrerInfo {
            from_id: format!("specs--ref{i}"),
            rel_types: vec!["USES".to_string()],
            mem: "specs".to_string(),
        })
        .collect();
    let err = EngineError::HasIncomingRefs { id: "specs--hub".to_string(), referrers };
    let s = err.to_text();
    assert!(s.contains("specs--ref0, specs--ref1, specs--ref2"), "got: {s}");
    assert!(s.contains("+20 more — see details.referrers"), "got: {s}");
    assert!(s.contains("23 incoming reference"), "got: {s}");
}

#[test]
fn error_wiki_link_without_relation_display_lists_all_when_under_cap() {
    let missing = vec![
        MissingWikiLink {
            section_key: "specifies".to_string(),
            target_id: "specs--a".to_string(),
        },
        MissingWikiLink {
            section_key: "specifies".to_string(),
            target_id: "specs--b".to_string(),
        },
        MissingWikiLink {
            section_key: "rationale".to_string(),
            target_id: "specs--c".to_string(),
        },
    ];
    let err = EngineError::WikiLinkWithoutRelation { from_id: "specs--src".to_string(), missing };
    let s = err.to_text();
    assert!(s.contains("specifies→specs--a"), "got: {s}");
    assert!(s.contains("specifies→specs--b"), "got: {s}");
    assert!(s.contains("rationale→specs--c"), "got: {s}");
    assert!(!s.contains("more — see details"), "got: {s}");
}

#[test]
fn error_wiki_link_without_relation_display_truncates_at_cap_with_pointer() {
    let missing: Vec<MissingWikiLink> = (0..6)
        .map(|i| MissingWikiLink {
            section_key: format!("s{i}"),
            target_id: format!("specs--t{i}"),
        })
        .collect();
    let err = EngineError::WikiLinkWithoutRelation { from_id: "specs--src".to_string(), missing };
    let s = err.to_text();
    assert!(s.contains("s0→specs--t0, s1→specs--t1, s2→specs--t2"), "got: {s}");
    assert!(s.contains("+3 more — see details.missing"), "got: {s}");
}

#[test]
fn error_relation_has_body_links_display_inlines_section_keys() {
    let err = EngineError::RelationHasBodyLinks {
        from_id: "specs--src".to_string(),
        to_id: "specs--dst".to_string(),
        rel_type: "USES".to_string(),
        body_links: vec!["specifies".to_string(), "rationale".to_string()],
    };
    let s = err.to_text();
    assert!(s.contains("specifies, rationale"), "got: {s}");
    assert!(!s.contains("more — see details"), "got: {s}");
}

#[test]
fn error_prose_render_has_incoming_refs_inlines_every_referrer() {
    let referrers = (0..7)
        .map(|i| ReferrerInfo {
            from_id: format!("specs--r{i}"),
            rel_types: vec!["DEPENDS_ON".to_string()],
            mem: "specs".to_string(),
        })
        .collect();
    let err = EngineError::HasIncomingRefs { id: "specs--target".to_string(), referrers };
    let prose = err.prose_render();
    for i in 0..7 {
        assert!(
            prose.contains(&format!("specs--r{i}")),
            "every referrer must appear inline; missing r{i} in: {prose}"
        );
    }
    assert!(!prose.contains("see details"), "got: {prose}");
    let display = err.to_text();
    assert!(display.contains("+4 more — see details.referrers"), "got: {display}");
}

#[test]
fn error_prose_render_required_field_unset_inlines_field_description_and_rules() {
    let err = EngineError::RequiredFieldUnset {
        field: "verified_on".to_string(),
        entity_type: "requirement".to_string(),
        field_description: Some("ISO-8601 date the requirement was last validated".to_string()),
        enum_values: vec![],
        type_write_rules: vec!["bump verified_on on every status change".to_string()],
        on_create: false,
        missing: Vec::new(),
    };
    let prose = err.prose_render();
    assert!(prose.contains("ISO-8601 date"), "field_description missing: {prose}");
    assert!(prose.contains("bump verified_on"), "type_write_rules missing: {prose}");
    assert!(!prose.contains("see details"), "got: {prose}");
    assert!(
        prose.contains("cannot unset"),
        "update-path wording must say 'cannot unset': {prose}"
    );
}

#[test]
fn error_prose_render_required_field_unset_create_path_uses_not_provided_wording() {
    let err = EngineError::RequiredFieldUnset {
        field: "verified_on".to_string(),
        entity_type: "requirement".to_string(),
        field_description: Some("ISO-8601 date the requirement was last validated".to_string()),
        enum_values: vec![],
        type_write_rules: vec![],
        on_create: true,
        missing: Vec::new(),
    };
    let prose = err.prose_render();
    assert!(
        prose.contains("not provided"),
        "create-path wording must say 'not provided': {prose}"
    );
    assert!(
        !prose.contains("cannot unset"),
        "create-path wording must NOT say 'cannot unset': {prose}"
    );
    let display = err.to_text();
    assert!(display.contains("not provided"), "the one line must match: {display}");
    assert!(!display.contains("cannot unset"), "the one line must match: {display}");
}

#[test]
fn error_details_required_field_unset_multi_field_envelope_shape() {
    let err = EngineError::RequiredFieldUnset {
        field: "decided_on".to_string(),
        entity_type: "decision".to_string(),
        field_description: Some("Date the decision was accepted. ISO YYYY-MM-DD.".to_string()),
        enum_values: vec![],
        type_write_rules: vec!["status transitions: proposed → accepted".to_string()],
        on_create: true,
        missing: vec![
            MissingRequiredField {
                entity_type: "decision".to_string(),
                key: "decided_on".to_string(),
                description: "Date the decision was accepted. ISO YYYY-MM-DD.".to_string(),
                enum_values: vec![],
            },
            MissingRequiredField {
                entity_type: "decision".to_string(),
                key: "deciders".to_string(),
                description: "Who made the call. Comma-separated handles.".to_string(),
                enum_values: vec![],
            },
        ],
    };
    let details = err.details();
    assert_eq!(text_at(&details, "field"), Some("decided_on"));
    let missing = details.get("missing").and_then(|m| m.items()).expect("missing[] array");
    assert_eq!(missing.len(), 2);
    assert_eq!(text_at(&missing[0], "field"), Some("decided_on"));
    assert_eq!(text_at(&missing[1], "field"), Some("deciders"));
    assert_eq!(text_at(&details, "field"), text_at(&missing[0], "field"));
    assert_eq!(texts_at(&missing[0], "write_rules"), texts_at(&details, "type_write_rules"));
    let prose = err.prose_render();
    assert!(prose.contains("decided_on"), "got: {prose}");
    assert!(prose.contains("deciders"), "got: {prose}");
}

#[test]
fn error_details_required_field_unset_singular_shape_for_unset_path() {
    let err = EngineError::RequiredFieldUnset {
        field: "decided_on".to_string(),
        entity_type: "decision".to_string(),
        field_description: Some("…".to_string()),
        enum_values: vec![],
        type_write_rules: vec![],
        on_create: false,
        missing: Vec::new(),
    };
    let details = err.details();
    assert_eq!(text_at(&details, "field"), Some("decided_on"));
    let missing = details.get("missing").and_then(|m| m.items()).expect("missing[] array present");
    assert!(missing.is_empty(), "unset-path missing[] must be empty");
    assert_eq!(err.code(), "REQUIRED_FIELD_UNSET");
}

#[test]
fn error_prose_render_missing_required_section_enumerates_each_section_with_write_rules() {
    let sections = vec![
        MissingRequiredSection {
            entity_type: "spec".to_string(),
            key: "purpose".to_string(),
            heading: "Purpose".to_string(),
            write_rules: vec!["one-sentence statement of intent".to_string()],
        },
        MissingRequiredSection {
            entity_type: "spec".to_string(),
            key: "scope".to_string(),
            heading: "Scope".to_string(),
            write_rules: vec!["what is in and out of scope".to_string()],
        },
    ];
    let err = EngineError::MissingRequiredSection {
        entity_type: "spec".to_string(),
        missing_count: 2,
        sections,
        type_guidance: vec![(
            "spec".to_string(),
            vec!["specs are immutable once stable".to_string()],
        )],
        pre_announced_missing_fields: Vec::new(),
    };
    let prose = err.prose_render();
    assert!(prose.contains("purpose"), "got: {prose}");
    assert!(prose.contains("scope"), "got: {prose}");
    assert!(prose.contains("one-sentence statement of intent"), "got: {prose}");
    assert!(prose.contains("specs are immutable once stable"), "got: {prose}");
    assert!(!prose.contains("see details"), "got: {prose}");
}

#[test]
fn error_prose_render_relationship_cycle_inlines_existing_path() {
    let path = vec![
        EntityId::canonical("specs--a"),
        EntityId::canonical("specs--b"),
        EntityId::canonical("specs--c"),
        EntityId::canonical("specs--a"),
    ];
    let err = EngineError::RelationshipCycle {
        rel_type: "PART_OF".to_string(),
        from: EntityId::canonical("specs--a"),
        to: EntityId::canonical("specs--c"),
        existing_path: path,
        path_truncated: false,
        acyclic_set: None,
        existing_path_rel_types: None,
    };
    let prose = err.prose_render();
    assert!(prose.contains("specs--a → specs--b → specs--c → specs--a"), "got: {prose}");
    assert!(!prose.contains("see details"), "got: {prose}");
}

#[test]
fn error_prose_render_falls_back_to_display_for_trivial_variants() {
    let err = EngineError::ReadOnlyMount("archive-2024".to_string());
    assert_eq!(err.prose_render(), err.to_text());
}

#[test]
fn error_invalid_wiki_link_details_carry_proposed_slug_for_title_case() {
    let err = EngineError::InvalidWikiLinkTarget {
        raw: "Idempotency".to_string(),
        suggested: Some("idempotency".to_string()),
        section: "purpose".to_string(),
        link_source: "body_link".to_string(),
        reason: "slugs must be lowercase".to_string(),
    };
    let d = err.details();
    assert_eq!(text_at(&d, "proposed_slug"), Some("idempotency"));
    assert_eq!(text_at(&d, "suggested"), Some("idempotency"));
}

#[test]
fn error_schema_not_found_details_carry_fixed_order_source_diagnostics() {
    let sources =
        SchemaSourceDiagnostic::for_failed_pin("default", "99.0.0", &Vec::new(), &catalogue());
    let err = EngineError::SchemaNotFound {
        mem: "specs".to_string(),
        pin: "default@99.0.0".to_string(),
        sources,
        install_hint: None,
    };
    assert_eq!(err.code(), "SCHEMA_NOT_FOUND");
    let d = err.details();
    assert_eq!(text_at(&d, "mem"), Some("specs"));
    assert_eq!(text_at(&d, "pin"), Some("default@99.0.0"));
    let src = d.get("sources").and_then(|s| s.items()).expect("sources is an array");
    let labels: Vec<&str> = src.iter().map(|s| text_at(s, "source").unwrap()).collect();
    assert_eq!(labels, ["local_storage", "builtin", "remote"]);
    let builtin = &src[1];
    assert!(
        texts_at(builtin, "versions_found").contains(&"1.0.0"),
        "builtin must enumerate default@1.0.0, got {builtin:?}",
    );
    assert!(matches!(builtin.get("pinned_version_match"), Some(Json::Bool(false))));
    assert_eq!(texts_at(&src[0], "versions_found").len(), 0);
    assert_eq!(text_at(&src[2], "status"), Some("not_configured"));
    assert!(
        src[2].get("versions_found").is_some(),
        "remote still ships an (empty) versions_found list",
    );
}

#[test]
fn error_invalid_wiki_link_colon_form_suggestion_is_not_a_proposed_slug() {
    let err = EngineError::InvalidWikiLinkTarget {
        raw: "team/sub--thing".to_string(),
        suggested: Some("team/sub:thing".to_string()),
        section: "purpose".to_string(),
        link_source: "body_link".to_string(),
        reason: "ambiguous".to_string(),
    };
    let d = err.details();
    assert!(
        matches!(d.get("proposed_slug"), None | Some(Json::Null)),
        "colon-form must not be a proposed_slug: {d:?}"
    );
    assert_eq!(text_at(&d, "suggested"), Some("team/sub:thing"));
}

#[test]
fn error_invalid_changes_cursor_code_and_details() {
    let sha = "deadbeefdeadbeefdeadbeefdeadbeefdeadbeef";
    let err = EngineError::InvalidChangesCursor {
        mem: "specs".to_string(),
        since: sha.to_string(),
    };
    assert_eq!(err.code(), "INVALID_CURSOR");
    let d = err.details();
    assert_eq!(text_at(&d, "mem"), Some("specs"));
    assert_eq!(text_at(&d, "since"), Some(sha), "the offending SHA must ride untruncated in details");
}

#[test]
fn inline_list_tests_empty_list_renders_empty_string() {
    let items: Vec<String> = Vec::new();
    assert_eq!(format_inline_list_overflow(&items, "x"), "");
}

#[test]
fn inline_list_tests_list_at_cap_renders_all_no_overflow_suffix() {
    let items = vec!["a".to_string(), "b".to_string(), "c".to_string()];
    assert_eq!(format_inline_list_overflow(&items, "x"), "a, b, c");
}

#[test]
fn inline_list_tests_list_under_cap_renders_all_no_overflow_suffix() {
    let items = vec!["a".to_string(), "b".to_string()];
    assert_eq!(format_inline_list_overflow(&items, "x"), "a, b");
}

#[test]
fn inline_list_tests_list_over_cap_appends_count_and_field_name() {
    let items: Vec<String> = (0..23).map(|i| format!("id{i}")).collect();
    let rendered = format_inline_list_overflow(&items, "referrers");
    assert_eq!(rendered, "id0, id1, id2 +20 more — see details.referrers");
}

#[test]
fn inline_list_tests_list_six_items_truncates_to_three_plus_three() {
    let items: Vec<String> = (0..6).map(|i| format!("t{i}")).collect();
    let rendered = format_inline_list_overflow(&items, "missing");
    assert_eq!(rendered, "t0, t1, t2 +3 more — see details.missing");
}

#[test]
fn inline_list_tests_has_incoming_refs_display_inlines_first_three_referrer_ids() {
    let referrers: Vec<ReferrerInfo> = (0..23)
        .map(|i| ReferrerInfo {
            from_id: format!("specs--ref{i}"),
            rel_types: vec!["USES".to_string()],
            mem: "specs".to_string(),
        })
        .collect();
    let err = EngineError::HasIncomingRefs { id: "specs--hub".to_string(), referrers };
    let s = err.to_text();
    assert!(s.contains("specs--ref0, specs--ref1, specs--ref2"), "got: {s}");
    assert!(s.contains("+20 more — see details.referrers"), "got: {s}");
    assert!(s.contains("23 incoming reference"), "got: {s}");
}

#[test]
fn inline_list_tests_wiki_link_without_relation_display_lists_all_when_under_cap() {
    let missing = vec![
        MissingWikiLink {
            section_key: "specifies".to_string(),
            target_id: "specs--a".to_string(),
        },
        MissingWikiLink {
            section_key: "specifies".to_string(),
            target_id: "specs--b".to_string(),
        },
        MissingWikiLink {
            section_key: "rationale".to_string(),
            target_id: "specs--c".to_string(),
        },
    ];
    let err = EngineError::WikiLinkWithoutRelation { from_id: "specs--src".to_string(), missing };
    let s = err.to_text();
    assert!(s.contains("specifies→specs--a"), "got: {s}");
    assert!(s.contains("specifies→specs--b"), "got: {s}");
    assert!(s.contains("rationale→specs--c"), "got: {s}");
    assert!(!s.contains("more — see details"), "got: {s}");
}

#[test]
fn inline_list_tests_wiki_link_without_relation_display_truncates_at_cap_with_pointer() {
    let missing: Vec<MissingWikiLink> = (0..6)
        .map(|i| MissingWikiLink {
            section_key: format!("s{i}"),
            target_id: format!("specs--t{i}"),
        })
        .collect();
    let err = EngineError::WikiLinkWithoutRelation { from_id: "specs--src".to_string(), missing };
    let s = err.to_text();
    assert!(s.contains("s0→specs--t0, s1→specs--t1, s2→specs--t2"), "got: {s}");
    assert!(s.contains("+3 more — see details.missing"), "got: {s}");
}

#[test]
fn inline_list_tests_relation_has_body_links_display_inlines_section_keys() {
    let err = EngineError::RelationHasBodyLinks {
        from_id: "specs--src".to_string(),
        to_id: "specs--dst".to_string(),
        rel_type: "USES".to_string(),
        body_links: vec!["specifies".to_string(), "rationale".to_string()],
    };
    let s = err.to_text();
    assert!(s.contains("specifies, rationale"), "got: {s}");
    assert!(!s.contains("more — see details"), "got: {s}");
}

#[test]
fn inline_list_tests_prose_render_has_incoming_refs_inlines_every_referrer() {
    let referrers = (0..7)
        .map(|i| ReferrerInfo {
            from_id: format!("specs--r{i}"),
            rel_types: vec!["DEPENDS_ON".to_string()],
            mem: "specs".to_string(),
        })
        .collect();
    let err = EngineError::HasIncomingRefs { id: "specs--target".to_string(), referrers };
    let prose = err.prose_render();
    for i in 0..7 {
        assert!(
            prose.contains(&format!("specs--r{i}")),
            "every referrer must appear inline; missing r{i} in: {prose}"
        );
    }
    assert!(!prose.contains("see details"), "got: {prose}");
    let display = err.to_text();
    assert!(display.contains("+4 more — see details.referrers"), "got: {display}");
}

#[test]
fn inline_list_tests_prose_render_required_field_unset_inlines_field_description_and_rules() {
    let err = EngineError::RequiredFieldUnset {
        field: "verified_on".to_string(),
        entity_type: "requirement".to_string(),
        field_description: Some("ISO-8601 date the requirement was last validated".to_string()),
        enum_values: vec![],
        type_write_rules: vec!["bump verified_on on every status change".to_string()],
        on_create: false,
        missing: Vec::new(),
    };
    let prose = err.prose_render();
    assert!(prose.contains("ISO-8601 date"), "field_description missing: {prose}");
    assert!(prose.contains("bump verified_on"), "type_write_rules missing: {prose}");
    assert!(!prose.contains("see details"), "got: {prose}");
    assert!(
        prose.contains("cannot unset"),
        "update-path wording must say 'cannot unset': {prose}"
    );
}

#[test]
fn inline_list_tests_prose_render_required_field_unset_create_path_uses_not_provided_wording() {
    let err = EngineError::RequiredFieldUnset {
        field: "verified_on".to_string(),
        entity_type: "requirement".to_string(),
        field_description: Some("ISO-8601 date the requirement was last validated".to_string()),
        enum_values: vec![],
        type_write_rules: vec![],
        on_create: true,
        missing: Vec::new(),
    };
    let prose = err.prose_render();
    assert!(
        prose.contains("not provided"),
        "create-path wording must say 'not provided': {prose}"
    );
    assert!(
        !prose.contains("cannot unset"),
        "create-path wording must NOT say 'cannot unset': {prose}"
    );
    let display = err.to_text();
    assert!(display.contains("not provided"), "the one line must match: {display}");
    assert!(!display.contains("cannot unset"), "the one line must match: {display}");
}

#[test]
fn inline_list_tests_details_required_field_unset_multi_field_envelope_shape() {
    let err = EngineError::RequiredFieldUnset {
        field: "decided_on".to_string(),
        entity_type: "decision".to_string(),
        field_description: Some("Date the decision was accepted. ISO YYYY-MM-DD.".to_string()),
        enum_values: vec![],
        type_write_rules: vec!["status transitions: proposed → accepted".to_string()],
        on_create: true,
        missing: vec![
            MissingRequiredField {
                entity_type: "decision".to_string(),
                key: "decided_on".to_string(),
                description: "Date the decision was accepted. ISO YYYY-MM-DD.".to_string(),
                enum_values: vec![],
            },
            MissingRequiredField {
                entity_type: "decision".to_string(),
                key: "deciders".to_string(),
                description: "Who made the call. Comma-separated handles.".to_string(),
                enum_values: vec![],
            },
        ],
    };
    let details = err.details();
    assert_eq!(text_at(&details, "field"), Some("decided_on"));
    let missing = details.get("missing").and_then(|m| m.items()).expect("missing[] array");
    assert_eq!(missing.len(), 2);
    assert_eq!(text_at(&missing[0], "field"), Some("decided_on"));
    assert_eq!(text_at(&missing[1], "field"), Some("deciders"));
    assert_eq!(text_at(&details, "field"), text_at(&missing[0], "field"));
    assert_eq!(texts_at(&missing[0], "write_rules"), texts_at(&details, "type_write_rules"));
    let prose = err.prose_render();
    assert!(prose.contains("decided_on"), "got: {prose}");
    assert!(prose.contains("deciders"), "got: {prose}");
}

#[test]
fn inline_list_tests_details_required_field_unset_singular_shape_for_unset_path() {
    let err = EngineError::RequiredFieldUnset {
        field: "decided_on".to_string(),
        entity_type: "decision".to_string(),
        field_description: Some("…".to_string()),
        enum_values: vec![],
        type_write_rules: vec![],
        on_create: false,
        missing: Vec::new(),
    };
    let details = err.details();
    assert_eq!(text_at(&details, "field"), Some("decided_on"));
    let missing = details.get("missing").and_then(|m| m.items()).expect("missing[] array present");
    assert!(missing.is_empty(), "unset-path missing[] must be empty");
    assert_eq!(err.code(), "REQUIRED_FIELD_UNSET");
}

#[test]
fn inline_list_tests_prose_render_missing_required_section_enumerates_each_section_with_write_rules() {
    let sections = vec![
        MissingRequiredSection {
            entity_type: "spec".to_string(),
            key: "purpose".to_string(),
            heading: "Purpose".to_string(),
            write_rules: vec!["one-sentence statement of intent".to_string()],
        },
        MissingRequiredSection {
            entity_type: "spec".to_string(),
            key: "scope".to_string(),
            heading: "Scope".to_string(),
            write_rules: vec!["what is in and out of scope".to_string()],
        },
    ];
    let err = EngineError::MissingRequiredSection {
        entity_type: "spec".to_string(),
        missing_count: 2,
        sections,
        type_guidance: vec![(
            "spec".to_string(),
            vec!["specs are immutable once stable".to_string()],
        )],
        pre_announced_missing_fields: Vec::new(),
    };
    let prose = err.prose_render();
    assert!(prose.contains("purpose"), "got: {prose}");
    assert!(prose.contains("scope"), "got: {prose}");
    assert!(prose.contains("one-sentence statement of intent"), "got: {prose}");
    assert!(prose.contains("specs are immutable once stable"), "got: {prose}");
    assert!(!prose.contains("see details"), "got: {prose}");
}

#[test]
fn inline_list_tests_prose_render_relationship_cycle_inlines_existing_path() {
    let path = vec![
        EntityId::canonical("specs--a"),
        EntityId::canonical("specs--b"),
        EntityId::canonical("specs--c"),
        EntityId::canonical("specs--a"),
    ];
    let err = EngineError::RelationshipCycle {
        rel_type: "PART_OF".to_string(),
        from: EntityId::canonical("specs--a"),
        to: EntityId::canonical("specs--c"),
        existing_path: path,
        path_truncated: false,
        acyclic_set: None,
        existing_path_rel_types: None,
    };
    let prose = err.prose_render();
    assert!(prose.contains("specs--a → specs--b → specs--c → specs--a"), "got: {prose}");
    assert!(!prose.contains("see details"), "got: {prose}");
}

#[test]
fn inline_list_tests_prose_render_falls_back_to_display_for_trivial_variants() {
    let err = EngineError::ReadOnlyMount("archive-2024".to_string());
    assert_eq!(err.prose_render(), err.to_text());
}

#[test]
fn plan05_subsystem_tests_invalid_wiki_link_details_carry_proposed_slug_for_title_case() {
    let err = EngineError::InvalidWikiLinkTarget {
        raw: "Idempotency".to_string(),
        suggested: Some("idempotency".to_string()),
        section: "purpose".to_string(),
        link_source: "body_link".to_string(),
        reason: "slugs must be lowercase".to_string(),
    };
    let d = err.details();
    assert_eq!(text_at(&d, "proposed_slug"), Some("idempotency"));
    assert_eq!(text_at(&d, "suggested"), Some("idempotency"));
}

#[test]
fn plan05_subsystem_tests_schema_not_found_details_carry_fixed_order_source_diagnostics() {
    let sources =
        SchemaSourceDiagnostic::for_failed_pin("default", "99.0.0", &Vec::new(), &catalogue());
    let err = EngineError::SchemaNotFound {
        mem: "specs".to_string(),
        pin: "default@99.0.0".to_string(),
        sources,
        install_hint: None,
    };
    assert_eq!(err.code(), "SCHEMA_NOT_FOUND");
    let d = err.details();
    assert_eq!(text_at(&d, "mem"), Some("specs"));
    assert_eq!(text_at(&d, "pin"), Some("default@99.0.0"));
    let src = d.get("sources").and_then(|s| s.items()).expect("sources is an array");
    let labels: Vec<&str> = src.iter().map(|s| text_at(s, "source").unwrap()).collect();
    assert_eq!(labels, ["local_storage", "builtin", "remote"]);
    let builtin = &src[1];
    assert!(
        texts_at(builtin, "versions_found").contains(&"1.0.0"),
        "builtin must enumerate default@1.0.0, got {builtin:?}",
    );
    assert!(matches!(builtin.get("pinned_version_match"), Some(Json::Bool(false))));
    assert_eq!(texts_at(&src[0], "versions_found").len(), 0);
    assert_eq!(text_at(&src[2], "status"), Some("not_configured"));
    assert!(
        src[2].get("versions_found").is_some(),
        "remote still ships an (empty) versions_found list",
    );
}

#[test]
fn plan05_subsystem_tests_invalid_wiki_link_colon_form_suggestion_is_not_a_proposed_slug() {
    let err = EngineError::InvalidWikiLinkTarget {
        raw: "team/sub--thing".to_string(),
        suggested: Some("team/sub:thing".to_string()),
        section: "purpose".to_string(),
        link_source: "body_link".to_string(),
        reason: "ambiguous".to_string(),
    };
    let d = err.details();
    assert!(
        matches!(d.get("proposed_slug"), None | Some(Json::Null)),
        "colon-form must not be a proposed_slug: {d:?}"
    );
    assert_eq!(text_at(&d, "suggested"), Some("team/sub:thing"));
}

#[test]
fn plan05_subsystem_tests_invalid_changes_cursor_code_and_details() {
    let sha = "deadbeefdeadbeefdeadbeefdeadbeefdeadbeef";
    let err = EngineError::InvalidChangesCursor {
        mem: "specs".to_string(),
        since: sha.to_string(),
    };
    assert_eq!(err.code(), "INVALID_CURSOR");
    let d = err.details();
    assert_eq!(text_at(&d, "mem"), Some("specs"));
    assert_eq!(text_at(&d, "since"), Some(sha), "the offending SHA must ride untruncated in details");
}

#[test]
fn already_exists_names_the_occupying_title_on_both_channels() {
    let err = EngineError::AlreadyExists {
        id: "muehle--bösenberg-grundstücks-gmbh-co-kg".to_string(),
        existing_title: "Bösenberg Grundstücks GmbH Co KG".to_string(),
        existing_is_stub: false,
    };
    assert!(
        err.to_text().contains("occupied by 'Bösenberg Grundstücks GmbH Co KG'"),
        "got: {}",
        err.to_text()
    );
    let details = err.details();
    assert_eq!(text_at(&details, "existing_title"), Some("Bösenberg Grundstücks GmbH Co KG"));
    assert!(matches!(details.get("existing_is_stub"), Some(Json::Bool(false))));
    assert_eq!(text_at(&details, "id"), Some("muehle--bösenberg-grundstücks-gmbh-co-kg"));
}

#[test]
fn already_exists_stub_occupant_never_renders_an_empty_title() {
    let titled = EngineError::AlreadyExists {
        id: "specs--x".to_string(),
        existing_title: "X".to_string(),
        existing_is_stub: true,
    };
    assert!(titled.to_text().contains("a stub titled 'X'"), "got: {}", titled.to_text());

    let untitled = EngineError::AlreadyExists {
        id: "specs--x".to_string(),
        existing_title: String::new(),
        existing_is_stub: true,
    };
    let msg = untitled.to_text();
    assert!(msg.contains("occupied by a stub"), "got: {msg}");
    assert!(!msg.contains("''"), "empty title must not render: {msg}");
}

#[test]
fn schema_not_found_message_summarises_trail_and_distinguishes_wrong_version() {
    let wrong_version = EngineError::SchemaNotFound {
        mem: "specs".to_string(),
        pin: "default@99.0.0".to_string(),
        sources: SchemaSourceDiagnostic::for_failed_pin(
            "default",
            "99.0.0",
            &Vec::new(),
            &catalogue(),
        ),
        install_hint: None,
    };
    let msg = wrong_version.to_text();
    assert!(msg.contains("searched local_storage"), "got: {msg}");
    assert!(msg.contains("builtin (holds"), "got: {msg}");
    assert!(msg.contains("remote (not_configured)"), "got: {msg}");
    assert!(
        msg.contains("the pinned version is wrong"),
        "wrong-version case must be named in the message: {msg}"
    );
    assert!(
        msg.contains("memstead mem set-schema specs default@1.3.0"),
        "wrong-version case ends in the concrete repin command: {msg}"
    );

    let never_installed = EngineError::SchemaNotFound {
        mem: "specs".to_string(),
        pin: "no-such-schema@1.0.0".to_string(),
        sources: SchemaSourceDiagnostic::for_failed_pin(
            "no-such-schema",
            "1.0.0",
            &Vec::new(),
            &catalogue(),
        ),
        install_hint: None,
    };
    let msg2 = never_installed.to_text();
    assert!(
        msg2.contains("nothing for \"no-such-schema\""),
        "never-installed case names the empty sources: {msg2}"
    );
    assert!(
        !msg2.contains("the pinned version is wrong"),
        "never-installed must NOT claim a version mismatch: {msg2}"
    );
    assert!(
        msg2.contains("memstead schema install <package-dir>"),
        "never-installed (no probe) still names the install path: {msg2}"
    );
    assert_ne!(msg, msg2, "the two failures are distinguishable");

    let internal = EngineError::SchemaNotFound {
        mem: "specs".to_string(),
        pin: "x@1.0.0".to_string(),
        sources: Vec::new(),
        install_hint: None,
    };
    assert_eq!(
        internal.to_text(),
        "mem specs: schema pin \"x@1.0.0\" did not resolve in any schema source",
    );
}

/// The hint attaches to a package of the pinned name while no source holds any
/// version of it; a version mismatch, an absent package and another error get
/// none.
#[test]
fn schema_install_probe_hints_only_for_uninstalled_authoring_package() {
    let package = "/workspace/recipe";
    let not_found = || EngineError::SchemaNotFound {
        mem: "specs".to_string(),
        pin: "recipe@0.1.0".to_string(),
        sources: SchemaSourceDiagnostic::for_failed_pin(
            "recipe",
            "0.1.0",
            &Vec::new(),
            &catalogue(),
        ),
        install_hint: None,
    };

    let hinted = not_found().with_schema_install_probe(Some(package));
    let msg = hinted.to_text();
    assert!(msg.contains("memstead schema install"), "hint must name the install command: {msg}");
    assert!(msg.contains("recipe"), "hint names the package: {msg}");
    let d = hinted.details();
    assert!(
        text_at(d.get("install_hint").unwrap(), "command")
            .unwrap()
            .starts_with("memstead schema install"),
        "details carry the hint: {d:?}"
    );

    let absent = not_found().with_schema_install_probe(None);
    let absent_msg = absent.to_text();
    assert!(
        absent_msg.contains("memstead schema install <package-dir>"),
        "generic install path when no package exists: {absent_msg}"
    );
    assert!(
        !absent_msg.contains(package),
        "no concrete package path when no package exists: {absent_msg}"
    );

    let mismatch = EngineError::SchemaNotFound {
        mem: "specs".to_string(),
        pin: "default@99.0.0".to_string(),
        sources: SchemaSourceDiagnostic::for_failed_pin(
            "default",
            "99.0.0",
            &Vec::new(),
            &catalogue(),
        ),
        install_hint: None,
    }
    .with_schema_install_probe(Some(package));
    let mismatch_msg = mismatch.to_text();
    assert!(
        !mismatch_msg.contains("schema install"),
        "version mismatch must not hint install: {mismatch_msg}"
    );
    assert!(
        mismatch_msg.contains("memstead mem set-schema specs default@1.3.0"),
        "version mismatch hints version repair instead: {mismatch_msg}"
    );

    let other =
        EngineError::UnknownMem("specs".to_string()).with_schema_install_probe(Some(package));
    assert_eq!(other.code(), "UNKNOWN_MEM");
}

/// What a source adds beyond the built-in versions is local, each version
/// once, ascending by precedence.
#[test]
fn failed_pin_sources_ascend_and_do_not_repeat() {
    let consulted = vec![
        schema("default", "2.10.0"),
        schema("default", "1.0.0"),
        schema("default", "2.9.0"),
        schema("default", "2.10.0"),
        schema("other", "7.0.0"),
    ];
    let ds = SchemaSourceDiagnostic::for_failed_pin("default", "2.9.0", &consulted, &catalogue());
    assert_eq!(ds[0].versions_found, vec!["2.9.0", "2.10.0"]);
    assert!(ds[0].pinned_version_match);
    assert_eq!(ds[1].versions_found, vec!["1.0.0", "1.2.0", "1.3.0"]);
    assert!(!ds[1].pinned_version_match);
    assert_eq!(ds[2].status, Some("not_configured"));
}

/// One value of every variant: its code, and that its payload is an object.
#[test]
fn every_error_has_its_code_and_an_object_for_details() {
    let s = |t: &str| t.to_string();
    let cases: Vec<(EngineError, &str)> = vec![
        (EngineError::DuplicateMem(s("a")), "DUPLICATE_MEM"),
        (EngineError::UnknownMem(s("a")), "UNKNOWN_MEM"),
        (EngineError::UnknownVault(s("a")), "UNKNOWN_VAULT"),
        (
            EngineError::MemQuarantined {
                mem: s("a"),
                reason_code: s("R"),
                reason_message: s("m"),
            },
            "MEM_QUARANTINED",
        ),
        (EngineError::ReadOnlyMount(s("a")), "READ_ONLY_MOUNT"),
        (
            EngineError::UnknownType {
                name: s("t"),
                schema_ref: s("d@1"),
                declared: vec![s("x")],
                suggestion: None,
            },
            "UNKNOWN_ENTITY_TYPE",
        ),
        (EngineError::InvalidTitle(SlugError { message: s("m") }), "INVALID_TITLE"),
        (EngineError::NotFound { id: s("a--b") }, "ENTITY_NOT_FOUND"),
        (
            EngineError::HashMismatch { id: s("a--b"), current: s("h"), is_stub: false },
            "HASH_MISMATCH",
        ),
        (
            EngineError::MemHasIncomingRefs { mem: s("a"), referrers: Vec::new() },
            "MEM_HAS_INCOMING_REFS",
        ),
        (
            EngineError::CrossMemLinkNotAllowed { from_mem: s("a"), to_mem: s("b") },
            "CROSS_MEM_LINK_NOT_ALLOWED",
        ),
        (
            EngineError::CrossMemTargetNotFound { target_id: s("b--x"), target_mem: s("b") },
            "CROSS_MEM_TARGET_NOT_FOUND",
        ),
        (
            EngineError::CrossMemEdgeNotDeclared {
                source_schema: s("a@1"),
                target_schema: s("b@1"),
                rel_type: s("USES"),
                from_id: s("a--x"),
                to_id: s("b--y"),
            },
            "CROSS_MEM_EDGE_NOT_DECLARED",
        ),
        (EngineError::RepairNotNeeded { id: s("a--x"), recovery: s("r") }, "REPAIR_NOT_NEEDED"),
        (EngineError::RenameNoOp { id: s("a--x"), new_title: s("X") }, "RENAME_NO_OP"),
        (EngineError::EmptyUpdate { id: s("a--x") }, "EMPTY_UPDATE"),
        (
            EngineError::RenameBlockedByCrossMemPolicy {
                from_mem: s("a"),
                blocked_referrers: vec![BlockedReferrer {
                    from_mem: s("b"),
                    to_mem: s("a"),
                    count: 1,
                }],
            },
            "RENAME_BLOCKED_BY_CROSS_MEM_POLICY",
        ),
        (
            EngineError::RenamePartialFailure {
                committed_mems: vec![s("a")],
                failed_mem: s("b"),
                failure_cause: s("c"),
            },
            "RENAME_PARTIAL_FAILURE",
        ),
        (EngineError::StubCannotRelate { id: s("a--x") }, "STUB_CANNOT_RELATE"),
        (EngineError::StubNotUpdatable { id: s("a--x") }, "STUB_NOT_UPDATABLE"),
        (EngineError::StubNotRenamable { id: s("a--x") }, "STUB_NOT_RENAMABLE"),
        (EngineError::InvalidEntityId { id: s("x"), reason: s("r") }, "INVALID_ENTITY_ID"),
        (
            EngineError::InvalidWikiLinkMem { raw: s("A:x"), section: s("p"), reason: s("r") },
            "INVALID_MEM_NAME",
        ),
        (
            EngineError::ConflictingSectionModes { section: s("p"), modes: vec![s("set")] },
            "CONFLICTING_SECTION_MODES",
        ),
        (EngineError::SetAndUnsetConflict { keys: vec![s("k")] }, "SET_AND_UNSET_CONFLICT"),
        (EngineError::PatchSectionEmpty { section: s("p") }, "PATCH_SECTION_EMPTY"),
        (
            EngineError::PatchOldNotFound {
                section: s("p"),
                current_content: s("c"),
                truncated: false,
            },
            "PATCH_OLD_NOT_FOUND",
        ),
        (EngineError::ParseAfterWrite(s("m")), "PARSE_ERROR"),
        (EngineError::Parse(ParseError { message: s("m") }), "PARSE_ERROR"),
        (EngineError::Backend(BackendError::Sealed), "MEM_ERROR"),
        (EngineError::SchemaResolverInit(s("m")), "SCHEMA_RESOLVER_INIT_FAILED"),
        (EngineError::Mem(s("m")), "MEM_ERROR"),
        (
            EngineError::MemNameCollision { name: s("a"), source_origin: s("o") },
            "MEM_NAME_COLLISION",
        ),
        (EngineError::InvalidInput(s("m")), "INVALID_INPUT"),
        (EngineError::UnknownRemote(s("origin")), "UNKNOWN_REMOTE"),
        (
            EngineError::LocalDivergence { mem: s("a"), remote_ref: s("r") },
            "LOCAL_DIVERGENCE",
        ),
        (EngineError::NonFastForward { mem: s("a"), remote: s("o") }, "NON_FAST_FORWARD"),
        (
            EngineError::LocalInvalidState { mem: s("a"), remote: s("o"), detail: s("d") },
            "LOCAL_INVALID_STATE",
        ),
        (
            EngineError::SchemaViolationInFetch {
                mem: s("a"),
                ref_name: s("r"),
                violations: vec![s("v")],
            },
            "SCHEMA_VIOLATION_IN_FETCH",
        ),
        (
            EngineError::PushedCommitsProtected {
                mem: s("a"),
                target_sha: s("t"),
                pushed_shas: vec![s("p")],
            },
            "PUSHED_COMMITS_PROTECTED",
        ),
        (EngineError::UnknownRef(s("r")), "UNKNOWN_REF"),
        (
            EngineError::RenameSimilarityOutOfRange {
                requested: s("1.5"),
                allowed_min: s("0.1"),
                allowed_max: s("1"),
            },
            "INVALID_INPUT",
        ),
        (
            EngineError::InvalidTimestampCursor { mem: s("a"), since: s("x") },
            "INVALID_CURSOR",
        ),
        (
            EngineError::MemConfigIncomplete { mem: s("a"), missing_fields: vec![s("version")] },
            "MEM_CONFIG_INCOMPLETE",
        ),
        (
            EngineError::MissingRequiredDescription {
                rel_type: s("USES"),
                from_id: s("a--x"),
                to_id: s("a--y"),
            },
            "MISSING_REQUIRED_DESCRIPTION",
        ),
        (
            EngineError::DescriptionNotPermitted {
                rel_type: s("USES"),
                from_id: s("a--x"),
                to_id: s("a--y"),
            },
            "DESCRIPTION_NOT_PERMITTED",
        ),
        (
            EngineError::RelationManualAuthoringForbidden {
                rel_type: s("USES"),
                from_id: s("a--x"),
                to_id: s("a--y"),
                guidance: s("g"),
            },
            "RELATION_MANUAL_AUTHORING_FORBIDDEN",
        ),
        (EngineError::SearchUnavailable, "SEARCH_UNAVAILABLE_IN_WASM"),
        (
            EngineError::MarkdownExportUnsupportedBackend {
                mem: s("a"),
                active_backend: s("archive"),
                supported_backends: vec![s("folder")],
            },
            "MARKDOWN_EXPORT_UNSUPPORTED_BACKEND",
        ),
        (EngineError::InvalidCheckFinding { reason: s("r") }, "INVALID_CHECK_FINDING"),
        (EngineError::CheckNotRecorded { reason: s("r") }, "CHECK_NOT_RECORDED"),
        (EngineError::NotConflicted { id: s("a--x") }, "NOT_CONFLICTED"),
        (
            EngineError::MergeConflictUnsupportedBackend { mem: s("a") },
            "CONFLICT_RESOLVE_UNSUPPORTED_BACKEND",
        ),
    ];
    for (err, code) in &cases {
        assert_eq!(err.code(), *code);
        assert!(matches!(err.details(), Json::Object(_)), "{code}");
        assert!(!err.to_text().is_empty(), "{code}");
    }
}

#[test]
fn a_validator_error_is_taken_as_it_is() {
    let err = EngineError::Validation(ValidationError {
        code: "ENUM_VALUE".to_string(),
        message: "bad".to_string(),
        details: Json::object().with("field", Json::text("status")),
        prose: "bad status".to_string(),
    });
    assert_eq!(err.code(), "ENUM_VALUE");
    assert_eq!(text_at(&err.details(), "field"), Some("status"));
    assert_eq!(err.prose_render(), "bad status");
}

/// With three items or fewer the one line already says all.
#[test]
fn short_lists_read_the_same_in_both_renderings() {
    let err = EngineError::RelationHasBodyLinks {
        from_id: "specs--src".to_string(),
        to_id: "specs--dst".to_string(),
        rel_type: "USES".to_string(),
        body_links: vec!["a".to_string(), "b".to_string(), "c".to_string()],
    };
    assert_eq!(err.to_text(), err.prose_render());
    assert_eq!(
        err.to_text(),
        "cannot remove USES specs--src → specs--dst: source body still contains wiki-link(s) to the target in section(s) a, b, c — drop them via memstead_update before removing the relation"
    );
}

#[test]
fn blocked_referrers_count_in_words() {
    let one = BlockedReferrer { from_mem: "a".into(), to_mem: "b".into(), count: 1 };
    let two = BlockedReferrer { from_mem: "a".into(), to_mem: "b".into(), count: 2 };
    assert_eq!(one.to_text(), "a → b (1 referrer)");
    assert_eq!(two.to_text(), "a → b (2 referrers)");
}

#[test]
fn a_referrer_with_more_edges_names_them() {
    let r = ReferrerInfo {
        from_id: "specs--a".to_string(),
        rel_types: vec!["USES".to_string(), "PART_OF".to_string()],
        mem: "specs".to_string(),
    };
    assert_eq!(r.to_text(), "specs--a ×2 [USES, PART_OF]");
}

#[test]
fn boot_archive_and_watch_errors_say_what_failed() {
    assert_eq!(
        BootError::NotInitialised("/w".to_string()).to_text(),
        "workspace at /w is not initialised — run `memstead mem-repo init` first"
    );
    assert_eq!(BootError::Store("s".to_string()).to_text(), "s");
    assert_eq!(BootError::Instantiate("i".to_string()).to_text(), "i");
    let inner = EngineError::DuplicateMem("a".to_string());
    let said = inner.to_text();
    assert_eq!(BootError::Engine(inner).to_text(), said);

    assert_eq!(
        FromArchiveBytesError::Validation(ArchiveValidationError {
            code: "NOT_A_ZIP".to_string(),
            message: "no zip".to_string(),
        })
        .to_text(),
        "archive validation: no zip"
    );
    assert_eq!(
        FromArchiveBytesError::InvalidConfig("c".to_string()).to_text(),
        "invalid published config: c"
    );
    assert_eq!(
        FromArchiveBytesError::UnsupportedFormat { declared: 99, accepted: vec![1, 2] }.to_text(),
        "unsupported archive format 99 — this engine accepts formats [1, 2]; re-export the mem with a current engine or upgrade this one"
    );
    assert_eq!(
        FromArchiveBytesError::EmbeddedSchemaInvalid("e".to_string()).to_text(),
        "embedded schema failed to load: e"
    );
    assert_eq!(
        FileWatcherError::RefsHeadsMissing("/g/refs/heads".to_string()).to_text(),
        "refs/heads directory not found under gitdir: /g/refs/heads"
    );
    assert_eq!(FileWatcherError::Notify("n".to_string()).to_text(), "notify error: n");
    assert_eq!(
        FileWatcherError::Io("i".to_string()).to_text(),
        "io error reading initial refs/heads state: i"
    );
}

#[test]
fn an_out_of_range_similarity_names_itself_and_the_range() {
    let err = EngineError::RenameSimilarityOutOfRange {
        requested: "1.5".to_string(),
        allowed_min: "0.5".to_string(),
        allowed_max: "1.0".to_string(),
    };
    let details = err.details();
    assert!(matches!(details.get("requested"), Some(Json::Decimal(n)) if n == "1.5"));
    match details.get("allowed_range") {
        Some(Json::List(ends)) => {
            assert_eq!(ends.len(), 2);
            assert!(matches!(&ends[0], Json::Decimal(n) if n == "0.5"));
            assert!(matches!(&ends[1], Json::Decimal(n) if n == "1.0"));
        }
        other => panic!("expected a list, got {other:?}"),
    }
}

/// The prose of an error leaves nothing to the structured payload.
#[test]
fn prose_carries_the_whole_payload() {
    let blocked = EngineError::RenameBlockedByCrossMemPolicy {
        from_mem: "a".to_string(),
        blocked_referrers: ["b", "c", "d", "e"]
            .iter()
            .map(|m| BlockedReferrer {
                from_mem: m.to_string(),
                to_mem: "a".to_string(),
                count: 1,
            })
            .collect(),
    };
    let prose = blocked.prose_render();
    for m in ["b", "c", "d", "e"] {
        assert!(prose.contains(&format!("{m} → a (1 referrer)")), "{prose}");
    }
    assert!(!prose.contains("see details"), "{prose}");
    assert!(blocked.to_text().contains("+1 more — see details.blocked_referrers"));

    let violations = EngineError::SchemaViolationInFetch {
        mem: "a".to_string(),
        ref_name: "refs/remotes/o/a".to_string(),
        violations: vec!["x.md: one".to_string(), "y.md: two".to_string()],
    };
    assert!(violations.prose_render().ends_with(": x.md: one; y.md: two"));

    let patch = EngineError::PatchOldNotFound {
        section: "identity".to_string(),
        current_content: "as it is".to_string(),
        truncated: true,
    };
    assert_eq!(patch.prose_render(), "patch `old` substring not found in identity");

    let missing = EngineError::MissingRequiredSection {
        entity_type: "spec".to_string(),
        missing_count: 0,
        sections: Vec::new(),
        type_guidance: Vec::new(),
        pre_announced_missing_fields: vec![
            MissingRequiredField {
                entity_type: "spec".to_string(),
                key: "level".to_string(),
                description: String::new(),
                enum_values: Vec::new(),
            },
            MissingRequiredField {
                entity_type: "spec".to_string(),
                key: "owner".to_string(),
                description: String::new(),
                enum_values: Vec::new(),
            },
        ],
    };
    assert!(missing.prose_render().ends_with("still unset: level, owner"));
}
