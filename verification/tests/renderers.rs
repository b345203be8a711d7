//! Text-level behaviour: links, escaping, conflict sides, due windows and the
//! text pieces under them.

use memstead_base::conflicts::{
    extract_conflict_side, has_merge_conflict_markers, plan_resolution, ConflictSide,
};
use memstead_base::drift::looks_like_write_id;
use memstead_base::due::{
    civil_from_days_pub, days_from_civil, last_day_of_month, parse_due_window, window_end,
    DueWindow,
};
use memstead_base::entity::EntityId;
use memstead_base::error::EngineError;
use memstead_base::export_html::{
    esc, link_dest_allowed, markdown_to_safe_html, percent_decode, resolve_wiki_links,
};
use memstead_base::export_llms_txt::{entity_md_link, linkify_wikilinks, strip_frontmatter};
use memstead_base::markdown::mask_code_blocks_and_spans;
use memstead_base::ops::SourceEntry;

// -- wiki-links in HTML ----------------------------------------------------

#[test]
fn wiki_link_resolution_leaves_code_verbatim() {
    let exported = vec!["m--real".to_string()];
    for body in [
        "```\n[[m--real]]\n```",
        "~~~\n[[m--real]]\n~~~",
        "    [[m--real]]",
        "> ```\n> [[m--real]]\n> ```",
        "An inline `[[m--real]]` sample.",
        "A double ``[[m--real]]`` sample.",
    ] {
        assert_eq!(
            resolve_wiki_links(body, "m", &exported),
            body,
            "code content must survive byte-identical: {body:?}"
        );
    }
}

#[test]
fn wiki_link_resolution_does_not_mark_code_as_unresolved() {
    let body = "```\n[[m--ghost]]\n```\n\n    [[m--other-ghost]]\n";
    assert_eq!(resolve_wiki_links(body, "m", &Vec::new()), body);
}

#[test]
fn wiki_link_resolution_still_rewrites_prose() {
    let exported = vec!["m--real".to_string()];
    let body =
        "See [[m--real]].\n\n```\n[[m--real]]\n```\n\nAnd [[m--ghost]] and [[other--thing]].\n";
    let out = resolve_wiki_links(body, "m", &exported);
    assert!(out.contains("[m--real](#m--real)"), "{out}");
    assert!(out.contains("m--ghost *(unresolved)*"), "{out}");
    assert!(out.contains("other--thing *(other mem)*"), "{out}");
    assert!(out.contains("```\n[[m--real]]\n```"), "code untouched: {out}");
}

#[test]
fn wiki_link_resolution_passes_through_an_unterminated_open() {
    let body = "text [[not-closed and more text after\n";
    assert_eq!(resolve_wiki_links(body, "m", &Vec::new()), body);
}

// -- wiki-links in plain text documents ------------------------------------

fn titles() -> Vec<(String, String)> {
    vec![
        ("engine--mem".to_string(), "Mem".to_string()),
        ("flagship--mem".to_string(), "Mem".to_string()),
        ("engine--pipeline".to_string(), "Pipeline".to_string()),
    ]
}

#[test]
fn wiki_links_resolve_in_three_passes_and_never_guess() {
    let t = titles();

    assert_eq!(
        linkify_wikilinks("See [[engine--pipeline]].".to_string(), &t, "", "engine"),
        "See [Pipeline](entity/engine--pipeline)."
    );

    assert_eq!(
        linkify_wikilinks("A [[mem]].".to_string(), &t, "", "engine"),
        "A [Mem](entity/engine--mem)."
    );
    assert_eq!(
        linkify_wikilinks("A [[mem]].".to_string(), &t, "", "flagship"),
        "A [Mem](entity/flagship--mem)."
    );

    assert_eq!(
        linkify_wikilinks("A [[pipeline]].".to_string(), &t, "", "flagship"),
        "A [Pipeline](entity/engine--pipeline)."
    );

    assert_eq!(
        linkify_wikilinks("A [[mem]].".to_string(), &t, "", "plugin"),
        "A mem.",
        "an ambiguous foreign slug degrades to plain text, never a guess"
    );
}

#[test]
fn only_two_link_forms_are_emitted() {
    let t = titles();
    let rel = linkify_wikilinks("[[engine--mem]]".to_string(), &t, "", "engine");
    assert_eq!(rel, "[Mem](entity/engine--mem)");
    assert!(!rel.contains("(/entity/"), "never root-relative: {rel}");

    let abs =
        linkify_wikilinks("[[engine--mem]]".to_string(), &t, "https://example.com", "engine");
    assert_eq!(abs, "[Mem](https://example.com/entity/engine--mem)");
}

#[test]
fn bracketed_titles_cannot_break_the_link() {
    let t = vec![("m--x".to_string(), "A [bracketed] title".to_string())];
    assert_eq!(
        linkify_wikilinks("[[m--x]]".to_string(), &t, "", "m"),
        "[A (bracketed) title](entity/m--x)"
    );
}

#[test]
fn code_spans_and_fences_are_never_rewritten() {
    let t = titles();
    let body = "Prose [[engine--mem]] resolves.\n\n\
         Inline `[[engine--mem]]` does not.\n\n\
         ```\n[[engine--mem]]\n```\n";
    let out = linkify_wikilinks(body.to_string(), &t, "", "engine");

    assert!(
        out.contains("Prose [Mem](entity/engine--mem) resolves."),
        "prose still resolves: {out}"
    );
    assert!(
        out.contains("Inline `[[engine--mem]]` does not."),
        "an inline code span is left alone: {out}"
    );
    assert!(
        out.contains("```\n[[engine--mem]]\n```"),
        "a fenced block is left alone: {out}"
    );
}

#[test]
fn alias_and_anchor_wiki_link_forms_resolve() {
    let t = titles();

    assert_eq!(
        linkify_wikilinks("See [[engine--mem|the mem]].".to_string(), &t, "", "engine"),
        "See [the mem](entity/engine--mem)."
    );
    assert_eq!(
        linkify_wikilinks("See [[engine--mem#Identity]].".to_string(), &t, "", "engine"),
        "See [Mem](entity/engine--mem)."
    );
    assert_eq!(
        linkify_wikilinks("See [[mem#Identity|here]].".to_string(), &t, "", "engine"),
        "See [here](entity/engine--mem)."
    );
    assert_eq!(
        linkify_wikilinks("See [[ghost|that thing]].".to_string(), &t, "", "engine"),
        "See that thing."
    );
}

#[test]
fn an_unresolvable_reference_degrades_to_plain_text() {
    let t = titles();
    assert_eq!(
        linkify_wikilinks("See [[ghost]].".to_string(), &t, "", "engine"),
        "See ghost."
    );
    assert_eq!(
        linkify_wikilinks("- **USES**: [[engine--phantom]]".to_string(), &t, "", "engine"),
        "- **USES**: engine--phantom"
    );
}

#[test]
fn frontmatter_is_stripped_only_when_present() {
    assert_eq!(
        strip_frontmatter("---\ntype: spec\n---\n\n# Title\n\nBody."),
        "# Title\n\nBody."
    );
    assert_eq!(strip_frontmatter("# Title\n\nBody."), "# Title\n\nBody.");
    assert_eq!(strip_frontmatter("---\nno close"), "---\nno close");
}

#[test]
fn a_link_names_its_entity_under_both_bases() {
    assert_eq!(entity_md_link("", "m--x", "X"), "[X](entity/m--x)");
    assert_eq!(entity_md_link("https://h", "m--x", "X"), "[X](https://h/entity/m--x)");
}

// -- escaping and sanitising -----------------------------------------------

#[test]
fn escaping_leaves_nothing_that_opens_markup() {
    let out = esc("<a href=\"x\">&'");
    assert!(!out.contains('<') && !out.contains('>') && !out.contains('"'));
    assert!(out.starts_with("&lt;a href="));
    assert_eq!(esc("plain"), "plain");
}

#[test]
fn percent_decoding_takes_only_whole_escapes() {
    assert_eq!(percent_decode("a%20b"), "a b");
    assert_eq!(percent_decode("%C3%BC"), "ü");
    assert_eq!(percent_decode("100%"), "100%");
    assert_eq!(percent_decode("%zz"), "%zz");
    assert_eq!(percent_decode("%ff"), "\u{fffd}");
}

#[test]
fn only_known_fragments_and_safe_schemes_are_linked() {
    let ids = vec!["m--x".to_string(), "m--ü".to_string()];
    assert!(link_dest_allowed("#m--x", &ids));
    assert!(link_dest_allowed("#m--%C3%BC", &ids));
    assert!(!link_dest_allowed("#nowhere", &ids));
    assert!(link_dest_allowed("https://example.org", &ids));
    assert!(!link_dest_allowed("javascript:alert(1)", &ids));
    assert!(!link_dest_allowed("JavaScript:alert(1)", &ids));
}

/// An autolink inside a link's text is put to the same test as any link, and
/// each end closes its own link.
#[test]
fn a_link_inside_a_link_is_tested_too() {
    let none: Vec<String> = Vec::new();
    assert_eq!(
        markdown_to_safe_html("[click <javascript:alert(1)> x](y)", &none),
        "<p>click javascript:alert(1) (javascript:alert(1) — link removed) x \
(y — link removed)</p>\n"
    );
    let kept = markdown_to_safe_html("[a <https://example.org/> b](y) [c](javascript:d)", &none);
    assert!(kept.contains("<a href=\"https://example.org/\">https://example.org/</a> b"), "{kept}");
    assert!(kept.ends_with("(y — link removed) c (javascript:d — link removed)</p>\n"), "{kept}");
    let outer = markdown_to_safe_html("[a <javascript:b> c](https://example.org/)", &none);
    assert!(!outer.contains("href=\"javascript:"), "{outer}");
    assert!(outer.contains("(javascript:b — link removed) c</a>"), "{outer}");
}

#[test]
fn rendered_markdown_carries_no_markup_of_its_source() {
    let ids = vec!["m--x".to_string()];
    let html = markdown_to_safe_html(
        "See <script>x</script> ![d](https://e/x.png) [go](#m--x) [bad](javascript:1) **b**",
        &ids,
    );
    assert!(!html.contains("<script>"), "{html}");
    assert!(html.contains("&lt;script&gt;"), "{html}");
    assert!(!html.contains("<img"), "{html}");
    assert!(html.contains("<a href=\"#m--x\">go</a>"), "{html}");
    assert!(!html.contains("href=\"javascript:"), "{html}");
    assert!(html.contains("<strong>b</strong>"), "{html}");
}

#[test]
fn the_code_mask_keeps_the_length_and_hides_code() {
    let body = "a `b` c\n\n```\nd\n```\n";
    let mask = mask_code_blocks_and_spans(body);
    assert_eq!(mask.len(), body.chars().count());
    assert_eq!(mask[0], 'a');
    assert_ne!(mask[3], 'b');
}

// -- conflicts -------------------------------------------------------------

const CONFLICTED: &str = "---\ntype: spec\n---\n# Torn\n\n## Identity\n\n\
<<<<<<< HEAD\nours line\n||||||| base\nbase line\n=======\ntheirs line\n\
>>>>>>> feature\n\n## Purpose\n\nshared tail\n";

#[test]
fn extract_sides_and_diff3_base_drops() {
    let ours = extract_conflict_side(CONFLICTED, ConflictSide::Ours).unwrap();
    assert!(ours.contains("ours line"));
    assert!(!ours.contains("theirs line") && !ours.contains("base line"));
    assert!(ours.contains("shared tail"));
    let theirs = extract_conflict_side(CONFLICTED, ConflictSide::Theirs).unwrap();
    assert!(theirs.contains("theirs line"));
    assert!(!theirs.contains("ours line") && !theirs.contains("base line"));
    assert!(!theirs.contains("<<<<<<<") && !theirs.contains(">>>>>>>"));
}

#[test]
fn malformed_markers_refuse() {
    let unterminated = "a\n<<<<<<< HEAD\nours\n=======\ntheirs\n";
    assert!(extract_conflict_side(unterminated, ConflictSide::Ours).is_err());
    let inverted = "a\n<<<<<<< HEAD\nours\n>>>>>>> feature\n";
    assert!(extract_conflict_side(inverted, ConflictSide::Ours).is_err());
}

/// A text gives both sides or neither; each is the text without some lines,
/// and holds every line outside conflicts.
#[test]
fn both_sides_stand_or_fall_together() {
    for side in [ConflictSide::Ours, ConflictSide::Theirs] {
        let kept = extract_conflict_side(CONFLICTED, side).unwrap();
        let mut rest = CONFLICTED.lines();
        assert!(kept.lines().all(|line| rest.any(|l| l == line)), "{kept}");
        for line in ["# Torn", "## Identity", "## Purpose", "shared tail"] {
            assert!(kept.lines().any(|l| l == line), "{kept}");
        }
    }
    let unterminated = "a\n<<<<<<< HEAD\nours\n=======\ntheirs\n";
    assert_eq!(
        extract_conflict_side(unterminated, ConflictSide::Ours),
        extract_conflict_side(unterminated, ConflictSide::Theirs)
    );
}

/// Which entity a link leads to does not depend on the order of the list.
#[test]
fn links_do_not_depend_on_the_order_of_the_list() {
    let mut titles = vec![
        ("engine--mem".to_string(), "Mem of the engine".to_string()),
        ("flagship--mem".to_string(), "Mem of the flagship".to_string()),
        ("engine--pipeline".to_string(), "Pipeline".to_string()),
    ];
    let body = "A [[mem]], [[pipeline]] and [[nowhere]].";
    let text = linkify_wikilinks(body.to_string(), &titles, "", "flagship");
    assert!(text.contains("Mem of the flagship"), "{text}");
    titles.reverse();
    assert_eq!(linkify_wikilinks(body.to_string(), &titles, "", "flagship"), text);
}

#[test]
fn without_markers_both_sides_are_the_file() {
    let body = "# A\n\ntext\n";
    assert_eq!(extract_conflict_side(body, ConflictSide::Ours).unwrap(), body);
    assert_eq!(extract_conflict_side(body, ConflictSide::Theirs).unwrap(), body);
    assert!(!has_merge_conflict_markers(body));
    assert!(has_merge_conflict_markers(CONFLICTED));
}

#[test]
fn sides_are_named_on_the_wire() {
    assert_eq!(ConflictSide::from_wire("ours"), Some(ConflictSide::Ours));
    assert_eq!(ConflictSide::from_wire("theirs"), Some(ConflictSide::Theirs));
    assert_eq!(ConflictSide::from_wire("Ours"), None);
    assert_eq!(ConflictSide::Theirs.as_wire(), "theirs");
}

#[test]
fn a_plan_names_the_file_and_what_it_will_hold() {
    let files = vec![
        SourceEntry { relative_path: "fine.md".to_string(), content: "# Fine\n".to_string() },
        SourceEntry { relative_path: "torn.md".to_string(), content: CONFLICTED.to_string() },
    ];
    let (path, content) =
        plan_resolution(&files, "specs", &EntityId::new("specs", "torn"), ConflictSide::Ours)
            .unwrap();
    assert_eq!(path, "torn.md");
    assert!(content.contains("ours line") && !content.contains("<<<<<<<"));
    let clean =
        plan_resolution(&files, "specs", &EntityId::new("specs", "fine"), ConflictSide::Ours);
    assert!(matches!(clean, Err(EngineError::NotConflicted { .. })));
    let absent =
        plan_resolution(&files, "specs", &EntityId::new("specs", "no"), ConflictSide::Ours);
    assert!(matches!(absent, Err(EngineError::NotFound { .. })));
}

// -- due windows -----------------------------------------------------------

#[test]
fn window_parse_and_calendar_math() {
    assert_eq!(parse_due_window("90d").unwrap(), DueWindow::Days(90));
    assert_eq!(parse_due_window("6m").unwrap(), DueWindow::Months(6));
    assert_eq!(parse_due_window("2y").unwrap(), DueWindow::Years(2));
    for bad in ["", "d", "90", "90w", "-1d", "1.5m"] {
        let err = parse_due_window(bad).unwrap_err();
        assert!(err.contains("<N>d"), "error names accepted forms: {err}");
    }
    assert_eq!(window_end((2026, 1, 31), &DueWindow::Months(1)), "2026-02-28");
    assert_eq!(window_end((2024, 1, 31), &DueWindow::Months(1)), "2024-02-29");
    assert_eq!(window_end((2026, 8, 10), &DueWindow::Days(90)), "2026-11-08");
    assert_eq!(window_end((2026, 11, 15), &DueWindow::Months(2)), "2027-01-15");
    assert_eq!(window_end((2024, 2, 29), &DueWindow::Years(1)), "2025-02-28");
}

#[test]
fn a_window_without_a_unit_is_refused() {
    for bad in ["5€", "€", "90 d", "d90"] {
        assert!(parse_due_window(bad).unwrap_err().contains("<N>d"));
    }
}

#[test]
fn days_and_dates_lead_back_to_each_other() {
    assert_eq!(days_from_civil(1970, 1, 1), 0);
    assert_eq!(days_from_civil(2000, 3, 1), 11017);
    assert_eq!(civil_from_days_pub(11017), (2000, 3, 1));
    for day in [-719_468i64, -1, 0, 59, 60, 365, 11_016, 20_000, 1_000_000] {
        let (y, m, d) = civil_from_days_pub(day);
        assert_eq!(days_from_civil(y, m, d), day);
    }
    assert_eq!(last_day_of_month(1900, 2), 28);
    assert_eq!(last_day_of_month(2000, 2), 29);
    assert_eq!(last_day_of_month(2026, 11), 30);
}

#[test]
fn a_write_id_is_told_from_a_timestamp() {
    let token = format!("{:032x}{:016x}", 1_766_000_000_000_000_000u128, 7u64);
    assert!(looks_like_write_id(&token));
    assert!(!looks_like_write_id("2026-01-01T00:00:00Z"));
    assert!(!looks_like_write_id(""));
    assert!(!looks_like_write_id(&token.to_uppercase().replace('0', "A")));
}
