use meeting_export::blocknote::{blocknote_to_markdown, render_blocks, render_table};
use meeting_export::document::{
    build_meeting_markdown, format_datetime, format_offset, render_export,
    render_meeting_markdown, shown_datetime, ExportOptions, MeetingExportData, TranscriptLine,
};
use meeting_export::filename::{
    filename_slug, filename_with_created_date, filename_with_date, suggest_filename,
};
use meeting_export::inline::apply_styles;
use meeting_export::json::JsonValue;
use meeting_export::summary::{legacy_sections_to_markdown, summary_to_markdown};
use meeting_export::text::{trimmed, trimmed_end};
use meeting_export::stored::stored_summary;

fn json(text: &str) -> JsonValue {
    stored_summary(Some(text)).unwrap().unwrap()
}

fn blocks(text: &str) -> Vec<JsonValue> {
    match json(text) {
        JsonValue::Array(items) => items,
        _ => panic!("not an array"),
    }
}

fn text_line(text: &str, offset: Option<u64>, speaker: Option<&str>) -> TranscriptLine {
    TranscriptLine {
        text: text.to_string(),
        timestamp: " 10:00:00 ".to_string(),
        audio_start_time: offset,
        speaker: speaker.map(str::to_string),
    }
}

fn standup(summary: Option<JsonValue>, transcripts: Vec<TranscriptLine>) -> MeetingExportData {
    MeetingExportData {
        id: "m-1".to_string(),
        title: "  Weekly Sync ".to_string(),
        created_at: "not a date".to_string(),
        summary,
        transcripts,
    }
}

fn nothing() -> ExportOptions {
    ExportOptions {
        include_metadata: false,
        include_summary: false,
        include_transcript: false,
        include_timestamps: false,
        include_speakers: false,
    }
}

#[test]
fn default_options_include_everything() {
    let o = ExportOptions::default();
    assert!(o.include_metadata && o.include_summary && o.include_transcript);
    assert!(o.include_timestamps && o.include_speakers);
}

#[test]
fn renders_the_whole_document_exactly() {
    let data = standup(
        Some(json(r###"{ "markdown": "  Decided things.  " }"###)),
        vec![
            text_line("Hi all.", Some(3725), Some(" mic ")),
            text_line("  ", Some(1), Some("mic")),
            text_line("Old one.", None, Some("  ")),
        ],
    );
    let doc = render_meeting_markdown(&data, &ExportOptions::default(), "DATE", "NOW");
    assert_eq!(
        doc,
        "# Weekly Sync\n\n\
         - **Date:** DATE\n\
         - **Meeting ID:** `m-1`\n\
         - **Segments:** 3\n\
         - **Exported:** NOW\n\n\
         ---\n\n## Summary\n\nDecided things.\n\n\
         ---\n\n## Transcript\n\n\
         **[01:02:05]** **Microphone:** Hi all.\n\n\
         **10:00:00** Old one.\n"
    );
}

#[test]
fn a_document_with_nothing_selected_is_its_title_line() {
    let data = standup(None, vec![text_line("x", None, None)]);
    assert_eq!(build_meeting_markdown(&data, &nothing()), "# Weekly Sync\n");
}

#[test]
fn segment_count_is_left_out_without_transcripts() {
    let data = standup(None, vec![]);
    let doc = render_meeting_markdown(&data, &ExportOptions::default(), "D", "E");
    assert_eq!(
        doc,
        "# Weekly Sync\n\n- **Date:** D\n- **Meeting ID:** `m-1`\n- **Exported:** E\n"
    );
}

#[test]
fn turning_the_summary_off_matches_a_meeting_without_one() {
    let with = standup(
        Some(json(r###"{ "markdown": "Body." }"###)),
        vec![text_line("Words.", Some(5), None)],
    );
    let without = standup(None, vec![text_line("Words.", Some(5), None)]);
    let options = ExportOptions {
        include_summary: false,
        ..Default::default()
    };
    assert_eq!(
        render_meeting_markdown(&with, &options, "D", "E"),
        render_meeting_markdown(&without, &options, "D", "E")
    );
}

#[test]
fn bare_lines_are_just_their_text() {
    let data = standup(None, vec![text_line("  Spoken.  ", Some(7), Some("system"))]);
    let options = ExportOptions {
        include_metadata: false,
        include_timestamps: false,
        include_speakers: false,
        ..Default::default()
    };
    assert_eq!(
        build_meeting_markdown(&data, &options),
        "# Weekly Sync\n\n---\n\n## Transcript\n\nSpoken.\n"
    );
}

#[test]
fn unicode_whitespace_is_trimmed() {
    assert_eq!(trimmed("\u{3000}\tPlan\u{2003} \n"), "Plan");
    assert_eq!(trimmed_end("  a b \u{a0}\n"), "  a b");
    assert_eq!(trimmed("   "), "");
}

#[test]
fn offsets_are_zero_padded() {
    assert_eq!(format_offset(0), "[00:00]");
    assert_eq!(format_offset(59), "[00:59]");
    assert_eq!(format_offset(3599), "[59:59]");
    assert_eq!(format_offset(3600), "[01:00:00]");
    assert_eq!(format_offset(360000), "[100:00:00]");
}

#[test]
fn unparseable_dates_are_shown_raw() {
    assert_eq!(format_datetime("yesterday"), "yesterday");
    let shown = format_datetime("2026-08-01T09:30:00Z");
    assert_ne!(shown, "2026-08-01T09:30:00Z");
    assert_eq!(shown.len(), "2026-08-01 09:30".len());
}

#[test]
fn summary_text_is_trimmed() {
    let result = json(r###"{ "markdown": "\n  ## Notes  \n\n" }"###);
    assert_eq!(summary_to_markdown(&result).unwrap(), "## Notes");
}

#[test]
fn non_objects_have_no_summary() {
    assert!(summary_to_markdown(&json("[1, 2]")).is_none());
    assert!(summary_to_markdown(&json(r###""text""###)).is_none());
}

#[test]
fn reserved_keys_never_render_as_sections() {
    let result = json(
        r###"{
            "MeetingName": { "title": "Name", "blocks": [{ "content": "hidden" }] },
            "english_cache": { "blocks": [{ "content": "hidden" }] }
        }"###,
    );
    assert_eq!(legacy_sections_to_markdown(&result), "");
    assert!(summary_to_markdown(&result).is_none());
}

#[test]
fn legacy_sections_follow_the_object_order_without_an_explicit_one() {
    let result = json(
        r###"{
            "Zeta": { "title": "  ", "blocks": [
                { "type": "heading1", "content": "Top" },
                { "type": "bullet", "content": "one" },
                { "type": "heading2", "content": " Sub " },
                { "type": "bullet", "content": "two" },
                { "content": "plain" }
            ] },
            "Alpha": { "title": "First", "blocks": [{ "type": "text", "content": "  " }] },
            "Beta": { "title": "Second", "blocks": [{ "type": "bullet", "content": "only" }] }
        }"###,
    );
    // serde_json keeps object keys sorted, so Beta comes before Zeta; Alpha is blank.
    assert_eq!(
        legacy_sections_to_markdown(&result),
        "## Second\n\n- only\n\n## Zeta\n\n### Top\n\n- one\n\n#### Sub\n\n- two\n\nplain\n\n"
    );
}

#[test]
fn numbered_lists_count_from_one_and_restart() {
    let rendered = blocknote_to_markdown(&blocks(
        r###"[
            { "type": "numberedListItem", "content": "a" },
            { "type": "numberedListItem", "content": "b" },
            { "type": "paragraph", "content": "between" },
            { "type": "numberedListItem", "content": "c" }
        ]"###,
    ));
    assert_eq!(rendered, "1. a\n2. b\n\nbetween\n\n1. c\n\n");
}

#[test]
fn heading_levels_are_clamped() {
    let rendered = blocknote_to_markdown(&blocks(
        r###"[
            { "type": "heading", "props": { "level": 9 }, "content": "Deep" },
            { "type": "heading", "props": { "level": 0 }, "content": "Zero" },
            { "type": "heading", "props": { "level": -2 }, "content": "Negative" },
            { "type": "heading", "content": "" },
            { "type": "quote", "content": "Said" },
            { "type": "quote", "content": [] }
        ]"###,
    ));
    assert_eq!(rendered, "###### Deep\n\n# Zero\n\n# Negative\n\n> Said\n\n");
}

#[test]
fn table_cells_escape_pipes_and_skip_rows_without_cells() {
    let rendered = blocknote_to_markdown(&blocks(
        r###"[
            { "type": "table", "content": { "rows": [
                { "other": 1 },
                { "cells": [{ "content": [{ "type": "text", "text": "a|b" }] }, "c"] },
                { "cells": [] }
            ]}}
        ]"###,
    ));
    assert_eq!(rendered, "| a\\|b | c |\n| --- | --- |\n|  |\n\n");
}

#[test]
fn children_are_indented_under_their_parent() {
    let rendered = blocknote_to_markdown(&blocks(
        r###"[
            { "type": "paragraph", "content": "Top",
              "children": [{ "type": "codeBlock", "content": [{ "type": "link", "content": [{ "text": "x" }] }] }] }
        ]"###,
    ));
    assert_eq!(rendered, "Top\n\n  ```\nx\n  ```\n\n");
}

#[test]
fn styles_apply_in_order_and_code_wins() {
    let all = json(r###"{ "bold": true, "italic": true, "strike": true }"###);
    assert_eq!(apply_styles("x", Some(&all)), "~~***x***~~");
    let code = json(r###"{ "bold": true, "code": true }"###);
    assert_eq!(apply_styles("x", Some(&code)), "`x`");
    assert_eq!(apply_styles("", Some(&all)), "");
    assert_eq!(apply_styles("x", None), "x");
}

#[test]
fn links_without_a_target_show_their_label() {
    let rendered = blocknote_to_markdown(&blocks(
        r###"[{ "type": "paragraph", "content": [
            { "type": "link", "href": "", "content": "label" },
            { "type": "text", "text": " and " },
            { "type": "link", "href": "u", "content": [{ "type": "text", "text": "t", "styles": { "italic": true } }] }
        ]}]"###,
    ));
    assert_eq!(rendered, "label and [*t*](u)\n\n");
}

#[test]
fn the_first_of_repeated_keys_is_used() {
    let result = JsonValue::Object(vec![
        ("markdown".to_string(), JsonValue::Str("first".to_string())),
        ("markdown".to_string(), JsonValue::Str("second".to_string())),
    ]);
    assert_eq!(summary_to_markdown(&result).unwrap(), "first");
}

#[test]
fn slugs_are_lowercase_bounded_and_never_dashed_at_the_ends() {
    assert_eq!(filename_slug("---"), "meeting");
    assert_eq!(filename_slug("ÄBC Über"), "äbc-über");
    assert_eq!(filename_slug(" -Hello- "), "hello");
    let long = "a".repeat(70);
    assert_eq!(filename_slug(&long), "a".repeat(60));
    let cut_at_dash = format!("{} b", "a".repeat(59));
    assert_eq!(filename_slug(&cut_at_dash), "a".repeat(59));
}

#[test]
fn filenames_fall_back_to_today_for_unparseable_dates() {
    let name = suggest_filename("Retro", "garbage");
    assert!(name.starts_with("retro-"));
    assert!(name.ends_with(".md"));
    assert_eq!(name.len(), "retro-2026-08-01.md".len());
}

#[test]
fn exports_use_default_options_when_none_are_given() {
    let data = MeetingExportData {
        id: "id".to_string(),
        title: "Plan".to_string(),
        created_at: "2026-08-01T09:30:00Z".to_string(),
        summary: None,
        transcripts: vec![],
    };
    let export = render_export(&data, None);
    assert!(export.markdown.starts_with("# Plan\n\n- **Date:** "));
    assert!(export.suggested_filename.starts_with("plan-"));
    let bare = render_export(&data, Some(nothing()));
    assert_eq!(bare.markdown, "# Plan\n");
}

#[test]
fn filenames_join_slug_date_and_extension() {
    assert_eq!(filename_with_date("Q3 Review", "2026-01-02"), "q3-review-2026-01-02.md");
    assert_eq!(filename_with_date("", "d"), "meeting-d.md");
}

#[test]
fn the_shown_date_is_the_local_text_or_the_raw_value() {
    assert_eq!(shown_datetime("raw", Some("local".to_string())), "local");
    assert_eq!(shown_datetime("raw", None), "raw");
}

#[test]
fn stored_summaries_parse_or_report_why_not() {
    assert!(matches!(stored_summary(None), Ok(None)));
    assert!(stored_summary(Some("{ not json")).is_err());
    match stored_summary(Some(r###"{ "b": [1, -1, 2.5, true, null], "a": "x" }"###)) {
        Ok(Some(JsonValue::Object(entries))) => {
            assert_eq!(entries.len(), 2);
            assert_eq!(entries[0].0, "a");
            assert!(matches!(&entries[1].1, JsonValue::Array(items) if items.len() == 5
                && matches!(items[0], JsonValue::UInt(1))
                && matches!(items[1], JsonValue::OtherNumber)
                && matches!(items[2], JsonValue::OtherNumber)
                && matches!(items[3], JsonValue::Bool(true))
                && matches!(items[4], JsonValue::Null)));
        }
        _ => panic!("expected an object"),
    }
}

#[test]
fn blank_titles_still_open_with_a_title_line_and_end_in_one_newline() {
    let mut data = standup(None, vec![]);
    data.title = "\u{3000}\t".to_string();
    let doc = build_meeting_markdown(&data, &nothing());
    assert_eq!(doc, "# Untitled Meeting\n");
}

#[test]
fn rendering_blocks_appends_to_what_is_there() {
    let mut out = "kept".to_string();
    render_blocks(&blocks(r###"[{ "type": "bulletListItem", "content": "a" }]"###), "> ", &mut out);
    assert_eq!(out, "kept> - a\n\n");
    let mut table = "t".to_string();
    let block = json(r###"{ "type": "table", "content": { "rows": [{ "cells": ["x"] }] } }"###);
    render_table(&block, "", &mut table);
    assert_eq!(table, "t| x |\n| --- |\n\n");
}

#[test]
fn filenames_use_the_creation_date_when_there_is_one() {
    assert_eq!(
        filename_with_created_date("Plan", Some("1999-12-31".to_string())),
        "plan-1999-12-31.md"
    );
    let today = filename_with_created_date("Plan", None);
    assert!(today.starts_with("plan-") && today.ends_with(".md"));
    assert_eq!(today.len(), "plan-2026-08-01.md".len());
}

#[test]
fn export_data_copies_keep_their_content() {
    let data = standup(
        Some(json(r###"{ "markdown": "Copied.", "x": [1, { "y": null }] }"###)),
        vec![text_line("Words.", Some(5), Some("mic"))],
    );
    let copy = data.clone();
    assert_eq!(
        render_meeting_markdown(&copy, &ExportOptions::default(), "D", "E"),
        render_meeting_markdown(&data, &ExportOptions::default(), "D", "E")
    );
    assert_eq!(format!("{:?}", copy.summary), format!("{:?}", data.summary));
}
