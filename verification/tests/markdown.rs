use meeting_export::blocknote::blocknote_to_markdown;
use meeting_export::document::{
    build_meeting_markdown, format_offset, speaker_label, ExportOptions, MeetingExportData,
    TranscriptLine,
};
use meeting_export::filename::suggest_filename;
use meeting_export::json::JsonValue;
use meeting_export::summary::summary_to_markdown;
use meeting_export::stored::stored_summary;

fn json(text: &str) -> JsonValue {
    stored_summary(Some(text)).unwrap().unwrap()
}

fn blocks(text: &str) -> Vec<JsonValue> {
    match json(text) {
        JsonValue::Array(items) => items,
        _ => panic!("not an array"),
    }
}

/// Recording offsets arrive as fractional seconds; the exporter shows whole,
/// non-negative seconds.
fn whole_seconds(offset: f64) -> u64 {
    offset.max(0.0).floor() as u64
}

fn meeting(summary: Option<JsonValue>, transcripts: Vec<TranscriptLine>) -> MeetingExportData {
    MeetingExportData {
        id: "meeting-123".to_string(),
        title: "Team Standup".to_string(),
        created_at: "2026-08-01T09:30:00Z".to_string(),
        summary,
        transcripts,
    }
}

fn line(text: &str, offset: Option<f64>, speaker: Option<&str>) -> TranscriptLine {
    TranscriptLine {
        text: text.to_string(),
        timestamp: "09:30:00".to_string(),
        audio_start_time: offset.map(whole_seconds),
        speaker: speaker.map(str::to_string),
    }
}

#[test]
fn formats_offsets_as_minutes_and_seconds() {
    assert_eq!(format_offset(whole_seconds(0.0)), "[00:00]");
    assert_eq!(format_offset(whole_seconds(65.9)), "[01:05]");
    assert_eq!(format_offset(whole_seconds(3725.0)), "[01:02:05]");
    // Negative offsets should clamp rather than underflow the cast.
    assert_eq!(format_offset(whole_seconds(-5.0)), "[00:00]");
}

#[test]
fn maps_audio_sources_to_readable_labels() {
    assert_eq!(speaker_label("mic"), "Microphone");
    assert_eq!(speaker_label("system"), "System Audio");
    assert_eq!(speaker_label("Alice"), "Alice");
}

#[test]
fn prefers_the_markdown_field() {
    let result = json(
        r###"{
            "markdown": "## Decisions\n\nShip on Friday.",
            "summary_json": [{ "type": "paragraph", "content": [{ "type": "text", "text": "ignored" }] }]
        }"###,
    );

    assert_eq!(
        summary_to_markdown(&result).unwrap(),
        "## Decisions\n\nShip on Friday."
    );
}

#[test]
fn falls_back_to_blocknote_blocks() {
    let result = json(
        r###"{
            "markdown": "   ",
            "summary_json": [
                { "type": "heading", "props": { "level": 2 },
                  "content": [{ "type": "text", "text": "Action Items" }] },
                { "type": "bulletListItem",
                  "content": [{ "type": "text", "text": "Ship it", "styles": { "bold": true } }] },
                { "type": "bulletListItem",
                  "content": [{ "type": "text", "text": "Then rest" }] },
                { "type": "paragraph", "content": [{ "type": "text", "text": "Done." }] }
            ]
        }"###,
    );

    assert_eq!(
        summary_to_markdown(&result).unwrap(),
        "## Action Items\n\n- **Ship it**\n- Then rest\n\nDone."
    );
}

#[test]
fn renders_blocknote_links_checklists_and_code() {
    let blocks = blocks(
        r###"[
            { "type": "checkListItem", "props": { "checked": true },
              "content": [{ "type": "text", "text": "Booked" }] },
            { "type": "checkListItem", "props": { "checked": false },
              "content": [{ "type": "text", "text": "Pending" }] },
            { "type": "paragraph", "content": [
                { "type": "link", "href": "https://example.com",
                  "content": [{ "type": "text", "text": "notes" }] }
            ]},
            { "type": "codeBlock", "props": { "language": "rust" },
              "content": [{ "type": "text", "text": "let x = 1;", "styles": { "bold": true } }] }
        ]"###,
    );

    let rendered = blocknote_to_markdown(&blocks);

    assert!(rendered.contains("- [x] Booked\n"));
    assert!(rendered.contains("- [ ] Pending\n"));
    assert!(rendered.contains("[notes](https://example.com)"));
    // Code block content must stay literal, not pick up the bold style.
    assert!(rendered.contains("```rust\nlet x = 1;\n```"));
}

#[test]
fn renders_nested_blocknote_children() {
    let blocks = blocks(
        r###"[
            { "type": "bulletListItem", "content": [{ "type": "text", "text": "Parent" }],
              "children": [
                  { "type": "bulletListItem", "content": [{ "type": "text", "text": "Child" }] }
              ]}
        ]"###,
    );

    let rendered = blocknote_to_markdown(&blocks);

    assert!(rendered.contains("- Parent\n"));
    assert!(rendered.contains("  - Child\n"));
}

#[test]
fn renders_blocknote_tables() {
    let blocks = blocks(
        r###"[
            { "type": "table", "content": { "type": "tableContent", "rows": [
                { "cells": [[{ "type": "text", "text": "Owner" }], [{ "type": "text", "text": "Task" }]] },
                { "cells": [[{ "type": "text", "text": "Max" }], [{ "type": "text", "text": "Ship" }]] }
            ]}}
        ]"###,
    );

    let rendered = blocknote_to_markdown(&blocks);

    assert!(rendered.contains("| Owner | Task |\n"));
    assert!(rendered.contains("| --- | --- |\n"));
    assert!(rendered.contains("| Max | Ship |\n"));
}

#[test]
fn falls_back_to_the_legacy_section_format() {
    let result = json(
        r###"{
            "MeetingName": "Team Standup",
            "Agenda": {
                "title": "Agenda",
                "blocks": [
                    { "type": "bullet", "content": "Roadmap" },
                    { "type": "bullet", "content": "Hiring" }
                ]
            },
            "Decisions": {
                "title": "Decisions",
                "blocks": [{ "type": "text", "content": "Ship on Friday." }]
            },
            "_section_order": ["Agenda", "Decisions"]
        }"###,
    );

    assert_eq!(
        summary_to_markdown(&result).unwrap(),
        "## Agenda\n\n- Roadmap\n- Hiring\n\n## Decisions\n\nShip on Friday."
    );
}

#[test]
fn returns_none_when_there_is_no_summary_content() {
    assert!(summary_to_markdown(&json(r###"{ "markdown": "  " }"###)).is_none());
    assert!(summary_to_markdown(&json("{}")).is_none());
    // A cache-only blob carries no user-visible sections.
    assert!(summary_to_markdown(&json(r###"{ "english_cache": { "markdown": "x" } }"###)).is_none());
}

#[test]
fn builds_a_document_with_summary_and_transcript() {
    let data = meeting(
        Some(json(r###"{ "markdown": "## Decisions\n\nShip on Friday." }"###)),
        vec![
            line("Morning everyone.", Some(0.0), Some("mic")),
            line("Hello.", Some(12.0), Some("system")),
        ],
    );

    let rendered = build_meeting_markdown(&data, &ExportOptions::default());

    assert!(rendered.starts_with("# Team Standup\n\n"));
    assert!(rendered.contains("- **Meeting ID:** `meeting-123`\n"));
    assert!(rendered.contains("- **Segments:** 2\n"));
    assert!(rendered.contains("## Summary\n\n## Decisions\n\nShip on Friday."));
    assert!(rendered.contains("**[00:00]** **Microphone:** Morning everyone.\n"));
    assert!(rendered.contains("**[00:12]** **System Audio:** Hello.\n"));
    assert!(rendered.ends_with("Hello.\n"));
}

#[test]
fn honours_section_toggles() {
    let data = meeting(
        Some(json(r###"{ "markdown": "Summary body." }"###)),
        vec![line("Spoken words.", Some(0.0), Some("mic"))],
    );

    let summary_only = build_meeting_markdown(
        &data,
        &ExportOptions {
            include_transcript: false,
            ..Default::default()
        },
    );
    assert!(summary_only.contains("## Summary"));
    assert!(!summary_only.contains("## Transcript"));

    let transcript_only = build_meeting_markdown(
        &data,
        &ExportOptions {
            include_summary: false,
            include_metadata: false,
            ..Default::default()
        },
    );
    assert!(!transcript_only.contains("## Summary"));
    assert!(!transcript_only.contains("**Meeting ID:**"));
    assert!(transcript_only.contains("## Transcript"));

    let bare = build_meeting_markdown(
        &data,
        &ExportOptions {
            include_timestamps: false,
            include_speakers: false,
            ..Default::default()
        },
    );
    assert!(bare.contains("\nSpoken words.\n"));
    assert!(!bare.contains("[00:00]"));
    assert!(!bare.contains("Microphone"));
}

#[test]
fn falls_back_to_the_wall_clock_timestamp_without_an_offset() {
    let data = meeting(None, vec![line("Legacy segment.", None, None)]);
    let rendered = build_meeting_markdown(&data, &ExportOptions::default());

    assert!(rendered.contains("**09:30:00** Legacy segment."));
}

#[test]
fn skips_empty_segments_and_untitled_meetings_still_render() {
    let mut data = meeting(None, vec![line("   ", Some(0.0), None)]);
    data.title = "   ".to_string();

    let rendered = build_meeting_markdown(&data, &ExportOptions::default());

    assert!(rendered.starts_with("# Untitled Meeting\n"));
    assert!(!rendered.contains("[00:00]"));
}

#[test]
fn suggests_a_slugged_filename() {
    assert_eq!(
        suggest_filename("Team Standup", "2026-08-01T09:30:00Z"),
        "team-standup-2026-08-01.md"
    );
    assert_eq!(
        suggest_filename("  Q3 // Planning!!  ", "2026-08-01T09:30:00Z"),
        "q3-planning-2026-08-01.md"
    );
    assert!(suggest_filename("***", "2026-08-01T09:30:00Z").starts_with("meeting-"));
}
