use vstd::prelude::*;
use crate::clock::{
    lemma_patterns_differ, date_text, local_minute_of, minute_text, now_in_local_time,
    rfc3339_accepts, rfc3339_in_local_time,
};
use crate::filename::{filename_of, suggest_filename};
use crate::json::JsonValue;
use crate::summary::{opt_string_view, summary_md, summary_to_markdown};
use crate::text::{
    decimal, is_white_space, lemma_trim_end_after, lemma_trim_end_prefix, lemma_trim_idempotent,
    push_decimal, push_two_digits, text_is, trim, trim_end, trimmed, trimmed_end, two_digits,
};

verus! {

/// Controls which parts of a meeting end up in the exported document.
#[derive(Debug, Clone)]
pub struct ExportOptions {
    pub include_metadata: bool,
    pub include_summary: bool,
    pub include_transcript: bool,
    pub include_timestamps: bool,
    pub include_speakers: bool,
}

/// The options used when none are given: everything included.
pub open spec fn default_options() -> ExportOptions {
    ExportOptions {
        include_metadata: true,
        include_summary: true,
        include_transcript: true,
        include_timestamps: true,
        include_speakers: true,
    }
}

/// The options given, or the defaults.
pub open spec fn effective_options(options: Option<ExportOptions>) -> ExportOptions {
    match options {
        Some(o) => o,
        None => default_options(),
    }
}

impl Default for ExportOptions {
    /// Everything included.
    fn default() -> (r: Self)
        ensures
            r == default_options(),
    {
        ExportOptions {
            include_metadata: true,
            include_summary: true,
            include_transcript: true,
            include_timestamps: true,
            include_speakers: true,
        }
    }
}

/// A transcript segment flattened to just what the exporter needs.
#[derive(Debug, Clone)]
pub struct TranscriptLine {
    pub text: String,
    /// Wall-clock time of the segment, shown when it has no recording offset.
    pub timestamp: String,
    /// Whole seconds from the start of the recording, when known.
    pub audio_start_time: Option<u64>,
    pub speaker: Option<String>,
}

/// Everything the exporter needs about one meeting.
#[derive(Debug, Clone)]
pub struct MeetingExportData {
    pub id: String,
    pub title: String,
    /// RFC 3339 creation timestamp.
    pub created_at: String,
    /// The stored summary result, when a summary exists.
    pub summary: Option<JsonValue>,
    pub transcripts: Vec<TranscriptLine>,
}

/// A rendered export that has not been written to disk.
#[derive(Debug, Clone)]
pub struct MeetingMarkdownExport {
    pub markdown: String,
    pub suggested_filename: String,
}

/// `[MM:SS]`, or `[HH:MM:SS]` from the first full hour on.
pub open spec fn offset_md(total: u64) -> Seq<char> {
    let hours: u64 = total / 3600;
    let minutes: u64 = (total % 3600) / 60;
    let seconds: u64 = total % 60;
    if hours > 0 {
        "["@ + two_digits(hours as nat) + ":"@ + two_digits(minutes as nat) + ":"@ + two_digits(
            seconds as nat,
        ) + "]"@
    } else {
        "["@ + two_digits(minutes as nat) + ":"@ + two_digits(seconds as nat) + "]"@
    }
}

/// The readable name of a stored audio source.
pub open spec fn speaker_label_md(speaker: Seq<char>) -> Seq<char> {
    if speaker == "mic"@ {
        "Microphone"@
    } else if speaker == "system"@ {
        "System Audio"@
    } else {
        speaker
    }
}

/// The document's title: the trimmed meeting title, `Untitled Meeting`
/// when that is blank.
pub open spec fn display_title(title: Seq<char>) -> Seq<char> {
    if trim(title).len() == 0 {
        "Untitled Meeting"@
    } else {
        trim(title)
    }
}

/// The time shown before a transcript line: its recording offset, else its
/// trimmed wall-clock timestamp.
pub open spec fn line_stamp(line: TranscriptLine) -> Seq<char> {
    match line.audio_start_time {
        Some(offset) => offset_md(offset),
        None => trim(line.timestamp@),
    }
}

/// One transcript line: `**stamp** **Speaker:** text` and a blank line;
/// nothing for a blank line.
pub open spec fn line_md(line: TranscriptLine, options: ExportOptions) -> Seq<char> {
    let text = trim(line.text@);
    if text.len() == 0 {
        Seq::empty()
    } else {
        let stamp = line_stamp(line);
        let stamp_part = if options.include_timestamps && stamp.len() > 0 {
            "**"@ + stamp + "** "@
        } else {
            Seq::empty()
        };
        let speaker_part = match line.speaker {
            Some(s) => if options.include_speakers && trim(s@).len() > 0 {
                "**"@ + speaker_label_md(trim(s@)) + ":** "@
            } else {
                Seq::empty()
            },
            None => Seq::empty(),
        };
        stamp_part + speaker_part + text + "\n\n"@
    }
}

pub open spec fn lines_md(lines: Seq<TranscriptLine>, options: ExportOptions) -> Seq<char>
    decreases lines.len(),
{
    if lines.len() == 0 {
        Seq::empty()
    } else {
        lines_md(lines.drop_last(), options) + line_md(lines.last(), options)
    }
}

/// The metadata list, with the rendered creation date and export time.
pub open spec fn metadata_md(data: MeetingExportData, date: Seq<char>, exported: Seq<char>) -> Seq<
    char,
> {
    "- **Date:** "@ + date + "\n"@ + "- **Meeting ID:** `"@ + data.id@ + "`\n"@ + (if data.transcripts@.len()
        > 0 {
        "- **Segments:** "@ + decimal(data.transcripts@.len()) + "\n"@
    } else {
        Seq::empty()
    }) + "- **Exported:** "@ + exported + "\n\n"@
}

/// The summary shown, if any.
pub open spec fn shown_summary(data: MeetingExportData, options: ExportOptions) -> Option<
    Seq<char>,
> {
    if options.include_summary {
        match data.summary {
            Some(v) => summary_md(v),
            None => None,
        }
    } else {
        None
    }
}

pub open spec fn summary_section(data: MeetingExportData, options: ExportOptions) -> Seq<char> {
    match shown_summary(data, options) {
        Some(s) => "---\n\n## Summary\n\n"@ + s + "\n\n"@,
        None => Seq::empty(),
    }
}

pub open spec fn transcript_section(data: MeetingExportData, options: ExportOptions) -> Seq<char> {
    if options.include_transcript && data.transcripts@.len() > 0 {
        "---\n\n## Transcript\n\n"@ + lines_md(data.transcripts@, options)
    } else {
        Seq::empty()
    }
}

/// The document before its end is trimmed.
pub open spec fn document_body(
    data: MeetingExportData,
    options: ExportOptions,
    date: Seq<char>,
    exported: Seq<char>,
) -> Seq<char> {
    "# "@ + display_title(data.title@) + "\n\n"@ + (if options.include_metadata {
        metadata_md(data, date, exported)
    } else {
        Seq::empty()
    }) + summary_section(data, options) + transcript_section(data, options)
}

/// The Markdown document of a meeting, ending in exactly one newline.
pub open spec fn document(
    data: MeetingExportData,
    options: ExportOptions,
    date: Seq<char>,
    exported: Seq<char>,
) -> Seq<char> {
    trim_end(document_body(data, options, date, exported)) + "\n"@
}

/// The shown title is never empty and does not end in whitespace.
pub proof fn lemma_display_title(title: Seq<char>)
    ensures
        display_title(title).len() > 0,
        !is_white_space(display_title(title).last()),
{
    lemma_trim_idempotent(title);
    if trim(title).len() == 0 {
        reveal_strlit("Untitled Meeting");
        assert("Untitled Meeting"@.last() == 'g');
    }
}

/// A document ends in exactly one newline: trimming its end removes that
/// newline and nothing else.
pub proof fn lemma_document_ending(
    data: MeetingExportData,
    options: ExportOptions,
    date: Seq<char>,
    exported: Seq<char>,
)
    ensures
        document(data, options, date, exported).len() >= 2,
        document(data, options, date, exported).last() == '\n',
        trim_end(document(data, options, date, exported)) == document(
            data,
            options,
            date,
            exported,
        ).drop_last(),
{
    let title = display_title(data.title@);
    reveal_strlit("# ");
    reveal_strlit("\n");
    reveal_strlit("\n\n");
    lemma_display_title(data.title@);
    let head = "# "@ + title;
    let rest = "\n\n"@ + (if options.include_metadata {
        metadata_md(data, date, exported)
    } else {
        Seq::empty()
    }) + summary_section(data, options) + transcript_section(data, options);
    assert(document_body(data, options, date, exported) =~= head + rest);
    assert(head.last() == title.last());
    lemma_trim_end_after(head, rest);
    lemma_trim_end_prefix(rest);
    let t = head + trim_end(rest);
    let doc = document(data, options, date, exported);
    assert(doc =~= t + "\n"@);
    assert(doc.drop_last() =~= t);
    lemma_trim_end_prefix(document_body(data, options, date, exported));
    assert(t.len() > 0 && !is_white_space(t.last()));
    assert(doc.drop_last() == t);
    assert(trim_end(doc) == trim_end(doc.drop_last()));
}

/// A document opens with `# <title>` on a line of its own, the title being
/// the trimmed meeting title or `Untitled Meeting`, whatever the options.
pub proof fn lemma_document_title_line(
    data: MeetingExportData,
    options: ExportOptions,
    date: Seq<char>,
    exported: Seq<char>,
)
    ensures
        document(data, options, date, exported).take(display_title(data.title@).len() + 3int)
            == "# "@ + display_title(data.title@) + "\n"@,
{
    let title = display_title(data.title@);
    reveal_strlit("# ");
    reveal_strlit("\n");
    reveal_strlit("\n\n");
    lemma_display_title(data.title@);
    let head = "# "@ + title;
    let rest = "\n\n"@ + (if options.include_metadata {
        metadata_md(data, date, exported)
    } else {
        Seq::empty()
    }) + summary_section(data, options) + transcript_section(data, options);
    assert(document_body(data, options, date, exported) =~= head + rest);
    assert(head.last() == title.last());
    lemma_trim_end_after(head, rest);
    lemma_trim_end_prefix(rest);
    let doc = document(data, options, date, exported);
    assert(doc =~= head + trim_end(rest) + "\n"@);
    if trim_end(rest).len() > 0 {
        assert(trim_end(rest)[0] == rest[0]);
    }
    assert(doc.take(title.len() + 3int) =~= "# "@ + title + "\n"@);
}

/// Turning the summary off gives the document of the same meeting without a
/// summary.
pub proof fn lemma_summary_toggle(
    data: MeetingExportData,
    options: ExportOptions,
    date: Seq<char>,
    exported: Seq<char>,
)
    requires
        !options.include_summary,
    ensures
        document(data, options, date, exported) == document(
            MeetingExportData {
                id: data.id,
                title: data.title,
                created_at: data.created_at,
                summary: None,
                transcripts: data.transcripts,
            },
            options,
            date,
            exported,
        ),
{
}

/// Turning the transcript off leaves the title, metadata and summary.
pub proof fn lemma_transcript_toggle(
    data: MeetingExportData,
    options: ExportOptions,
    date: Seq<char>,
    exported: Seq<char>,
)
    requires
        !options.include_transcript,
    ensures
        document(data, options, date, exported) == trim_end(
            "# "@ + display_title(data.title@) + "\n\n"@ + (if options.include_metadata {
                metadata_md(data, date, exported)
            } else {
                Seq::empty()
            }) + summary_section(data, options),
        ) + "\n"@,
{
    assert(document_body(data, options, date, exported) =~= "# "@ + display_title(data.title@)
        + "\n\n"@ + (if options.include_metadata {
        metadata_md(data, date, exported)
    } else {
        Seq::empty()
    }) + summary_section(data, options));
}

/// With timestamps and speakers off, a transcript line is its trimmed text
/// and a blank line.
pub proof fn lemma_bare_line(line: TranscriptLine, options: ExportOptions)
    requires
        !options.include_timestamps,
        !options.include_speakers,
    ensures
        line_md(line, options) == if trim(line.text@).len() == 0 {
            Seq::<char>::empty()
        } else {
            trim(line.text@) + "\n\n"@
        },
{
    if trim(line.text@).len() > 0 {
        assert(line_md(line, options) =~= trim(line.text@) + "\n\n"@);
    }
}

/// With speakers on, a line with text and a non-blank speaker shows
/// `**<Label>:** ` right before its text, whether or not timestamps are on:
/// timestamps only add the `**<stamp>** ` in front.
pub proof fn lemma_speaker_before_text(line: TranscriptLine, options: ExportOptions, s: String)
    requires
        options.include_speakers,
        line.speaker == Some(s),
        trim(s@).len() > 0,
        trim(line.text@).len() > 0,
    ensures
        line_md(line, options) == (if options.include_timestamps && line_stamp(line).len() > 0 {
            "**"@ + line_stamp(line) + "** "@
        } else {
            Seq::<char>::empty()
        }) + "**"@ + speaker_label_md(trim(s@)) + ":** "@ + trim(line.text@) + "\n\n"@,
        !options.include_timestamps ==> line_md(line, options) == "**"@ + speaker_label_md(
            trim(s@),
        ) + ":** "@ + trim(line.text@) + "\n\n"@,
{
    let stamp_part = if options.include_timestamps && line_stamp(line).len() > 0 {
        "**"@ + line_stamp(line) + "** "@
    } else {
        Seq::<char>::empty()
    };
    let label = "**"@ + speaker_label_md(trim(s@)) + ":** "@;
    assert(line_md(line, options) =~= stamp_part + label + trim(line.text@) + "\n\n"@);
    if !options.include_timestamps {
        assert(stamp_part + label =~= label);
    }
}

/// Turning timestamps on or off changes a line only by its `**<stamp>** `
/// prefix.
pub proof fn lemma_timestamp_toggle(line: TranscriptLine, options: ExportOptions)
    requires
        options.include_timestamps,
    ensures
        line_md(line, options) == (if trim(line.text@).len() > 0 && line_stamp(line).len() > 0 {
            "**"@ + line_stamp(line) + "** "@
        } else {
            Seq::<char>::empty()
        }) + line_md(
            line,
            ExportOptions {
                include_metadata: options.include_metadata,
                include_summary: options.include_summary,
                include_transcript: options.include_transcript,
                include_timestamps: false,
                include_speakers: options.include_speakers,
            },
        ),
{
    let off = ExportOptions {
        include_metadata: options.include_metadata,
        include_summary: options.include_summary,
        include_transcript: options.include_transcript,
        include_timestamps: false,
        include_speakers: options.include_speakers,
    };
    if trim(line.text@).len() > 0 {
        let speaker_part = match line.speaker {
            Some(s) => if options.include_speakers && trim(s@).len() > 0 {
                "**"@ + speaker_label_md(trim(s@)) + ":** "@
            } else {
                Seq::<char>::empty()
            },
            None => Seq::<char>::empty(),
        };
        let rest = trim(line.text@) + "\n\n"@;
        assert(line_md(line, off) =~= speaker_part + rest);
        if line_stamp(line).len() > 0 {
            assert(line_md(line, options) =~= "**"@ + line_stamp(line) + "** "@ + (speaker_part
                + rest));
        } else {
            assert(line_md(line, options) =~= speaker_part + rest);
            assert(Seq::<char>::empty() + line_md(line, off) =~= line_md(line, off));
        }
    } else {
        assert(Seq::<char>::empty() + line_md(line, off) =~= line_md(line, off));
    }
}

/// Formats a recording-relative offset in whole seconds as `[MM:SS]`,
/// widening to `[HH:MM:SS]` past an hour.
pub fn format_offset(total_seconds: u64) -> (r: String)
    ensures
        r@ == offset_md(total_seconds),
{
    let hours: u64 = total_seconds / 3600;
    let minutes: u64 = (total_seconds % 3600) / 60;
    let seconds: u64 = total_seconds % 60;
    let mut out = String::from_str("[");
    if hours > 0 {
        push_two_digits(&mut out, hours);
        out.append(":");
    }
    push_two_digits(&mut out, minutes);
    out.append(":");
    push_two_digits(&mut out, seconds);
    out.append("]");
    assert(out@ =~= offset_md(total_seconds));
    out
}

/// Maps the stored audio source onto a human-readable label.
pub fn speaker_label(speaker: &str) -> (r: String)
    ensures
        r@ == speaker_label_md(speaker@),
{
    if text_is(speaker, "mic") {
        String::from_str("Microphone")
    } else if text_is(speaker, "system") {
        String::from_str("System Audio")
    } else {
        String::from_str(speaker)
    }
}

/// The creation date shown: the local-time text when the timestamp parsed,
/// else the raw timestamp.
pub fn shown_datetime(raw: &str, local: Option<String>) -> (r: String)
    ensures
        r@ == match local {
            Some(text) => text@,
            None => raw@,
        },
{
    match local {
        Some(text) => text,
        None => String::from_str(raw),
    }
}

/// Renders an RFC 3339 timestamp in local time, falling back to the raw
/// string when it does not parse.
pub fn format_datetime(raw: &str) -> (r: String)
    ensures
        !rfc3339_accepts(raw@) ==> r@ == raw@,
        rfc3339_accepts(raw@) ==> local_minute_of(raw@, r@),
{
    proof {
        lemma_patterns_differ();
    }
    shown_datetime(raw, rfc3339_in_local_time(raw, "%Y-%m-%d %H:%M"))
}

fn push_line(line: &TranscriptLine, options: &ExportOptions, out: &mut String)
    ensures
        final(out)@ == old(out)@ + line_md(*line, *options),
{
    let text = trimmed(line.text.as_str());
    if text.as_str().unicode_len() == 0 {
        assert(out@ =~= old(out)@ + line_md(*line, *options));
        return;
    }
    let mut prefix = String::new();
    if options.include_timestamps {
        let stamp = match line.audio_start_time {
            Some(offset) => format_offset(offset),
            None => trimmed(line.timestamp.as_str()),
        };
        if stamp.as_str().unicode_len() > 0 {
            prefix.append("**");
            prefix.append(stamp.as_str());
            prefix.append("** ");
        }
    }
    if options.include_speakers {
        match &line.speaker {
            Some(s) => {
                let speaker = trimmed(s.as_str());
                if speaker.as_str().unicode_len() > 0 {
                    let label = speaker_label(speaker.as_str());
                    prefix.append("**");
                    prefix.append(label.as_str());
                    prefix.append(":** ");
                }
            },
            None => {},
        }
    }
    out.append(prefix.as_str());
    out.append(text.as_str());
    out.append("\n\n");
    assert(out@ =~= old(out)@ + line_md(*line, *options));
}

fn push_metadata(data: &MeetingExportData, date: &str, exported: &str, out: &mut String)
    ensures
        final(out)@ == old(out)@ + metadata_md(*data, date@, exported@),
{
    out.append("- **Date:** ");
    out.append(date);
    out.append("\n");
    out.append("- **Meeting ID:** `");
    out.append(data.id.as_str());
    out.append("`\n");
    if data.transcripts.len() > 0 {
        out.append("- **Segments:** ");
        push_decimal(out, data.transcripts.len() as u64);
        out.append("\n");
    }
    out.append("- **Exported:** ");
    out.append(exported);
    out.append("\n\n");
    assert(out@ =~= old(out)@ + metadata_md(*data, date@, exported@));
}

fn push_summary_section(data: &MeetingExportData, options: &ExportOptions, out: &mut String)
    ensures
        final(out)@ == old(out)@ + summary_section(*data, *options),
{
    let summary = if options.include_summary {
        match &data.summary {
            Some(v) => summary_to_markdown(v),
            None => None,
        }
    } else {
        None
    };
    assert(opt_string_view(summary) == shown_summary(*data, *options));
    match summary {
        Some(s) => {
            out.append("---\n\n## Summary\n\n");
            out.append(s.as_str());
            out.append("\n\n");
        },
        None => {},
    }
    assert(out@ =~= old(out)@ + summary_section(*data, *options));
}

fn push_transcript_section(data: &MeetingExportData, options: &ExportOptions, out: &mut String)
    ensures
        final(out)@ == old(out)@ + transcript_section(*data, *options),
{
    if options.include_transcript && data.transcripts.len() > 0 {
        out.append("---\n\n## Transcript\n\n");
        let ghost start = out@;
        let mut i: usize = 0;
        assert(data.transcripts@.take(0) =~= Seq::<TranscriptLine>::empty());
        while i < data.transcripts.len()
            invariant
                0 <= i <= data.transcripts@.len(),
                out@ == start + lines_md(data.transcripts@.take(i as int), *options),
            decreases data.transcripts.len() - i,
        {
            assert(data.transcripts@.take(i + 1).drop_last() =~= data.transcripts@.take(i as int));
            assert(data.transcripts@.take(i + 1).last() == data.transcripts@[i as int]);
            push_line(&data.transcripts[i], options, out);
            i = i + 1;
            assert(out@ =~= start + lines_md(data.transcripts@.take(i as int), *options));
        }
        assert(data.transcripts@.take(data.transcripts.len() as int) =~= data.transcripts@);
    }
    assert(out@ =~= old(out)@ + transcript_section(*data, *options));
}

/// Renders the Markdown document of a meeting, given the text shown for its
/// creation date and for the export time.
pub fn render_meeting_markdown(
    data: &MeetingExportData,
    options: &ExportOptions,
    date: &str,
    exported: &str,
) -> (r: String)
    ensures
        r@ == document(*data, *options, date@, exported@),
{
    let mut out = String::from_str("# ");
    let title = trimmed(data.title.as_str());
    if title.as_str().unicode_len() == 0 {
        out.append("Untitled Meeting");
    } else {
        out.append(title.as_str());
    }
    out.append("\n\n");
    if options.include_metadata {
        push_metadata(data, date, exported, &mut out);
    }
    push_summary_section(data, options, &mut out);
    push_transcript_section(data, options, &mut out);
    assert(out@ =~= document_body(*data, *options, date@, exported@));
    let mut result = trimmed_end(out.as_str());
    result.append("\n");
    result
}

/// Builds the full Markdown document for a meeting, with its creation date
/// and the export time in local time.
pub fn build_meeting_markdown(data: &MeetingExportData, options: &ExportOptions) -> (r: String)
    ensures
        exists|date: Seq<char>, exported: Seq<char>|
            (!rfc3339_accepts(data.created_at@) ==> date == data.created_at@) && (
            options.include_metadata ==> (rfc3339_accepts(data.created_at@) ==> local_minute_of(data.created_at@, date))
                && minute_text(exported)) && r@ == #[trigger] document(
                *data,
                *options,
                date,
                exported,
            ),
        r@.take(display_title(data.title@).len() + 3int) == "# "@ + display_title(data.title@)
            + "\n"@,
        r@.len() >= 2,
        r@.last() == '\n',
        trim_end(r@) == r@.drop_last(),
{
    proof {
        lemma_patterns_differ();
    }
    let (date, exported) = if options.include_metadata {
        let date = format_datetime(data.created_at.as_str());
        let exported = now_in_local_time("%Y-%m-%d %H:%M");
        (date, exported)
    } else {
        (data.created_at.clone(), String::new())
    };
    let r = render_meeting_markdown(data, options, date.as_str(), exported.as_str());
    proof {
        lemma_document_title_line(*data, *options, date@, exported@);
        lemma_document_ending(*data, *options, date@, exported@);
    }
    assert(r@ == document(*data, *options, date@, exported@));
    r
}

/// Renders a meeting's export: the document and a suggested filename,
/// with the given options or the defaults.
pub fn render_export(data: &MeetingExportData, options: Option<ExportOptions>) -> (r:
    MeetingMarkdownExport)
    ensures
        exists|date: Seq<char>, exported: Seq<char>|
            (!rfc3339_accepts(data.created_at@) ==> date == data.created_at@) && (effective_options(
                options,
            ).include_metadata ==> (rfc3339_accepts(data.created_at@) ==> local_minute_of(data.created_at@, date))
                && minute_text(exported)) && r.markdown@ == #[trigger] document(
                *data,
                effective_options(options),
                date,
                exported,
            ),
        exists|day: Seq<char>|
            date_text(day) && r.suggested_filename@ == #[trigger] filename_of(data.title@, day),
{
    let chosen = match options {
        Some(o) => o,
        None => ExportOptions::default(),
    };
    assert(chosen == effective_options(options));
    let suggested_filename = suggest_filename(data.title.as_str(), data.created_at.as_str());
    let markdown = build_meeting_markdown(data, &chosen);
    MeetingMarkdownExport { markdown, suggested_filename }
}

} // verus!
