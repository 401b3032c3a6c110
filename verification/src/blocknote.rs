use vstd::prelude::*;
use crate::inline::{
    inline_content, inline_content_to_markdown, inline_content_to_plain_text, inline_value,
    plain_content,
};
use crate::json::{
    JsonValue, array_in, as_array, as_bool, as_str, as_u64, bool_in, deref_array, deref_value,
    field, field_of, get_in, lemma_array_field_decreases, lemma_field_decreases, str_in,
    str_or_empty, u64_in,
};
use crate::text::{decimal, join, push_char, push_decimal, push_repeated, repeat, text_is};

verus! {

/// The block's `type`, `paragraph` when it has none.
pub open spec fn block_type(b: JsonValue) -> Seq<char> {
    match as_str(field(b, "type"@)) {
        Some(t) => t,
        None => "paragraph"@,
    }
}

/// List items are the blocks that need a blank line after their run.
pub open spec fn is_list_type(t: Seq<char>) -> bool {
    t == "bulletListItem"@ || t == "numberedListItem"@ || t == "checkListItem"@
}

/// A heading's level, clamped to 1..=6 and 1 when absent.
pub open spec fn heading_level(b: JsonValue) -> nat {
    let level: nat = match as_u64(field_of(field(b, "props"@), "level"@)) {
        Some(n) => n as nat,
        None => 1,
    };
    if level < 1 {
        1
    } else if level > 6 {
        6
    } else {
        level
    }
}

/// Whether a check list item is ticked.
pub open spec fn is_checked(b: JsonValue) -> bool {
    as_bool(field_of(field(b, "props"@), "checked"@)) == Some(true)
}

/// `|` escaped as `\|`, so that a cell cannot end early.
pub open spec fn escape_pipes(s: Seq<char>) -> Seq<char>
    decreases s.len(),
{
    if s.len() == 0 {
        Seq::empty()
    } else {
        escape_pipes(s.drop_last()) + if s.last() == '|' {
            seq!['\\', '|']
        } else {
            seq![s.last()]
        }
    }
}

/// In an escaped cell every `|` follows a `\`, so cell text cannot close a
/// table column.
pub proof fn lemma_escaped_pipes(s: Seq<char>)
    ensures
        forall|k: int|
            0 <= k < escape_pipes(s).len() && #[trigger] escape_pipes(s)[k] == '|' ==> k > 0
                && escape_pipes(s)[k - 1] == '\\',
    decreases s.len(),
{
    if s.len() > 0 {
        lemma_escaped_pipes(s.drop_last());
        let init = escape_pipes(s.drop_last());
        let tail = if s.last() == '|' {
            seq!['\\', '|']
        } else {
            seq![s.last()]
        };
        assert(escape_pipes(s) == init + tail);
        assert forall|k: int|
            0 <= k < escape_pipes(s).len() && #[trigger] escape_pipes(s)[k] == '|' implies k > 0
            && escape_pipes(s)[k - 1] == '\\' by {
            if k < init.len() {
                assert(escape_pipes(s)[k] == init[k]);
                assert(escape_pipes(s)[k - 1] == init[k - 1]);
            } else {
                assert(escape_pipes(s)[k] == tail[k - init.len()]);
                if k - init.len() == 1 {
                    assert(escape_pipes(s)[k - 1] == tail[0]);
                }
            }
        }
    }
}

/// A table cell: either raw inline content or `{ content: [...] }`.
pub open spec fn cell_md(cell: JsonValue) -> Seq<char> {
    escape_pipes(
        match field(cell, "content"@) {
            Some(c) => inline_value(c),
            None => inline_value(cell),
        },
    )
}

/// One table row: `| a | b |`.
pub open spec fn row_line(cells: Seq<JsonValue>, indent: Seq<char>) -> Seq<char> {
    indent + "| "@ + join(cells.map_values(|c: JsonValue| cell_md(c)), " | "@) + " |\n"@
}

/// The rows so far, and whether the header row (the first row with cells)
/// has been written.
pub open spec fn table_fold(rows: Seq<JsonValue>, indent: Seq<char>) -> (Seq<char>, bool)
    decreases rows.len(),
{
    if rows.len() == 0 {
        (Seq::empty(), false)
    } else {
        let (text, seen) = table_fold(rows.drop_last(), indent);
        match as_array(field(rows.last(), "cells"@)) {
            Some(cells) => if seen {
                (text + row_line(cells, indent), true)
            } else {
                (text + row_line(cells, indent) + indent + "|"@ + repeat(" --- |"@, cells.len())
                    + "\n"@, true)
            },
            None => (text, seen),
        }
    }
}

/// A table block: the header row, a separator with one ` --- |` per header
/// cell, then the other rows; rows without cells are skipped.
pub open spec fn table_md(block: JsonValue, indent: Seq<char>) -> Seq<char> {
    match as_array(field_of(field(block, "content"@), "rows"@)) {
        Some(rows) => {
            let (text, seen) = table_fold(rows, indent);
            if seen {
                text + "\n"@
            } else {
                Seq::empty()
            }
        },
        None => Seq::empty(),
    }
}

/// One block without its children; `ordinal` is its number in a run of
/// numbered items.
pub open spec fn block_body(b: JsonValue, indent: Seq<char>, ordinal: nat) -> Seq<char> {
    let t = block_type(b);
    let text = inline_content(field(b, "content"@));
    if t == "heading"@ {
        if text.len() == 0 {
            Seq::empty()
        } else {
            indent + repeat("#"@, heading_level(b)) + " "@ + text + "\n\n"@
        }
    } else if t == "bulletListItem"@ {
        indent + "- "@ + text + "\n"@
    } else if t == "numberedListItem"@ {
        indent + decimal(ordinal) + ". "@ + text + "\n"@
    } else if t == "checkListItem"@ {
        indent + "- ["@ + (if is_checked(b) {
            "x"@
        } else {
            " "@
        }) + "] "@ + text + "\n"@
    } else if t == "quote"@ {
        if text.len() == 0 {
            Seq::empty()
        } else {
            indent + "> "@ + text + "\n\n"@
        }
    } else if t == "codeBlock"@ {
        indent + "```"@ + str_or_empty(field_of(field(b, "props"@), "language"@)) + "\n"@
            + plain_content(field(b, "content"@)) + "\n"@ + indent + "```\n\n"@
    } else if t == "table"@ {
        table_md(b, indent)
    } else {
        if text.len() == 0 {
            Seq::empty()
        } else {
            indent + text + "\n\n"@
        }
    }
}

/// The blocks so far, the running number of the current numbered list, and
/// whether the last block was a list item.
pub open spec fn blocks_fold(bs: Seq<JsonValue>, indent: Seq<char>) -> (Seq<char>, nat, bool)
    decreases bs,
{
    if bs.len() == 0 {
        (Seq::empty(), 0, false)
    } else {
        let (text, ordinal, prev_list) = blocks_fold(bs.drop_last(), indent);
        let b = bs.last();
        let t = block_type(b);
        let list = is_list_type(t);
        let separator = if prev_list && !list {
            "\n"@
        } else {
            Seq::empty()
        };
        let number = if t == "numberedListItem"@ {
            ordinal + 1
        } else {
            0
        };
        proof {
            assert(decreases_to!(bs => bs[bs.len() - 1]));
        }
        (text + separator + block_body(b, indent, number) + children_md(b, indent), number, list)
    }
}

/// A block's children, indented one level (two spaces) further.
pub open spec fn children_md(b: JsonValue, indent: Seq<char>) -> Seq<char>
    decreases b,
{
    match as_array(field(b, "children"@)) {
        Some(children) => if children.len() > 0 {
            proof {
                lemma_array_field_decreases(b, "children"@);
            }
            let (text, _, last_list) = blocks_fold(children, indent + "  "@);
            text + if last_list {
                "\n"@
            } else {
                Seq::empty()
            }
        } else {
            Seq::empty()
        },
        None => Seq::empty(),
    }
}

/// A list of blocks at one indentation: each block, its children, and a
/// blank line after every run of list items.
pub open spec fn blocks_md(bs: Seq<JsonValue>, indent: Seq<char>) -> Seq<char> {
    let (text, _, last_list) = blocks_fold(bs, indent);
    text + if last_list {
        "\n"@
    } else {
        Seq::empty()
    }
}

/// Markdown for BlockNote `summary_json` blocks.
pub open spec fn blocknote_md(bs: Seq<JsonValue>) -> Seq<char> {
    blocks_md(bs, Seq::empty())
}

/// A bullet, numbered or check list item followed by a block that is none
/// of these gets a blank line between them: the list item's line (and its
/// children) is closed by one more `\n` before the next block's text.
pub proof fn lemma_blank_line_after_list(bs: Seq<JsonValue>, item: JsonValue, next: JsonValue, indent: Seq<char>)
    requires
        block_type(item) == "bulletListItem"@ || block_type(item) == "numberedListItem"@
            || block_type(item) == "checkListItem"@,
        !(block_type(next) == "bulletListItem"@ || block_type(next) == "numberedListItem"@
            || block_type(next) == "checkListItem"@),
    ensures
        blocks_fold(bs.push(item).push(next), indent).0 == blocks_fold(bs.push(item), indent).0
            + "\n"@ + block_body(next, indent, 0) + children_md(next, indent),
        blocks_md(bs.push(item), indent) == blocks_fold(bs.push(item), indent).0 + "\n"@,
{
    assert(bs.push(item).push(next).drop_last() =~= bs.push(item));
    assert(bs.push(item).drop_last() =~= bs);
}

/// A check list item is written as `- [x] ` (ticked) or `- [ ] ` and its
/// text; when a block that is not a list item follows, a blank line
/// separates the two, and a run of blocks ending in a check list item ends
/// in a blank line.
pub proof fn lemma_check_item_closes_run(bs: Seq<JsonValue>, item: JsonValue, next: JsonValue, indent: Seq<char>)
    requires
        block_type(item) == "checkListItem"@,
        !(block_type(next) == "bulletListItem"@ || block_type(next) == "numberedListItem"@
            || block_type(next) == "checkListItem"@),
    ensures
        blocks_fold(bs.push(item).push(next), indent).0 == blocks_fold(bs, indent).0 + indent
            + "- ["@ + (if is_checked(item) {
            "x"@
        } else {
            " "@
        }) + "] "@ + inline_content(field(item, "content"@)) + "\n"@ + children_md(item, indent)
            + "\n"@ + block_body(next, indent, 0) + children_md(next, indent),
        blocks_md(bs.push(item), indent) == blocks_fold(bs, indent).0 + indent + "- ["@ + (
        if is_checked(item) {
            "x"@
        } else {
            " "@
        }) + "] "@ + inline_content(field(item, "content"@)) + "\n"@ + children_md(item, indent)
            + "\n"@,
{
    reveal_strlit("checkListItem");
    reveal_strlit("heading");
    reveal_strlit("bulletListItem");
    reveal_strlit("numberedListItem");
    assert("checkListItem"@[0] != "heading"@[0]);
    assert("checkListItem"@.len() != "bulletListItem"@.len());
    assert("checkListItem"@.len() != "numberedListItem"@.len());
    lemma_blank_line_after_list(bs, item, next, indent);
    assert(bs.push(item).drop_last() =~= bs);
    let line = indent + "- ["@ + (if is_checked(item) {
        "x"@
    } else {
        " "@
    }) + "] "@ + inline_content(field(item, "content"@)) + "\n"@;
    assert(block_body(item, indent, 0) == line);
    assert(blocks_fold(bs.push(item), indent).0 =~= blocks_fold(bs, indent).0 + line + children_md(
        item,
        indent,
    ));
}

/// How many numbered list items end `bs`, one after another.
pub open spec fn trailing_numbered(bs: Seq<JsonValue>) -> nat
    decreases bs.len(),
{
    if bs.len() > 0 && block_type(bs.last()) == "numberedListItem"@ {
        trailing_numbered(bs.drop_last()) + 1
    } else {
        0
    }
}

proof fn lemma_fold_ordinal(bs: Seq<JsonValue>, indent: Seq<char>)
    ensures
        blocks_fold(bs, indent).1 == trailing_numbered(bs),
    decreases bs.len(),
{
    if bs.len() > 0 {
        lemma_fold_ordinal(bs.drop_last(), indent);
    }
}

/// A numbered list item is numbered one more than the numbered items that
/// directly precede it: a numbered list counts 1, 2, 3, … and starts again
/// at 1 after any other block.
pub proof fn lemma_numbered_item(bs: Seq<JsonValue>, item: JsonValue, indent: Seq<char>)
    requires
        block_type(item) == "numberedListItem"@,
    ensures
        blocks_fold(bs.push(item), indent).0 == blocks_fold(bs, indent).0 + indent + decimal(
            trailing_numbered(bs) + 1,
        ) + ". "@ + inline_content(field(item, "content"@)) + "\n"@ + children_md(item, indent),
        trailing_numbered(bs.push(item)) == trailing_numbered(bs) + 1,
{
    reveal_strlit("numberedListItem");
    reveal_strlit("heading");
    reveal_strlit("bulletListItem");
    assert("numberedListItem"@[0] != "heading"@[0]);
    assert("numberedListItem"@[0] != "bulletListItem"@[0]);
    lemma_fold_ordinal(bs, indent);
    assert(bs.push(item).drop_last() =~= bs);
    assert(blocks_fold(bs.push(item), indent).0 =~= blocks_fold(bs, indent).0 + block_body(
        item,
        indent,
        trailing_numbered(bs) + 1,
    ) + children_md(item, indent));
}

fn push_escaped(out: &mut String, s: &str)
    ensures
        final(out)@ == old(out)@ + escape_pipes(s@),
{
    let n: usize = s.unicode_len();
    let mut i: usize = 0;
    assert(s@.take(0) =~= Seq::<char>::empty());
    while i < n
        invariant
            n == s@.len(),
            0 <= i <= n,
            out@ == old(out)@ + escape_pipes(s@.take(i as int)),
        decreases n - i,
    {
        let c = s.get_char(i);
        if c == '|' {
            push_char(out, '\\');
            push_char(out, '|');
        } else {
            push_char(out, c);
        }
        assert(s@.take(i + 1).drop_last() =~= s@.take(i as int));
        i = i + 1;
        assert(out@ =~= old(out)@ + escape_pipes(s@.take(i as int)));
    }
    assert(s@.take(n as int) =~= s@);
}

fn push_row_line(out: &mut String, cells: &Vec<JsonValue>, indent: &str)
    ensures
        final(out)@ == old(out)@ + row_line(cells@, indent@),
{
    let ghost parts = cells@.map_values(|c: JsonValue| cell_md(c));
    out.append(indent);
    out.append("| ");
    let ghost start = out@;
    let mut k: usize = 0;
    while k < cells.len()
        invariant
            0 <= k <= cells@.len(),
            parts == cells@.map_values(|c: JsonValue| cell_md(c)),
            out@ == start + join(parts.take(k as int), " | "@),
        decreases cells.len() - k,
    {
        let cell = &cells[k];
        let inline = match cell.get("content") {
            Some(c) => c,
            None => cell,
        };
        let md = inline_content_to_markdown(Some(inline));
        if k > 0 {
            out.append(" | ");
        }
        push_escaped(out, md.as_str());
        assert(parts.take(k + 1).drop_last() =~= parts.take(k as int));
        assert(parts.take(k + 1).last() == cell_md(cells@[k as int]));
        k = k + 1;
        assert(out@ =~= start + join(parts.take(k as int), " | "@));
    }
    assert(parts.take(cells.len() as int) =~= parts);
    out.append(" |\n");
    assert(out@ =~= old(out)@ + row_line(cells@, indent@));
}

/// Appends a BlockNote table.
pub fn render_table(block: &JsonValue, indent: &str, out: &mut String)
    ensures
        final(out)@ == old(out)@ + table_md(*block, indent@),
{
    let rows = match array_in(get_in(block.get("content"), "rows")) {
        Some(rows) => rows,
        None => {
            assert(out@ =~= old(out)@ + table_md(*block, indent@));
            return;
        },
    };
    let mut seen = false;
    let mut i: usize = 0;
    assert(rows@.take(0) =~= Seq::<JsonValue>::empty());
    while i < rows.len()
        invariant
            0 <= i <= rows@.len(),
            out@ == old(out)@ + table_fold(rows@.take(i as int), indent@).0,
            seen == table_fold(rows@.take(i as int), indent@).1,
            as_array(field_of(field(*block, "content"@), "rows"@)) == Some(rows@),
            !seen ==> table_fold(rows@.take(i as int), indent@).0 == Seq::<char>::empty(),
        decreases rows.len() - i,
    {
        let row = &rows[i];
        assert(rows@.take(i + 1).drop_last() =~= rows@.take(i as int));
        assert(rows@.take(i + 1).last() == rows@[i as int]);
        match array_in(row.get("cells")) {
            Some(cells) => {
                push_row_line(out, cells, indent);
                if !seen {
                    out.append(indent);
                    out.append("|");
                    push_repeated(out, " --- |", cells.len());
                    out.append("\n");
                    seen = true;
                }
            },
            None => {},
        }
        i = i + 1;
        assert(out@ =~= old(out)@ + table_fold(rows@.take(i as int), indent@).0);
    }
    assert(rows@.take(rows.len() as int) =~= rows@);
    if seen {
        out.append("\n");
    }
    assert(out@ =~= old(out)@ + table_md(*block, indent@));
}

fn block_type_of(block: &JsonValue) -> (r: &str)
    ensures
        r@ == block_type(*block),
{
    match str_in(block.get("type")) {
        Some(t) => t,
        None => "paragraph",
    }
}

fn heading_level_of(block: &JsonValue) -> (r: usize)
    ensures
        r == heading_level(*block),
{
    let level: u64 = match u64_in(get_in(block.get("props"), "level")) {
        Some(n) => n,
        None => 1,
    };
    if level < 1 {
        1
    } else if level > 6 {
        6
    } else {
        level as usize
    }
}

fn push_check_item(block: &JsonValue, indent: &str, text: &str, out: &mut String)
    ensures
        final(out)@ == old(out)@ + indent@ + "- ["@ + (if is_checked(*block) {
            "x"@
        } else {
            " "@
        }) + "] "@ + text@ + "\n"@,
{
    let checked = match bool_in(get_in(block.get("props"), "checked")) {
        Some(b) => b,
        None => false,
    };
    out.append(indent);
    out.append("- [");
    out.append(if checked { "x" } else { " " });
    out.append("] ");
    out.append(text);
    out.append("\n");
    assert(out@ =~= old(out)@ + indent@ + "- ["@ + (if is_checked(*block) {
        "x"@
    } else {
        " "@
    }) + "] "@ + text@ + "\n"@);
}

fn push_code_block(block: &JsonValue, indent: &str, out: &mut String)
    ensures
        final(out)@ == old(out)@ + indent@ + "```"@ + str_or_empty(
            field_of(field(*block, "props"@), "language"@),
        ) + "\n"@ + plain_content(field(*block, "content"@)) + "\n"@ + indent@ + "```\n\n"@,
{
    proof {
        reveal_strlit("");
    }
    let language = match str_in(get_in(block.get("props"), "language")) {
        Some(l) => l,
        None => "",
    };
    let code = inline_content_to_plain_text(block.get("content"));
    out.append(indent);
    out.append("```");
    out.append(language);
    out.append("\n");
    out.append(code.as_str());
    out.append("\n");
    out.append(indent);
    out.append("```\n\n");
    assert(out@ =~= old(out)@ + indent@ + "```"@ + str_or_empty(
        field_of(field(*block, "props"@), "language"@),
    ) + "\n"@ + plain_content(field(*block, "content"@)) + "\n"@ + indent@ + "```\n\n"@);
}

/// Appends one block, without its children.
#[verifier::rlimit(30)]
fn render_block_body(block: &JsonValue, indent: &str, ordinal: usize, out: &mut String)
    ensures
        final(out)@ == old(out)@ + block_body(*block, indent@, ordinal as nat),
{
    let t = block_type_of(block);
    let text = inline_content_to_markdown(block.get("content"));
    let has_text = text.as_str().unicode_len() > 0;
    if text_is(t, "heading") {
        if has_text {
            out.append(indent);
            push_repeated(out, "#", heading_level_of(block));
            out.append(" ");
            out.append(text.as_str());
            out.append("\n\n");
        }
    } else if text_is(t, "bulletListItem") {
        out.append(indent);
        out.append("- ");
        out.append(text.as_str());
        out.append("\n");
    } else if text_is(t, "numberedListItem") {
        out.append(indent);
        push_decimal(out, ordinal as u64);
        out.append(". ");
        out.append(text.as_str());
        out.append("\n");
    } else if text_is(t, "checkListItem") {
        push_check_item(block, indent, text.as_str(), out);
    } else if text_is(t, "quote") {
        if has_text {
            out.append(indent);
            out.append("> ");
            out.append(text.as_str());
            out.append("\n\n");
        }
    } else if text_is(t, "codeBlock") {
        push_code_block(block, indent, out);
    } else if text_is(t, "table") {
        render_table(block, indent, out);
    } else {
        if has_text {
            out.append(indent);
            out.append(text.as_str());
            out.append("\n\n");
        }
    }
    assert(out@ =~= old(out)@ + block_body(*block, indent@, ordinal as nat));
}

proof fn lemma_item_decreases(items: Vec<JsonValue>, i: int)
    requires
        0 <= i < items@.len(),
    ensures
        decreases_to!(items@ => items@[i]),
{
}

/// Appends a list of blocks at one indentation.
pub fn render_blocks(blocks: &Vec<JsonValue>, indent: &str, out: &mut String)
    ensures
        final(out)@ == old(out)@ + blocks_md(blocks@, indent@),
    decreases blocks@,
{
    let mut ordinal: usize = 0;
    let mut previous_was_list = false;
    let mut i: usize = 0;
    assert(blocks@.take(0) =~= Seq::<JsonValue>::empty());
    while i < blocks.len()
        invariant
            0 <= i <= blocks@.len(),
            ordinal <= i,
            out@ == old(out)@ + blocks_fold(blocks@.take(i as int), indent@).0,
            ordinal == blocks_fold(blocks@.take(i as int), indent@).1,
            previous_was_list == blocks_fold(blocks@.take(i as int), indent@).2,
        decreases blocks.len() - i,
    {
        let block = &blocks[i];
        assert(blocks@.take(i + 1).drop_last() =~= blocks@.take(i as int));
        assert(blocks@.take(i + 1).last() == blocks@[i as int]);
        let t = block_type_of(block);
        let is_list = text_is(t, "bulletListItem") || text_is(t, "numberedListItem") || text_is(
            t,
            "checkListItem",
        );
        if previous_was_list && !is_list {
            out.append("\n");
        }
        ordinal = if text_is(t, "numberedListItem") {
            ordinal + 1
        } else {
            0
        };
        render_block_body(block, indent, ordinal, out);
        previous_was_list = is_list;
        let ghost after_body = out@;
        match array_in(block.get("children")) {
            Some(children) => {
                if children.len() > 0 {
                    let mut child_indent = String::from_str(indent);
                    child_indent.append("  ");
                    proof {
                        lemma_item_decreases(*blocks, i as int);
                        lemma_array_field_decreases(blocks@[i as int], "children"@);
                    }
                    render_blocks(children, child_indent.as_str(), out);
                }
            },
            None => {},
        }
        assert(out@ =~= after_body + children_md(blocks@[i as int], indent@));
        i = i + 1;
        assert(out@ =~= old(out)@ + blocks_fold(blocks@.take(i as int), indent@).0);
    }
    assert(blocks@.take(blocks.len() as int) =~= blocks@);
    if previous_was_list {
        out.append("\n");
    }
    assert(out@ =~= old(out)@ + blocks_md(blocks@, indent@));
}

/// Renders BlockNote blocks (the `summary_json` shape) as Markdown.
pub fn blocknote_to_markdown(blocks: &Vec<JsonValue>) -> (r: String)
    ensures
        r@ == blocknote_md(blocks@),
{
    let mut out = String::new();
    render_blocks(blocks, "", &mut out);
    proof {
        reveal_strlit("");
        assert(""@ =~= Seq::<char>::empty());
    }
    assert(out@ =~= blocknote_md(blocks@));
    out
}

} // verus!
