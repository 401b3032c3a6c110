use vstd::prelude::*;
use crate::blocknote::{blocknote_md, blocknote_to_markdown};
use crate::json::{
    JsonValue, array_in, as_array, as_str, deref_array, deref_str, deref_value, field, str_in,
    str_or_empty,
};
use crate::text::{
    blank, is_blank, lemma_trim_idempotent, text_is, trim, trim_end, trimmed, trimmed_end,
};

verus! {

/// Keys of a stored summary that are not user-visible sections.
pub open spec fn is_non_section_key(k: Seq<char>) -> bool {
    k == "markdown"@ || k == "summary_json"@ || k == "_section_order"@ || k == "MeetingName"@
        || k == "english_cache"@
}

/// The strings of an array, other elements skipped.
pub open spec fn strings_of(items: Seq<JsonValue>) -> Seq<Seq<char>>
    decreases items.len(),
{
    if items.len() == 0 {
        Seq::empty()
    } else {
        let init = strings_of(items.drop_last());
        match items.last() {
            JsonValue::Str(s) => init.push(s@),
            _ => init,
        }
    }
}

/// The sections to render, in order: `_section_order` when the document
/// has one, otherwise every key of the object in the order it lists them.
pub open spec fn section_keys(result: JsonValue) -> Seq<Seq<char>> {
    match as_array(field(result, "_section_order"@)) {
        Some(order) => strings_of(order),
        None => match result {
            JsonValue::Object(entries) => entries@.map_values(|e: (String, JsonValue)| e.0@),
            _ => Seq::empty(),
        },
    }
}

/// A legacy block's type, `text` when it has none.
pub open spec fn legacy_block_type(b: JsonValue) -> Seq<char> {
    match as_str(field(b, "type"@)) {
        Some(t) => t,
        None => "text"@,
    }
}

/// The body of a legacy section so far, and whether its last written block
/// was a bullet. Blocks with blank content are skipped.
pub open spec fn legacy_body(blocks: Seq<JsonValue>) -> (Seq<char>, bool)
    decreases blocks.len(),
{
    if blocks.len() == 0 {
        (Seq::empty(), false)
    } else {
        let (body, prev_bullet) = legacy_body(blocks.drop_last());
        let b = blocks.last();
        let content = trim(str_or_empty(field(b, "content"@)));
        if content.len() == 0 {
            (body, prev_bullet)
        } else {
            let t = legacy_block_type(b);
            let bullet = t == "bullet"@;
            let separator = if prev_bullet && !bullet {
                "\n"@
            } else {
                Seq::empty()
            };
            let line = if t == "heading1"@ {
                "### "@ + content + "\n\n"@
            } else if t == "heading2"@ {
                "#### "@ + content + "\n\n"@
            } else if bullet {
                "- "@ + content + "\n"@
            } else {
                content + "\n\n"@
            };
            (body + separator + line, bullet)
        }
    }
}

/// A section's heading: its trimmed title, or the key when that is blank.
pub open spec fn section_title(section: JsonValue, key: Seq<char>) -> Seq<char> {
    match as_str(field(section, "title"@)) {
        Some(t) => if trim(t).len() > 0 {
            trim(t)
        } else {
            key
        },
        None => key,
    }
}

/// One legacy section: nothing for the reserved keys, for a missing
/// section, for one without a `blocks` array and for one whose body is
/// blank.
pub open spec fn section_md(result: JsonValue, key: Seq<char>) -> Seq<char> {
    if is_non_section_key(key) {
        Seq::empty()
    } else {
        match field(result, key) {
            None => Seq::empty(),
            Some(section) => match as_array(field(section, "blocks"@)) {
                None => Seq::empty(),
                Some(blocks) => {
                    let body = legacy_body(blocks).0;
                    if is_blank(body) {
                        Seq::empty()
                    } else {
                        "## "@ + section_title(section, key) + "\n\n"@ + trim_end(body) + "\n\n"@
                    }
                },
            },
        }
    }
}

pub open spec fn sections_md(result: JsonValue, keys: Seq<Seq<char>>) -> Seq<char>
    decreases keys.len(),
{
    if keys.len() == 0 {
        Seq::empty()
    } else {
        sections_md(result, keys.drop_last()) + section_md(result, keys.last())
    }
}

/// The earliest stored summary format: a map of section key to
/// `{ title, blocks: [{ type, content }] }`.
pub open spec fn legacy_md(result: JsonValue) -> Seq<char> {
    match result {
        JsonValue::Object(_) => sections_md(result, section_keys(result)),
        _ => Seq::empty(),
    }
}

/// The stored `markdown` string, if any.
pub open spec fn markdown_text(result: JsonValue) -> Option<Seq<char>> {
    as_str(field(result, "markdown"@))
}

/// The rendered BlockNote `summary_json` blocks, if there are any.
pub open spec fn blocks_text(result: JsonValue) -> Option<Seq<char>> {
    match as_array(field(result, "summary_json"@)) {
        Some(blocks) => Some(blocknote_md(blocks)),
        None => None,
    }
}

/// Present and not blank.
pub open spec fn usable(o: Option<Seq<char>>) -> bool {
    o is Some && !is_blank(o.unwrap())
}

/// The summary Markdown of a stored result: its `markdown` string when that
/// is not blank, else its BlockNote `summary_json` blocks when they render
/// to something, else its legacy sections; trimmed, and `None` when all
/// three are blank.
pub open spec fn summary_md(result: JsonValue) -> Option<Seq<char>> {
    if usable(markdown_text(result)) {
        Some(trim(markdown_text(result).unwrap()))
    } else if usable(blocks_text(result)) {
        Some(trim(blocks_text(result).unwrap()))
    } else if !is_blank(legacy_md(result)) {
        Some(trim(legacy_md(result)))
    } else {
        None
    }
}

/// A summary that is shown is never blank and has no whitespace at either
/// end.
pub proof fn lemma_summary_is_trimmed(result: JsonValue)
    ensures
        summary_md(result) matches Some(s) ==> s.len() > 0 && trim(s) == s,
{
    if let Some(m) = as_str(field(result, "markdown"@)) {
        lemma_trim_idempotent(m);
    }
    if let Some(b) = as_array(field(result, "summary_json"@)) {
        lemma_trim_idempotent(blocknote_md(b));
    }
    lemma_trim_idempotent(legacy_md(result));
}

/// The reserved keys (`markdown`, `summary_json`, `_section_order`,
/// `MeetingName`, `english_cache`) never render as legacy sections.
pub proof fn lemma_reserved_keys_never_render(result: JsonValue, key: Seq<char>)
    requires
        is_non_section_key(key),
    ensures
        section_md(result, key) == Seq::<char>::empty(),
{
}

/// Rendering the sections of two lists of keys one after the other is
/// rendering the sections of the joined list: sections come out in the
/// order of their keys.
pub proof fn lemma_sections_concat(result: JsonValue, first: Seq<Seq<char>>, second: Seq<Seq<char>>)
    ensures
        sections_md(result, first + second) == sections_md(result, first) + sections_md(
            result,
            second,
        ),
    decreases second.len(),
{
    if second.len() == 0 {
        assert(first + second =~= first);
        assert(sections_md(result, first) + Seq::<char>::empty() =~= sections_md(result, first));
    } else {
        assert((first + second).drop_last() =~= first + second.drop_last());
        assert((first + second).last() == second.last());
        lemma_sections_concat(result, first, second.drop_last());
        assert(sections_md(result, first + second) =~= sections_md(result, first) + (sections_md(
            result,
            second.drop_last(),
        ) + section_md(result, second.last())));
    }
}

/// The sections of a single key are that key's section.
pub proof fn lemma_sections_single(result: JsonValue, key: Seq<char>)
    ensures
        sections_md(result, seq![key]) == section_md(result, key),
{
    assert(seq![key].drop_last() =~= Seq::<Seq<char>>::empty());
    assert(seq![key].last() == key);
    assert(sections_md(result, Seq::<Seq<char>>::empty()) == Seq::<char>::empty());
    assert(Seq::<char>::empty() + section_md(result, key) =~= section_md(result, key));
}

/// The strings of an array of strings are its elements, in order.
pub proof fn lemma_strings_of_strings(items: Seq<JsonValue>)
    requires
        forall|i: int| 0 <= i < items.len() ==> #[trigger] items[i] is Str,
    ensures
        strings_of(items).len() == items.len(),
        forall|i: int|
            0 <= i < items.len() ==> #[trigger] strings_of(items)[i] == items[i]->Str_0@,
    decreases items.len(),
{
    if items.len() > 0 {
        let init = items.drop_last();
        assert forall|i: int| 0 <= i < init.len() implies #[trigger] init[i] is Str by {
            assert(init[i] == items[i]);
        }
        lemma_strings_of_strings(init);
        assert(items[items.len() - 1] is Str);
        assert forall|i: int| 0 <= i < items.len() implies #[trigger] strings_of(items)[i]
            == items[i]->Str_0@ by {
            if i < init.len() {
                assert(strings_of(items)[i] == strings_of(init)[i]);
                assert(init[i] == items[i]);
            }
        }
    }
}

/// When the stored result is an object whose `_section_order` member is an
/// array, the legacy sections are those of the strings of that array, in
/// that order.
pub proof fn lemma_section_order_governs(result: JsonValue, order: Seq<JsonValue>)
    requires
        result is Object,
        as_array(field(result, "_section_order"@)) == Some(order),
    ensures
        legacy_md(result) == sections_md(result, strings_of(order)),
{
}

proof fn lemma_sections_same_fields(a: JsonValue, b: JsonValue, keys: Seq<Seq<char>>)
    requires
        forall|k: Seq<char>| #[trigger] field(a, k) == field(b, k),
    ensures
        sections_md(a, keys) == sections_md(b, keys),
    decreases keys.len(),
{
    if keys.len() > 0 {
        lemma_sections_same_fields(a, b, keys.drop_last());
        assert(field(a, keys.last()) == field(b, keys.last()));
        assert(section_md(a, keys.last()) == section_md(b, keys.last()));
    }
}

/// With a `_section_order` array, the order in which the object lists its
/// own members does not matter: two objects whose members agree render the
/// same legacy sections.
pub proof fn lemma_member_order_irrelevant(a: JsonValue, b: JsonValue)
    requires
        a is Object,
        b is Object,
        forall|k: Seq<char>| #[trigger] field(a, k) == field(b, k),
        as_array(field(a, "_section_order"@)) is Some,
    ensures
        legacy_md(a) == legacy_md(b),
{
    assert(field(a, "_section_order"@) == field(b, "_section_order"@));
    lemma_sections_same_fields(a, b, section_keys(a));
}

pub open spec fn opt_string_view(o: Option<String>) -> Option<Seq<char>> {
    match o {
        Some(s) => Some(s@),
        None => None,
    }
}

fn is_non_section(key: &str) -> (r: bool)
    ensures
        r == is_non_section_key(key@),
{
    text_is(key, "markdown") || text_is(key, "summary_json") || text_is(key, "_section_order")
        || text_is(key, "MeetingName") || text_is(key, "english_cache")
}

fn section_keys_of(result: &JsonValue) -> (r: Vec<String>)
    ensures
        r@.map_values(|k: String| k@) == section_keys(*result),
{
    let mut keys: Vec<String> = Vec::new();
    match array_in(result.get("_section_order")) {
        Some(order) => {
            let mut i: usize = 0;
            assert(order@.take(0) =~= Seq::<JsonValue>::empty());
            while i < order.len()
                invariant
                    0 <= i <= order@.len(),
                    keys@.map_values(|k: String| k@) == strings_of(order@.take(i as int)),
                decreases order.len() - i,
            {
                assert(order@.take(i + 1).drop_last() =~= order@.take(i as int));
                assert(order@.take(i + 1).last() == order@[i as int]);
                match &order[i] {
                    JsonValue::Str(s) => {
                        keys.push(s.clone());
                    },
                    _ => {},
                }
                i = i + 1;
                assert(keys@.map_values(|k: String| k@) =~= strings_of(order@.take(i as int)));
            }
            assert(order@.take(order.len() as int) =~= order@);
        },
        None => {
            match result {
                JsonValue::Object(entries) => {
                    let mut i: usize = 0;
                    while i < entries.len()
                        invariant
                            0 <= i <= entries@.len(),
                            keys@.len() == i,
                            forall|j: int| 0 <= j < i ==> keys@[j]@ == entries@[j].0@,
                            keys@.map_values(|k: String| k@) =~= entries@.take(i as int).map_values(
                                |e: (String, JsonValue)| e.0@,
                            ),
                        decreases entries.len() - i,
                    {
                        let k = entries[i].0.clone();
                        keys.push(k);
                        assert(keys@[i as int]@ == entries@[i as int].0@);
                        i = i + 1;
                        assert(keys@.map_values(|k: String| k@) =~= entries@.take(
                            i as int,
                        ).map_values(|e: (String, JsonValue)| e.0@));
                    }
                    assert(entries@.take(entries.len() as int) =~= entries@);
                },
                _ => {},
            }
        },
    }
    keys
}

/// The body of one legacy section.
fn legacy_section_body(blocks: &Vec<JsonValue>) -> (r: String)
    ensures
        r@ == legacy_body(blocks@).0,
{
    let mut body = String::new();
    let mut previous_was_bullet = false;
    let mut i: usize = 0;
    assert(blocks@.take(0) =~= Seq::<JsonValue>::empty());
    while i < blocks.len()
        invariant
            0 <= i <= blocks@.len(),
            body@ == legacy_body(blocks@.take(i as int)).0,
            previous_was_bullet == legacy_body(blocks@.take(i as int)).1,
        decreases blocks.len() - i,
    {
        let block = &blocks[i];
        assert(blocks@.take(i + 1).drop_last() =~= blocks@.take(i as int));
        assert(blocks@.take(i + 1).last() == blocks@[i as int]);
        proof {
            reveal_strlit("");
        }
        let raw = match str_in(block.get("content")) {
            Some(c) => c,
            None => "",
        };
        let content = trimmed(raw);
        if content.as_str().unicode_len() > 0 {
            let t = match str_in(block.get("type")) {
                Some(t) => t,
                None => "text",
            };
            let is_bullet = text_is(t, "bullet");
            if previous_was_bullet && !is_bullet {
                body.append("\n");
            }
            if text_is(t, "heading1") {
                body.append("### ");
                body.append(content.as_str());
                body.append("\n\n");
            } else if text_is(t, "heading2") {
                body.append("#### ");
                body.append(content.as_str());
                body.append("\n\n");
            } else if is_bullet {
                body.append("- ");
                body.append(content.as_str());
                body.append("\n");
            } else {
                body.append(content.as_str());
                body.append("\n\n");
            }
            previous_was_bullet = is_bullet;
        }
        i = i + 1;
        assert(body@ =~= legacy_body(blocks@.take(i as int)).0);
    }
    assert(blocks@.take(blocks.len() as int) =~= blocks@);
    body
}

/// Appends one legacy section.
fn push_section(result: &JsonValue, key: &str, out: &mut String)
    ensures
        final(out)@ == old(out)@ + section_md(*result, key@),
{
    if is_non_section(key) {
        assert(out@ =~= old(out)@ + section_md(*result, key@));
        return;
    }
    let section = match result.get(key) {
        Some(s) => s,
        None => {
            assert(out@ =~= old(out)@ + section_md(*result, key@));
            return;
        },
    };
    let blocks = match array_in(section.get("blocks")) {
        Some(b) => b,
        None => {
            assert(out@ =~= old(out)@ + section_md(*result, key@));
            return;
        },
    };
    let body = legacy_section_body(blocks);
    if blank(body.as_str()) {
        assert(out@ =~= old(out)@ + section_md(*result, key@));
        return;
    }
    let title = match str_in(section.get("title")) {
        Some(t) => {
            let tt = trimmed(t);
            if tt.as_str().unicode_len() > 0 {
                tt
            } else {
                String::from_str(key)
            }
        },
        None => String::from_str(key),
    };
    out.append("## ");
    out.append(title.as_str());
    out.append("\n\n");
    let body_end = trimmed_end(body.as_str());
    out.append(body_end.as_str());
    out.append("\n\n");
    assert(out@ =~= old(out)@ + section_md(*result, key@));
}

/// Renders the earliest stored summary format: a map of section key to
/// `{ title, blocks: [{ type, content }] }`.
pub fn legacy_sections_to_markdown(result: &JsonValue) -> (r: String)
    ensures
        r@ == legacy_md(*result),
{
    let mut out = String::new();
    match result {
        JsonValue::Object(_) => {},
        _ => {
            return out;
        },
    }
    let keys = section_keys_of(result);
    let ghost key_views = keys@.map_values(|k: String| k@);
    let mut i: usize = 0;
    assert(key_views.take(0) =~= Seq::<Seq<char>>::empty());
    while i < keys.len()
        invariant
            0 <= i <= keys@.len(),
            key_views == keys@.map_values(|k: String| k@),
            out@ == sections_md(*result, key_views.take(i as int)),
        decreases keys.len() - i,
    {
        assert(key_views.take(i + 1).drop_last() =~= key_views.take(i as int));
        assert(key_views.take(i + 1).last() == keys@[i as int]@);
        push_section(result, keys[i].as_str(), &mut out);
        i = i + 1;
    }
    assert(key_views.take(keys.len() as int) =~= key_views);
    out
}

/// Converts a stored summary result into Markdown.
///
/// Handles the three shapes that have been stored over time: a plain
/// `markdown` string, BlockNote `summary_json` blocks, and the earliest
/// per-section block format.
pub fn summary_to_markdown(result: &JsonValue) -> (r: Option<String>)
    ensures
        opt_string_view(r) == summary_md(*result),
{
    match str_in(result.get("markdown")) {
        Some(markdown) => {
            let t = trimmed(markdown);
            if t.as_str().unicode_len() > 0 {
                return Some(t);
            }
        },
        None => {},
    }
    match array_in(result.get("summary_json")) {
        Some(blocks) => {
            let rendered = blocknote_to_markdown(blocks);
            let t = trimmed(rendered.as_str());
            if t.as_str().unicode_len() > 0 {
                return Some(t);
            }
        },
        None => {},
    }
    let legacy = legacy_sections_to_markdown(result);
    let t = trimmed(legacy.as_str());
    if t.as_str().unicode_len() > 0 {
        Some(t)
    } else {
        None
    }
}

} // verus!
