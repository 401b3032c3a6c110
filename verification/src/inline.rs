use vstd::prelude::*;
use crate::json::{
    JsonValue, as_bool, as_str, bool_in, deref_value, field, lemma_field_decreases, str_in,
    str_or_empty,
};
use crate::text::text_is;

verus! {

/// Whether the style flag `key` is set to `true`.
pub open spec fn style_enabled(styles: JsonValue, key: Seq<char>) -> bool {
    as_bool(field(styles, key)) == Some(true)
}

/// A text run with its BlockNote styles applied: `code` wins outright,
/// otherwise bold, italic and strike wrap the text in that order.
pub open spec fn styled(text: Seq<char>, styles: Option<JsonValue>) -> Seq<char> {
    if text.len() == 0 {
        Seq::empty()
    } else {
        match styles {
            None => text,
            Some(st) => if style_enabled(st, "code"@) {
                "`"@ + text + "`"@
            } else {
                let bold = if style_enabled(st, "bold"@) {
                    "**"@ + text + "**"@
                } else {
                    text
                };
                let italic = if style_enabled(st, "italic"@) {
                    "*"@ + bold + "*"@
                } else {
                    bold
                };
                if style_enabled(st, "strike"@) {
                    "~~"@ + italic + "~~"@
                } else {
                    italic
                }
            },
        }
    }
}

/// Markdown for BlockNote inline content: a plain string, or an array of
/// text runs and links; anything else renders as nothing.
pub open spec fn inline_value(v: JsonValue) -> Seq<char>
    decreases v,
{
    match v {
        JsonValue::Str(t) => t@,
        JsonValue::Array(items) => {
            proof {
                assert(decreases_to!(v => items));
                assert(decreases_to!(items => items@));
            }
            inline_items(items@)
        },
        _ => Seq::empty(),
    }
}

pub open spec fn inline_items(items: Seq<JsonValue>) -> Seq<char>
    decreases items,
{
    if items.len() == 0 {
        Seq::empty()
    } else {
        proof {
            assert(decreases_to!(items => items[items.len() - 1]));
        }
        inline_items(items.drop_last()) + inline_item(items.last())
    }
}

/// One inline item: a link renders as `[label](href)` (or just its label
/// when it has no target), a text run as its styled text.
pub open spec fn inline_item(item: JsonValue) -> Seq<char>
    decreases item,
{
    if as_str(field(item, "type"@)) == Some("link"@) {
        proof {
            lemma_field_decreases(item, "content"@);
        }
        let label = match field(item, "content"@) {
            Some(c) => inline_value(c),
            None => Seq::empty(),
        };
        let href = str_or_empty(field(item, "href"@));
        if href.len() == 0 {
            label
        } else {
            "["@ + label + "]("@ + href + ")"@
        }
    } else {
        styled(str_or_empty(field(item, "text"@)), field(item, "styles"@))
    }
}

/// Markdown for optional inline content.
pub open spec fn inline_content(o: Option<JsonValue>) -> Seq<char> {
    match o {
        Some(v) => inline_value(v),
        None => Seq::empty(),
    }
}

/// The bare text of inline content, styles and link targets dropped.
pub open spec fn plain_value(v: JsonValue) -> Seq<char>
    decreases v,
{
    match v {
        JsonValue::Str(t) => t@,
        JsonValue::Array(items) => {
            proof {
                assert(decreases_to!(v => items));
                assert(decreases_to!(items => items@));
            }
            plain_items(items@)
        },
        _ => Seq::empty(),
    }
}

pub open spec fn plain_items(items: Seq<JsonValue>) -> Seq<char>
    decreases items,
{
    if items.len() == 0 {
        Seq::empty()
    } else {
        proof {
            assert(decreases_to!(items => items[items.len() - 1]));
        }
        plain_items(items.drop_last()) + plain_item(items.last())
    }
}

pub open spec fn plain_item(item: JsonValue) -> Seq<char>
    decreases item,
{
    match as_str(field(item, "text"@)) {
        Some(t) => t,
        None => {
            proof {
                lemma_field_decreases(item, "content"@);
            }
            match field(item, "content"@) {
                Some(c) => plain_value(c),
                None => Seq::empty(),
            }
        },
    }
}

/// The bare text of optional inline content.
pub open spec fn plain_content(o: Option<JsonValue>) -> Seq<char> {
    match o {
        Some(v) => plain_value(v),
        None => Seq::empty(),
    }
}

fn style_on(styles: &JsonValue, key: &str) -> (r: bool)
    ensures
        r == style_enabled(*styles, key@),
{
    match bool_in(styles.get(key)) {
        Some(b) => b,
        None => false,
    }
}

/// Applies BlockNote text styles to a run of text.
pub fn apply_styles(text: &str, styles: Option<&JsonValue>) -> (r: String)
    ensures
        r@ == styled(text@, deref_value(styles)),
{
    if text.unicode_len() == 0 {
        return String::new();
    }
    let st = match styles {
        None => {
            return String::from_str(text);
        },
        Some(st) => st,
    };
    if style_on(st, "code") {
        let mut out = String::from_str("`");
        out.append(text);
        out.append("`");
        return out;
    }
    let mut out = String::from_str(text);
    if style_on(st, "bold") {
        let mut w = String::from_str("**");
        w.append(out.as_str());
        w.append("**");
        out = w;
    }
    if style_on(st, "italic") {
        let mut w = String::from_str("*");
        w.append(out.as_str());
        w.append("*");
        out = w;
    }
    if style_on(st, "strike") {
        let mut w = String::from_str("~~");
        w.append(out.as_str());
        w.append("~~");
        out = w;
    }
    out
}

proof fn lemma_array_item_decreases(v: JsonValue, items: Vec<JsonValue>, i: int)
    requires
        v == JsonValue::Array(items),
        0 <= i < items@.len(),
    ensures
        decreases_to!(v => items@[i]),
{
    if let JsonValue::Array(its) = v {
        assert(its == items);
        assert(decreases_to!(v => its));
        assert(decreases_to!(its => its@));
        assert(decreases_to!(its@ => its@[i]));
    }
}

/// Appends the Markdown for an inline value.
fn push_inline_value(v: &JsonValue, out: &mut String)
    ensures
        final(out)@ == old(out)@ + inline_value(*v),
    decreases *v,
{
    match v {
        JsonValue::Str(t) => {
            out.append(t.as_str());
        },
        JsonValue::Array(items) => {
            let mut i: usize = 0;
            assert(items@.take(0) =~= Seq::<JsonValue>::empty());
            while i < items.len()
                invariant
                    0 <= i <= items@.len(),
                    *v == JsonValue::Array(*items),
                    out@ == old(out)@ + inline_items(items@.take(i as int)),
                decreases items.len() - i,
            {
                proof {
                    lemma_array_item_decreases(*v, *items, i as int);
                }
                push_inline_item(&items[i], out);
                assert(items@.take(i + 1).drop_last() =~= items@.take(i as int));
                i = i + 1;
                assert(out@ =~= old(out)@ + inline_items(items@.take(i as int)));
            }
            assert(items@.take(items.len() as int) =~= items@);
        },
        _ => {
            assert(out@ =~= old(out)@ + inline_value(*v));
        },
    }
}

/// Appends the Markdown for one inline item.
fn push_inline_item(item: &JsonValue, out: &mut String)
    ensures
        final(out)@ == old(out)@ + inline_item(*item),
    decreases *item,
{
    let kind = str_in(item.get("type"));
    let is_link = match kind {
        Some(k) => text_is(k, "link"),
        None => false,
    };
    if is_link {
        let mut label = String::new();
        match item.get("content") {
            Some(c) => {
                proof {
                    lemma_field_decreases(*item, "content"@);
                }
                push_inline_value(c, &mut label);
            },
            None => {},
        }
        proof {
            reveal_strlit("");
        }
        let href = match str_in(item.get("href")) {
            Some(h) => h,
            None => "",
        };
        if href.unicode_len() == 0 {
            out.append(label.as_str());
        } else {
            out.append("[");
            out.append(label.as_str());
            out.append("](");
            out.append(href);
            out.append(")");
        }
        assert(out@ =~= old(out)@ + inline_item(*item));
    } else {
        proof {
            reveal_strlit("");
        }
        let text = match str_in(item.get("text")) {
            Some(t) => t,
            None => "",
        };
        let s = apply_styles(text, item.get("styles"));
        out.append(s.as_str());
    }
}

/// Markdown for optional inline content.
pub fn inline_content_to_markdown(content: Option<&JsonValue>) -> (r: String)
    ensures
        r@ == inline_content(deref_value(content)),
{
    let mut out = String::new();
    match content {
        Some(v) => push_inline_value(v, &mut out),
        None => {},
    }
    assert(out@ =~= inline_content(deref_value(content)));
    out
}

/// Appends the bare text of an inline value.
fn push_plain_value(v: &JsonValue, out: &mut String)
    ensures
        final(out)@ == old(out)@ + plain_value(*v),
    decreases *v,
{
    match v {
        JsonValue::Str(t) => {
            out.append(t.as_str());
        },
        JsonValue::Array(items) => {
            let mut i: usize = 0;
            assert(items@.take(0) =~= Seq::<JsonValue>::empty());
            while i < items.len()
                invariant
                    0 <= i <= items@.len(),
                    *v == JsonValue::Array(*items),
                    out@ == old(out)@ + plain_items(items@.take(i as int)),
                decreases items.len() - i,
            {
                proof {
                    lemma_array_item_decreases(*v, *items, i as int);
                }
                push_plain_item(&items[i], out);
                assert(items@.take(i + 1).drop_last() =~= items@.take(i as int));
                i = i + 1;
                assert(out@ =~= old(out)@ + plain_items(items@.take(i as int)));
            }
            assert(items@.take(items.len() as int) =~= items@);
        },
        _ => {
            assert(out@ =~= old(out)@ + plain_value(*v));
        },
    }
}

fn push_plain_item(item: &JsonValue, out: &mut String)
    ensures
        final(out)@ == old(out)@ + plain_item(*item),
    decreases *item,
{
    match str_in(item.get("text")) {
        Some(t) => {
            out.append(t);
        },
        None => {
            match item.get("content") {
                Some(c) => {
                    proof {
                        lemma_field_decreases(*item, "content"@);
                    }
                    push_plain_value(c, out);
                },
                None => {
                    assert(out@ =~= old(out)@ + plain_item(*item));
                },
            }
        },
    }
}

/// The bare text of optional inline content, as a code block shows it.
pub fn inline_content_to_plain_text(content: Option<&JsonValue>) -> (r: String)
    ensures
        r@ == plain_content(deref_value(content)),
{
    let mut out = String::new();
    match content {
        Some(v) => push_plain_value(v, &mut out),
        None => {},
    }
    assert(out@ =~= plain_content(deref_value(content)));
    out
}

} // verus!
