use vstd::prelude::*;
use crate::clock::{
    date_part, date_text, is_digit, lemma_patterns_differ, near_written_date, now_in_local_time,
    rfc3339_accepts, rfc3339_in_local_time,
};
use crate::text::{
    is_white_space, lemma_trim_end_prefix, lemma_trim_end_stable, lemma_trim_start_stable,
    lemma_trim_start_suffix, push_char, trim, trim_end, trim_start, trimmed,
};

verus! {

/// Whether a character is alphabetic or numeric in Unicode's sense: the
/// result of `char::is_alphanumeric`.
pub uninterp spec fn is_alphanumeric(c: char) -> bool;

/// The lowercase mapping of a character: what `char::to_lowercase` yields.
pub uninterp spec fn lowercase_of(c: char) -> Seq<char>;

/// Calls `char::is_alphanumeric`. Claimed: the result is
/// `is_alphanumeric(c)`; nothing is stated of which characters qualify.
#[verifier::external_body]
fn char_is_alphanumeric(c: char) -> (r: bool)
    ensures
        r == is_alphanumeric(c),
{
    c.is_alphanumeric()
}

/// Calls `char::to_lowercase` and collects what it yields. Claimed: the text
/// is `lowercase_of(c)`, one or more characters, as the documentation says.
#[verifier::external_body]
fn char_to_lowercase(c: char) -> (r: String)
    ensures
        r@ == lowercase_of(c),
        r@.len() >= 1,
{
    c.to_lowercase().collect()
}

/// The slug built so far from a title's characters, and whether it ends in
/// a separator: each alphanumeric character is lowercased, each run of
/// other characters after some slug text becomes one `-`.
pub open spec fn slug_fold(chars: Seq<char>) -> (Seq<char>, bool)
    decreases chars.len(),
{
    if chars.len() == 0 {
        (Seq::empty(), false)
    } else {
        let (slug, trailing_dash) = slug_fold(chars.drop_last());
        let c = chars.last();
        if is_alphanumeric(c) {
            (slug + lowercase_of(c), false)
        } else if !trailing_dash && slug.len() > 0 {
            (slug.push('-'), true)
        } else {
            (slug, trailing_dash)
        }
    }
}

/// At most the first `n` characters of `s`.
pub open spec fn first_chars(s: Seq<char>, n: nat) -> Seq<char> {
    if s.len() <= n {
        s
    } else {
        s.take(n as int)
    }
}

/// `s` without leading `-`.
pub open spec fn strip_leading_dashes(s: Seq<char>) -> Seq<char>
    decreases s.len(),
{
    if s.len() > 0 && s[0] == '-' {
        strip_leading_dashes(s.drop_first())
    } else {
        s
    }
}

/// `s` without trailing `-`.
pub open spec fn strip_trailing_dashes(s: Seq<char>) -> Seq<char>
    decreases s.len(),
{
    if s.len() > 0 && s.last() == '-' {
        strip_trailing_dashes(s.drop_last())
    } else {
        s
    }
}

/// The filename stem for a title: the slug of the trimmed title cut to 60
/// characters, without `-` at either end, or `meeting` when nothing is left.
pub open spec fn slug(title: Seq<char>) -> Seq<char> {
    let s = strip_trailing_dashes(
        strip_leading_dashes(first_chars(slug_fold(trim(title)).0, 60)),
    );
    if s.len() == 0 {
        "meeting"@
    } else {
        s
    }
}

/// `<slug>-<date>.md`.
pub open spec fn filename_of(title: Seq<char>, date: Seq<char>) -> Seq<char> {
    slug(title) + "-"@ + date + ".md"@
}

proof fn lemma_strip_leading(s: Seq<char>)
    ensures
        strip_leading_dashes(s).len() <= s.len(),
        strip_leading_dashes(s).len() > 0 ==> strip_leading_dashes(s)[0] != '-',
        exists|i: int| 0 <= i <= s.len() && strip_leading_dashes(s) == s.skip(i),
    decreases s.len(),
{
    if s.len() > 0 && s[0] == '-' {
        lemma_strip_leading(s.drop_first());
        let i: int = choose|i: int|
            0 <= i <= s.drop_first().len() && strip_leading_dashes(s.drop_first())
                == s.drop_first().skip(i);
        assert(s.drop_first().skip(i) =~= s.skip(i + 1));
    } else {
        assert(s.skip(0) =~= s);
    }
}

proof fn lemma_strip_trailing(s: Seq<char>)
    ensures
        strip_trailing_dashes(s).len() <= s.len(),
        strip_trailing_dashes(s).len() > 0 ==> strip_trailing_dashes(s).last() != '-',
        strip_trailing_dashes(s).len() > 0 && s.len() > 0 && s[0] != '-'
            ==> strip_trailing_dashes(s)[0] != '-',
        exists|j: int| 0 <= j <= s.len() && strip_trailing_dashes(s) == s.take(j),
    decreases s.len(),
{
    if s.len() > 0 && s.last() == '-' {
        lemma_strip_trailing(s.drop_last());
        let j: int = choose|j: int|
            0 <= j <= s.drop_last().len() && strip_trailing_dashes(s.drop_last())
                == s.drop_last().take(j);
        assert(s.drop_last().take(j) =~= s.take(j));
    } else {
        assert(s.take(s.len() as int) =~= s);
    }
}

/// A filename stem is never empty, has at most 60 characters, and neither
/// starts nor ends with `-`.
pub proof fn lemma_slug_shape(title: Seq<char>)
    ensures
        1 <= slug(title).len() <= 60,
        slug(title)[0] != '-',
        slug(title).last() != '-',
{
    let cut = first_chars(slug_fold(trim(title)).0, 60);
    lemma_strip_leading(cut);
    let lead = strip_leading_dashes(cut);
    lemma_strip_trailing(lead);
    let s = strip_trailing_dashes(lead);
    if s.len() == 0 {
        reveal_strlit("meeting");
    }
}

/// `c` comes from lowercasing one of the alphanumeric characters of `chars`.
pub open spec fn from_alphanumeric(chars: Seq<char>, c: char) -> bool {
    exists|j: int|
        0 <= j < chars.len() && is_alphanumeric(chars[j]) && #[trigger] lowercase_of(
            chars[j],
        ).contains(c)
}

/// Every character of `s` is a `-` or comes from lowercasing an
/// alphanumeric character of `chars`.
pub open spec fn safe_chars(s: Seq<char>, chars: Seq<char>) -> bool {
    forall|k: int| 0 <= k < s.len() ==> s[k] == '-' || from_alphanumeric(chars, #[trigger] s[k])
}

proof fn lemma_fold_safe(chars: Seq<char>)
    ensures
        safe_chars(slug_fold(chars).0, chars),
    decreases chars.len(),
{
    if chars.len() > 0 {
        let init = chars.drop_last();
        lemma_fold_safe(init);
        let prev = slug_fold(init).0;
        let c = chars.last();
        let out = slug_fold(chars).0;
        assert forall|k: int| 0 <= k < out.len() implies out[k] == '-' || from_alphanumeric(
            chars,
            #[trigger] out[k],
        ) by {
            if k < prev.len() {
                assert(out[k] == prev[k]);
                if prev[k] != '-' {
                    let j: int = choose|j: int|
                        0 <= j < init.len() && is_alphanumeric(init[j]) && #[trigger] lowercase_of(
                            init[j],
                        ).contains(prev[k]);
                    assert(init[j] == chars[j]);
                }
            } else if is_alphanumeric(c) {
                assert(out == prev + lowercase_of(c));
                assert(out[k] == lowercase_of(c)[k - prev.len()]);
                assert(lowercase_of(chars[chars.len() - 1]).contains(out[k]));
            }
        }
    }
}

proof fn lemma_safe_subrange(s: Seq<char>, chars: Seq<char>, i: int, j: int)
    requires
        safe_chars(s, chars),
        0 <= i <= j <= s.len(),
    ensures
        safe_chars(s.subrange(i, j), chars),
{
    assert forall|k: int| 0 <= k < s.subrange(i, j).len() implies s.subrange(i, j)[k] == '-'
        || from_alphanumeric(chars, #[trigger] s.subrange(i, j)[k]) by {
        assert(s.subrange(i, j)[k] == s[i + k]);
    }
}

proof fn lemma_safe_wider(s: Seq<char>, chars: Seq<char>, title: Seq<char>, a: int, b: int)
    requires
        safe_chars(s, chars),
        0 <= a <= b <= title.len(),
        chars == title.subrange(a, b),
    ensures
        safe_chars(s, title),
{
    assert forall|k: int| 0 <= k < s.len() implies s[k] == '-' || from_alphanumeric(
        title,
        #[trigger] s[k],
    ) by {
        if s[k] != '-' {
            let j: int = choose|j: int|
                0 <= j < chars.len() && is_alphanumeric(chars[j]) && #[trigger] lowercase_of(
                    chars[j],
                ).contains(s[k]);
            assert(chars[j] == title[a + j]);
        }
    }
}

/// A filename stem is `meeting`, or it is made only of `-` and of the
/// lowercase forms of the title's letters and digits.
pub proof fn lemma_slug_characters(title: Seq<char>)
    ensures
        slug(title) == "meeting"@ || safe_chars(slug(title), title),
{
    let t = trim(title);
    lemma_trim_start_suffix(title);
    let i: int = choose|i: int| 0 <= i <= title.len() && trim_start(title) == title.skip(i);
    lemma_trim_end_prefix(trim_start(title));
    let j: int = choose|j: int|
        0 <= j <= trim_start(title).len() && trim_end(trim_start(title)) == trim_start(title).take(
            j,
        );
    assert(t =~= title.subrange(i, i + j));
    let folded = slug_fold(t).0;
    lemma_fold_safe(t);
    let cut = first_chars(folded, 60);
    if folded.len() > 60 {
        lemma_safe_subrange(folded, t, 0, 60);
    }
    lemma_strip_leading(cut);
    let a: int = choose|a: int| 0 <= a <= cut.len() && strip_leading_dashes(cut) == cut.skip(a);
    lemma_safe_subrange(cut, t, a, cut.len() as int);
    assert(cut.skip(a) =~= cut.subrange(a, cut.len() as int));
    let lead = strip_leading_dashes(cut);
    lemma_strip_trailing(lead);
    let b: int = choose|b: int| 0 <= b <= lead.len() && strip_trailing_dashes(lead) == lead.take(b);
    lemma_safe_subrange(lead, t, 0, b);
    assert(lead.take(b) =~= lead.subrange(0, b));
    lemma_safe_wider(strip_trailing_dashes(lead), t, title, i, i + j);
}

/// No two `-` stand next to each other in `s`.
pub open spec fn no_double_dash(s: Seq<char>) -> bool {
    forall|k: int| 0 <= k < s.len() - 1 ==> !(#[trigger] s[k] == '-' && s[k + 1] == '-')
}

/// Every lowercase form of an alphanumeric character of `chars` has at
/// least one character (as `char::to_lowercase` documents) and no `-`.
pub open spec fn dashless_lowercase(chars: Seq<char>) -> bool {
    forall|j: int|
        0 <= j < chars.len() && is_alphanumeric(chars[j]) ==> !#[trigger] lowercase_of(
            chars[j],
        ).contains('-') && lowercase_of(chars[j]).len() >= 1
}

proof fn lemma_fold_single_dashes(chars: Seq<char>)
    requires
        dashless_lowercase(chars),
    ensures
        no_double_dash(slug_fold(chars).0),
        slug_fold(chars).1 == (slug_fold(chars).0.len() > 0 && slug_fold(chars).0.last() == '-'),
    decreases chars.len(),
{
    if chars.len() > 0 {
        let init = chars.drop_last();
        assert forall|j: int|
            0 <= j < init.len() && is_alphanumeric(init[j]) implies !#[trigger] lowercase_of(
            init[j],
        ).contains('-') && lowercase_of(init[j]).len() >= 1 by {
            assert(init[j] == chars[j]);
        }
        lemma_fold_single_dashes(init);
        let prev = slug_fold(init).0;
        let c = chars.last();
        let out = slug_fold(chars).0;
        if is_alphanumeric(c) {
            let low = lowercase_of(c);
            let last: int = chars.len() - 1;
            assert(chars[last] == c);
            assert(is_alphanumeric(chars[last]));
            assert(0 <= last < chars.len() && is_alphanumeric(chars[last]) ==> !lowercase_of(
                chars[last],
            ).contains('-') && lowercase_of(chars[last]).len() >= 1);
            assert(!lowercase_of(chars[chars.len() - 1]).contains('-') && lowercase_of(
                chars[chars.len() - 1],
            ).len() >= 1);
            assert(out == prev + low);
            assert forall|k: int| 0 <= k < out.len() - 1 implies !(#[trigger] out[k] == '-'
                && out[k + 1] == '-') by {
                if k + 1 < prev.len() {
                    assert(out[k] == prev[k] && out[k + 1] == prev[k + 1]);
                } else if k + 1 == prev.len() {
                    assert(out[k + 1] == low[0]);
                    assert(low.contains(low[0]));
                } else {
                    assert(out[k + 1] == low[k + 1 - prev.len()]);
                    assert(low.contains(low[k + 1 - prev.len()]));
                }
            }
            assert(out.last() == low.last());
            assert(low.contains(low[low.len() - 1]));
        } else if out != prev {
            assert(out == prev.push('-'));
            assert forall|k: int| 0 <= k < out.len() - 1 implies !(#[trigger] out[k] == '-'
                && out[k + 1] == '-') by {
                if k + 1 < prev.len() {
                    assert(out[k] == prev[k] && out[k + 1] == prev[k + 1]);
                } else {
                    assert(out[k] == prev.last());
                }
            }
        }
    }
}

proof fn lemma_single_dashes_subrange(s: Seq<char>, i: int, j: int)
    requires
        no_double_dash(s),
        0 <= i <= j <= s.len(),
    ensures
        no_double_dash(s.subrange(i, j)),
{
    assert forall|k: int| 0 <= k < s.subrange(i, j).len() - 1 implies !(
    #[trigger] s.subrange(i, j)[k] == '-' && s.subrange(i, j)[k + 1] == '-') by {
        assert(s.subrange(i, j)[k] == s[i + k]);
        assert(s.subrange(i, j)[k + 1] == s[i + k + 1]);
    }
}

/// A filename stem never holds `--`, provided no lowercase form of the
/// title's letters and digits holds a `-` (which `char::to_lowercase` does
/// not document either way) and each is non-empty (which it documents).
pub proof fn lemma_slug_single_dashes(title: Seq<char>)
    requires
        dashless_lowercase(title),
    ensures
        no_double_dash(slug(title)),
{
    let t = trim(title);
    lemma_trim_start_suffix(title);
    let i: int = choose|i: int| 0 <= i <= title.len() && trim_start(title) == title.skip(i);
    lemma_trim_end_prefix(trim_start(title));
    let j: int = choose|j: int|
        0 <= j <= trim_start(title).len() && trim_end(trim_start(title)) == trim_start(title).take(
            j,
        );
    assert(t =~= title.subrange(i, i + j));
    assert forall|m: int| 0 <= m < t.len() && is_alphanumeric(t[m]) implies !#[trigger] lowercase_of(
        t[m],
    ).contains('-') && lowercase_of(t[m]).len() >= 1 by {
        assert(t[m] == title[i + m]);
    }
    lemma_fold_single_dashes(t);
    let folded = slug_fold(t).0;
    let cut = first_chars(folded, 60);
    if folded.len() > 60 {
        lemma_single_dashes_subrange(folded, 0, 60);
    }
    lemma_strip_leading(cut);
    let a: int = choose|a: int| 0 <= a <= cut.len() && strip_leading_dashes(cut) == cut.skip(a);
    assert(cut.skip(a) =~= cut.subrange(a, cut.len() as int));
    lemma_single_dashes_subrange(cut, a, cut.len() as int);
    let lead = strip_leading_dashes(cut);
    lemma_strip_trailing(lead);
    let b: int = choose|b: int| 0 <= b <= lead.len() && strip_trailing_dashes(lead) == lead.take(b);
    assert(lead.take(b) =~= lead.subrange(0, b));
    lemma_single_dashes_subrange(lead, 0, b);
    if strip_trailing_dashes(lead).len() == 0 {
        reveal_strlit("meeting");
        assert forall|k: int| 0 <= k < "meeting"@.len() - 1 implies !(#[trigger] "meeting"@[k]
            == '-' && "meeting"@[k + 1] == '-') by {}
    }
}

proof fn lemma_fold_run(a: char, run: Seq<char>)
    requires
        is_alphanumeric(a),
        lowercase_of(a).len() > 0,
        run.len() > 0,
        forall|i: int| 0 <= i < run.len() ==> !is_alphanumeric(#[trigger] run[i]),
    ensures
        slug_fold(seq![a] + run) == (lowercase_of(a).push('-'), true),
    decreases run.len(),
{
    let chars = seq![a] + run;
    assert(chars.last() == run.last());
    assert(!is_alphanumeric(run[run.len() - 1]));
    assert(seq![a].drop_last() =~= Seq::<char>::empty());
    assert(Seq::<char>::empty() + lowercase_of(a) =~= lowercase_of(a));
    assert(seq![a].last() == a);
    assert(slug_fold(Seq::<char>::empty()) == (Seq::<char>::empty(), false));
    assert(slug_fold(seq![a]) == (lowercase_of(a), false));
    if run.len() == 1 {
        assert(chars.drop_last() =~= seq![a]);
    } else {
        let init = run.drop_last();
        assert forall|i: int| 0 <= i < init.len() implies !is_alphanumeric(#[trigger] init[i]) by {
            assert(init[i] == run[i]);
        }
        lemma_fold_run(a, init);
        assert(chars.drop_last() =~= seq![a] + init);
        assert(slug_fold(chars.drop_last()) == (lowercase_of(a).push('-'), true));
    }
}

/// Any run of characters that are not alphanumeric (punctuation as much as
/// whitespace) between two alphanumeric characters becomes exactly one `-`:
/// the stem of `a`, the run, `b` is lowercase `a`, `-`, lowercase `b`
/// (given lowercase forms without `-` that fit in the 60-character cut).
pub proof fn lemma_slug_separator(a: char, run: Seq<char>, b: char)
    requires
        is_alphanumeric(a),
        is_alphanumeric(b),
        !is_white_space(a),
        !is_white_space(b),
        run.len() > 0,
        forall|i: int| 0 <= i < run.len() ==> !is_alphanumeric(#[trigger] run[i]),
        lowercase_of(a).len() > 0,
        lowercase_of(b).len() > 0,
        !lowercase_of(a).contains('-'),
        !lowercase_of(b).contains('-'),
        lowercase_of(a).len() + 1 + lowercase_of(b).len() <= 60,
    ensures
        slug(seq![a] + run + seq![b]) == lowercase_of(a) + "-"@ + lowercase_of(b),
{
    let title = seq![a] + run + seq![b];
    let la = lowercase_of(a);
    let lb = lowercase_of(b);
    assert(title[0] == a);
    assert(title.last() == b);
    lemma_trim_start_stable(title);
    lemma_trim_end_stable(title);
    assert(trim(title) == title);
    lemma_fold_run(a, run);
    assert(title.drop_last() =~= seq![a] + run);
    let folded = slug_fold(title).0;
    assert(folded == la.push('-') + lb);
    reveal_strlit("-");
    let expected = la + "-"@ + lb;
    assert(folded =~= expected);
    assert(first_chars(folded, 60) == expected);
    assert(expected[0] == la[0]);
    assert(la.contains(la[0]));
    assert(expected[0] != '-');
    assert(strip_leading_dashes(expected) == expected);
    assert(expected.last() == lb.last());
    assert(lb.contains(lb[lb.len() - 1]));
    assert(expected.last() != '-');
    assert(strip_trailing_dashes(expected) == expected);
}

/// The filename stem for a meeting title.
pub fn filename_slug(title: &str) -> (r: String)
    ensures
        r@ == slug(title@),
        1 <= r@.len() <= 60,
        r@[0] != '-',
        r@.last() != '-',
{
    let chars = trimmed(title);
    let n: usize = chars.as_str().unicode_len();
    let mut slug_text = String::new();
    let mut trailing_dash = false;
    let mut i: usize = 0;
    assert(chars@.take(0) =~= Seq::<char>::empty());
    while i < n
        invariant
            n == chars@.len(),
            0 <= i <= n,
            slug_text@ == slug_fold(chars@.take(i as int)).0,
            trailing_dash == slug_fold(chars@.take(i as int)).1,
        decreases n - i,
    {
        let c = chars.as_str().get_char(i);
        assert(chars@.take(i + 1).drop_last() =~= chars@.take(i as int));
        assert(chars@.take(i + 1).last() == c);
        if char_is_alphanumeric(c) {
            let lower = char_to_lowercase(c);
            slug_text.append(lower.as_str());
            trailing_dash = false;
        } else if !trailing_dash && slug_text.as_str().unicode_len() > 0 {
            push_char(&mut slug_text, '-');
            trailing_dash = true;
        }
        i = i + 1;
    }
    assert(chars@.take(n as int) =~= chars@);
    let full = slug_text.as_str();
    let len: usize = full.unicode_len();
    let cut_len: usize = if len <= 60 {
        len
    } else {
        60
    };
    let cut = full.substring_char(0, cut_len);
    assert(cut@ =~= first_chars(slug_fold(trim(title@)).0, 60));
    let mut start: usize = 0;
    assert(cut@.skip(0) =~= cut@);
    while start < cut_len && cut.get_char(start) == '-'
        invariant
            cut_len == cut@.len(),
            0 <= start <= cut_len,
            strip_leading_dashes(cut@) == strip_leading_dashes(cut@.skip(start as int)),
        decreases cut_len - start,
    {
        assert(cut@.skip(start as int).drop_first() =~= cut@.skip(start + 1));
        start = start + 1;
    }
    let mut end: usize = cut_len;
    assert(cut@.subrange(start as int, cut_len as int) =~= cut@.skip(start as int));
    while end > start && cut.get_char(end - 1) == '-'
        invariant
            cut_len == cut@.len(),
            0 <= start <= end <= cut_len,
            strip_leading_dashes(cut@) == cut@.skip(start as int),
            strip_trailing_dashes(strip_leading_dashes(cut@)) == strip_trailing_dashes(
                cut@.subrange(start as int, end as int),
            ),
        decreases end,
    {
        assert(cut@.subrange(start as int, end as int).drop_last() =~= cut@.subrange(
            start as int,
            end - 1,
        ));
        end = end - 1;
    }
    let result = if start == end {
        String::from_str("meeting")
    } else {
        String::from_str(cut.substring_char(start, end))
    };
    proof {
        lemma_slug_shape(title@);
    }
    result
}

/// The filename for a title and the date text shown in it.
pub fn filename_with_date(title: &str, date: &str) -> (r: String)
    ensures
        r@ == filename_of(title@, date@),
{
    let mut name = filename_slug(title);
    name.append("-");
    name.append(date);
    name.append(".md");
    assert(name@ =~= filename_of(title@, date@));
    name
}

/// The filename for a title: with the meeting's local creation date when
/// there is one, else with today's local date.
pub fn filename_with_created_date(title: &str, created_local: Option<String>) -> (r: String)
    ensures
        created_local matches Some(d) ==> r@ == filename_of(title@, d@),
        created_local is None ==> exists|date: Seq<char>|
            date_text(date) && r@ == #[trigger] filename_of(title@, date),
{
    proof {
        lemma_patterns_differ();
    }
    let date = match created_local {
        Some(d) => d,
        None => now_in_local_time("%Y-%m-%d"),
    };
    filename_with_date(title, date.as_str())
}

/// Builds a filesystem-safe default filename such as
/// `team-standup-2026-08-01.md`: the title's slug and the meeting's local
/// creation date, or today's date when `created_at` does not parse.
pub fn suggest_filename(title: &str, created_at: &str) -> (r: String)
    ensures
        exists|date: Seq<char>|
            date_text(date) && (rfc3339_accepts(created_at@) ==> near_written_date(
                created_at@,
                date,
            )) && r@ == #[trigger] filename_of(title@, date),
{
    proof {
        lemma_patterns_differ();
    }
    let created_local = rfc3339_in_local_time(created_at, "%Y-%m-%d");
    let ghost local_view = created_local;
    let r = filename_with_created_date(title, created_local);
    proof {
        match local_view {
            Some(d) => {
                assert(date_part("%Y-%m-%d"@, d@) == d@);
                assert(r@ == filename_of(title@, d@));
            },
            None => {},
        }
    }
    r
}

/// Characters a filename should not hold: path separators, `:` and
/// whitespace.
pub open spec fn unsafe_in_filename(c: char) -> bool {
    c == '/' || c == '\\' || c == ':' || is_white_space(c)
}

/// No lowercase form of an alphanumeric character of `chars` holds a
/// character unsafe in a filename.
pub open spec fn safe_lowercase(chars: Seq<char>) -> bool {
    forall|j: int, c: char|
        0 <= j < chars.len() && is_alphanumeric(chars[j]) && #[trigger] lowercase_of(
            chars[j],
        ).contains(c) ==> !unsafe_in_filename(c)
}

/// A suggested filename holds no path separator, `:` or whitespace,
/// provided the lowercase forms of the title's letters and digits hold none
/// (which `char::to_lowercase` does not document either way).
pub proof fn lemma_filename_safe(title: Seq<char>, date: Seq<char>)
    requires
        date_text(date),
        safe_lowercase(title),
    ensures
        forall|k: int|
            0 <= k < filename_of(title, date).len() ==> !unsafe_in_filename(
                #[trigger] filename_of(title, date)[k],
            ),
{
    let stem = slug(title);
    lemma_slug_characters(title);
    reveal_strlit("meeting");
    reveal_strlit("-");
    reveal_strlit(".md");
    assert forall|k: int| 0 <= k < stem.len() implies !unsafe_in_filename(#[trigger] stem[k]) by {
        if stem != "meeting"@ && stem[k] != '-' {
            let j: int = choose|j: int|
                0 <= j < title.len() && is_alphanumeric(title[j]) && #[trigger] lowercase_of(
                    title[j],
                ).contains(stem[k]);
            assert(lowercase_of(title[j]).contains(stem[k]));
        }
    }
    let n = date.len() as int;
    let year = date.take(n - 6);
    assert forall|k: int| 0 <= k < date.len() implies !unsafe_in_filename(#[trigger] date[k]) by {
        if k < n - 6 {
            assert(date[k] == year[k]);
            assert(is_digit(year[k]) || year[k] == '+' || year[k] == '-');
        }
    }
    let name = filename_of(title, date);
    assert(name =~= stem + "-"@ + date + ".md"@);
    assert forall|k: int| 0 <= k < name.len() implies !unsafe_in_filename(#[trigger] name[k]) by {
        if k < stem.len() {
            assert(name[k] == stem[k]);
        } else if k == stem.len() {
            assert(name[k] == '-');
        } else if k < stem.len() + 1 + n {
            assert(name[k] == date[k - stem.len() - 1]);
        } else {
            assert(name[k] == ".md"@[k - stem.len() - 1 - n]);
        }
    }
}

} // verus!
