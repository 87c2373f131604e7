//! Splices generated content into a markdown file between matching
//! `<!-- BEGIN: <name> -->` / `<!-- END: <name> -->` marker pairs.

use crate::text::{
    self, byte_offset, cat2, cat3, cat4, chars_of, decimal_of_wide, find_text, string_of, Text,
};
use vstd::prelude::*;

verus! {

/// The marker that begins the block of a name.
pub open spec fn begin_marker(name: Text) -> Text {
    "<!-- BEGIN: "@ + name + " -->"@
}

/// The marker that ends the block of a name.
pub open spec fn end_marker(name: Text) -> Text {
    "<!-- END: "@ + name + " -->"@
}

/// A text without the line feeds that it begins with.
pub open spec fn strip_leading(s: Text) -> Text
    decreases s.len(),
{
    if s.len() > 0 && s[0] == '\n' {
        strip_leading(s.drop_first())
    } else {
        s
    }
}

/// A text without the line feeds that it ends with.
pub open spec fn strip_trailing(s: Text) -> Text
    decreases s.len(),
{
    if s.len() > 0 && s.last() == '\n' {
        strip_trailing(s.drop_last())
    } else {
        s
    }
}

/// The content of a block without the line feeds around it.
pub open spec fn bare(content: Text) -> Text {
    strip_trailing(strip_leading(content))
}

/// The content of a block, on lines of its own and with a blank line behind it.
pub open spec fn block_body(content: Text) -> Text {
    if bare(content).len() == 0 {
        "\n"@
    } else {
        "\n"@ + bare(content) + "\n\n"@
    }
}

/// Where the block of a name begins and ends: behind its begin marker, and
/// before the end marker that follows.
pub open spec fn block(name: Text, text: Text) -> Option<(int, int)> {
    match text::find(text, begin_marker(name)) {
        None => None,
        Some(b) => {
            let from = b + begin_marker(name).len();
            match text::find_from(text, end_marker(name), from) {
                None => None,
                Some(to) => Some((from, to)),
            }
        },
    }
}

/// The text with the body of a block replaced, or why it cannot be.
pub open spec fn spliced(name: Text, content: Text, text: Text) -> Result<Text, Text> {
    let begin = begin_marker(name);
    match text::find(text, begin) {
        None => Err("missing begin marker: "@ + begin),
        Some(b) => match block(name, text) {
            None => Err("missing end marker: "@ + end_marker(name) + " (after begin)"@),
            Some((from, to)) => match text::find(text.subrange(from, to), begin) {
                Some(extra) => Err(
                    "duplicate begin marker for "@ + name + " at offset "@ + text::decimal(
                        text::byte_len(text.take(from + extra)),
                    ),
                ),
                None => Ok(text.take(from) + block_body(content) + text.skip(to)),
            },
        },
    }
}

fn strip_feeds(content: &str) -> (r: String)
    ensures
        r@ == bare(content@),
{
    let chars = chars_of(content);
    let n = chars.len();
    let mut start: usize = 0;
    assert(chars@.skip(0) =~= chars@);
    while start < n && chars[start] == '\n'
        invariant
            start <= n,
            n == chars@.len(),
            chars@ == content@,
            strip_leading(content@) == strip_leading(chars@.skip(start as int)),
        decreases n - start,
    {
        assert(chars@.skip(start as int).drop_first() =~= chars@.skip(start + 1));
        start = start + 1;
    }
    let ghost rest = chars@.skip(start as int);
    assert(strip_leading(content@) == rest);
    let mut end: usize = n;
    assert(rest.take(n - start) =~= rest);
    while end > start && chars[end - 1] == '\n'
        invariant
            start <= end <= n,
            n == chars@.len(),
            rest == chars@.skip(start as int),
            strip_trailing(rest) == strip_trailing(rest.take(end - start)),
        decreases end,
    {
        assert(rest.take(end - start).drop_last() =~= rest.take(end - 1 - start));
        end = end - 1;
    }
    let r = string_of(&chars, start, end);
    assert(r@ =~= rest.take(end - start));
    r
}

/// The content of a block, on lines of its own and with a blank line behind it.
pub fn format_body(content: &str) -> (r: String)
    ensures
        r@ == block_body(content@),
{
    let trimmed = strip_feeds(content);
    if trimmed.as_str().unicode_len() == 0 {
        "\n".to_owned()
    } else {
        cat3("\n", trimmed.as_str(), "\n\n")
    }
}

/// Replace the body of the marker block named `name` in `text` with `content`.
/// Hand-written prose outside the markers is preserved verbatim.
///
/// The content goes on lines of its own, without the line feeds around it.
pub fn splice(name: &str, content: &str, text: &str) -> (r: Result<String, String>)
    ensures
        match r {
            Ok(s) => spliced(name@, content@, text@) == Ok::<Text, Text>(s@),
            Err(e) => spliced(name@, content@, text@) == Err::<Text, Text>(e@),
        },
{
    let begin = cat3("<!-- BEGIN: ", name, " -->");
    let end = cat3("<!-- END: ", name, " -->");
    let chars = chars_of(text);
    let begin_chars = chars_of(begin.as_str());
    let end_chars = chars_of(end.as_str());
    let begin_idx = match find_text(&chars, &begin_chars, 0) {
        Some(i) => i,
        None => {
            return Err(cat2("missing begin marker: ", begin.as_str()));
        },
    };
    let after_begin: usize = begin_idx + begin_chars.len();
    let end_idx = match find_text(&chars, &end_chars, after_begin) {
        Some(i) => i,
        None => {
            return Err(cat3("missing end marker: ", end.as_str(), " (after begin)"));
        },
    };
    let inside = chars_of(text.substring_char(after_begin, end_idx));
    assert(inside@ =~= text@.subrange(after_begin as int, end_idx as int));
    if let Some(extra) = find_text(&inside, &begin_chars, 0) {
        assert(chars@.take(after_begin + extra) =~= text@.take(after_begin + extra));
        let offset = byte_offset(&chars, after_begin + extra);
        return Err(
            cat4(
                "duplicate begin marker for ",
                name,
                " at offset ",
                decimal_of_wide(offset).as_str(),
            ),
        );
    }
    let body = format_body(content);
    let head = text.substring_char(0, after_begin);
    let tail = text.substring_char(end_idx, chars.len());
    assert(head@ =~= text@.take(after_begin as int));
    assert(tail@ =~= text@.skip(end_idx as int));
    Ok(cat3(head, body.as_str(), tail))
}

/// Whether a text has no line feed.
pub open spec fn on_one_line(s: Text) -> bool {
    forall|i: int| 0 <= i < s.len() ==> #[trigger] s[i] != '\n'
}

proof fn lemma_strip_part(s: Text)
    ensures
        exists|from: int, to: int|
            0 <= from <= to <= s.len() && bare(s) == #[trigger] s.subrange(from, to),
{
    lemma_strip_leading_part(s);
    let lead = strip_leading(s);
    let from = s.len() - lead.len();
    lemma_strip_trailing_part(lead);
    let to = from + strip_trailing(lead).len();
    assert(s.subrange(from, to) =~= bare(s));
}

proof fn lemma_strip_leading_part(s: Text)
    ensures
        strip_leading(s).len() <= s.len(),
        strip_leading(s) == s.skip(s.len() - strip_leading(s).len()),
    decreases s.len(),
{
    if s.len() > 0 && s[0] == '\n' {
        lemma_strip_leading_part(s.drop_first());
        assert(strip_leading(s) =~= s.skip(s.len() - strip_leading(s).len()));
    } else {
        assert(s.skip(0) =~= s);
    }
}

proof fn lemma_strip_trailing_part(s: Text)
    ensures
        strip_trailing(s).len() <= s.len(),
        strip_trailing(s) == s.take(strip_trailing(s).len() as int),
    decreases s.len(),
{
    if s.len() > 0 && s.last() == '\n' {
        lemma_strip_trailing_part(s.drop_last());
        assert(strip_trailing(s) =~= s.take(strip_trailing(s).len() as int));
    } else {
        assert(s.take(s.len() as int) =~= s);
    }
}

/// A marker on one line does not stand in a body whose content does not hold it.
proof fn lemma_body_free(content: Text, marker: Text, i: int)
    requires
        on_one_line(marker),
        marker.len() > 0,
        !text::contains(content, marker),
    ensures
        !text::occurs_at(block_body(content), marker, i),
{
    reveal_strlit("\n");
    reveal_strlit("\n\n");
    let body = block_body(content);
    if text::occurs_at(body, marker, i) {
        let inner = bare(content);
        let n = inner.len() as int;
        if n == 0 {
            assert(body[i] == marker[0]) by {
                assert(body.subrange(i, i + marker.len())[0] == body[i]);
            }
            assert(body[i] == '\n');
        } else {
            assert forall|k: int| 0 <= k < marker.len() implies body[i + k] == #[trigger] marker[k] by {
                assert(body.subrange(i, i + marker.len())[k] == body[i + k]);
            }
            if i == 0 {
                assert(body[0] == '\n');
                assert(marker[0] == body[0]);
            } else if i + marker.len() > n + 1 {
                let k = if i > n + 1 {
                    0
                } else {
                    n + 1 - i
                };
                assert(body[i + k] == marker[k]);
                assert(body[i + k] == '\n');
            } else {
                lemma_strip_part(content);
                let (from, to) = choose|from: int, to: int|
                    0 <= from <= to <= content.len() && bare(content)
                        == #[trigger] content.subrange(from, to);
                assert(content.subrange(from + i - 1, from + i - 1 + marker.len()) =~= marker) by {
                    assert forall|k: int| 0 <= k < marker.len() implies content[from + i - 1 + k]
                        == #[trigger] marker[k] by {
                        assert(body[i + k] == inner[i + k - 1]);
                        assert(inner[i + k - 1] == content[from + i + k - 1]);
                    }
                }
                assert(text::occurs_at(content, marker, from + i - 1));
            }
        }
    }
}

proof fn lemma_markers(name: Text)
    requires
        on_one_line(name),
    ensures
        on_one_line(begin_marker(name)),
        on_one_line(end_marker(name)),
        begin_marker(name).len() > 0,
        end_marker(name).len() > 0,
{
    reveal_strlit("<!-- BEGIN: ");
    reveal_strlit("<!-- END: ");
    reveal_strlit(" -->");
    let b = begin_marker(name);
    let e = end_marker(name);
    assert forall|i: int| 0 <= i < b.len() implies #[trigger] b[i] != '\n' by {
        if 12 <= i < 12 + name.len() {
            assert(b[i] == name[i - 12]);
        }
    }
    assert forall|i: int| 0 <= i < e.len() implies #[trigger] e[i] != '\n' by {
        if 10 <= i < 10 + name.len() {
            assert(e[i] == name[i - 10]);
        }
    }
}

/// Splicing twice is splicing the second time only: what was spliced before leaves
/// no trace, as long as it holds no marker of the block.
pub proof fn law_the_last_splice_wins(name: Text, content: Text, next_content: Text, text: Text)
    requires
        on_one_line(name),
        !text::contains(content, begin_marker(name)),
        !text::contains(content, end_marker(name)),
        spliced(name, content, text) is Ok,
    ensures
        spliced(name, next_content, spliced(name, content, text)->Ok_0) == spliced(
            name,
            next_content,
            text,
        ),
{
    let begin = begin_marker(name);
    let end = end_marker(name);
    let body = block_body(content);
    lemma_markers(name);
    let b = text::find(text, begin)->0;
    text::lemma_find(text, begin, 0);
    let (from, to) = block(name, text)->0;
    text::lemma_find(text, end, from);
    let out = text.take(from) + body + text.skip(to);
    let next = from + body.len();
    assert(out == spliced(name, content, text)->Ok_0);
    // The begin marker is where it was.
    assert forall|j: int| 0 <= j <= b implies text::occurs_at(out, begin, j) == text::occurs_at(
        text,
        begin,
        j,
    ) by {
        assert(out.subrange(j, j + begin.len()) =~= text.subrange(j, j + begin.len()));
    }
    text::lemma_find_is(out, begin, b);
    // The end marker follows the body.
    assert(text::occurs_at(out, end, next)) by {
        assert(out.subrange(next, next + end.len()) =~= text.subrange(to, to + end.len()));
    }
    assert forall|j: int| from <= j < next implies !text::occurs_at(out, end, j) by {
        if text::occurs_at(out, end, j) {
            if j + end.len() <= next {
                assert(body.subrange(j - from, j - from + end.len()) =~= out.subrange(
                    j,
                    j + end.len(),
                ));
                assert(text::occurs_at(body, end, j - from));
                lemma_body_free(content, end, j - from);
            } else {
                lemma_body_ends(content);
                let k = next - 1 - j;
                assert(out.subrange(j, j + end.len())[k] == out[next - 1]);
                assert(out[next - 1] == body.last());
                assert(end[k] == '\n');
            }
        }
    }
    lemma_find_from_is(out, end, from, next);
    // The body holds no begin marker.
    let inside = out.subrange(from, next);
    assert(inside =~= body);
    text::lemma_find(body, begin, 0);
    assert forall|j: int| !text::occurs_at(body, begin, j) by {
        lemma_body_free(content, begin, j);
    }
    assert(text::find(inside, begin) is None);
    assert(out.take(from) =~= text.take(from));
    assert(out.skip(next) =~= text.skip(to));
}

/// Splicing the same content again changes nothing, as long as the name is on
/// one line and the content holds no marker of its own.
pub proof fn law_splicing_again_changes_nothing(name: Text, content: Text, text: Text)
    requires
        on_one_line(name),
        !text::contains(content, begin_marker(name)),
        !text::contains(content, end_marker(name)),
        spliced(name, content, text) is Ok,
    ensures
        spliced(name, content, spliced(name, content, text)->Ok_0) == spliced(name, content, text),
{
    law_the_last_splice_wins(name, content, content, text);
}

proof fn lemma_body_ends(content: Text)
    ensures
        block_body(content).len() > 0,
        block_body(content).last() == '\n',
{
    reveal_strlit("\n");
    reveal_strlit("\n\n");
}

proof fn lemma_find_from_is(s: Text, part: Text, from: int, i: int)
    requires
        0 <= from <= i,
        text::occurs_at(s, part, i),
        forall|j: int| from <= j < i ==> !text::occurs_at(s, part, j),
    ensures
        text::find_from(s, part, from) == Some(i),
{
    text::lemma_find(s, part, from);
}

/// Splicing replaces the body of the block and nothing else: everything before
/// it and everything behind it is kept.
pub proof fn law_splicing_keeps_the_rest(name: Text, content: Text, text: Text)
    requires
        spliced(name, content, text) is Ok,
    ensures
        ({
            let (from, to) = block(name, text)->0;
            let out = spliced(name, content, text)->Ok_0;
            &&& 0 <= from <= to <= text.len()
            &&& out.take(from) == text.take(from)
            &&& out.skip(from + block_body(content).len()) == text.skip(to)
            &&& out.len() == text.len() - (to - from) + block_body(content).len()
        }),
{
    let begin = begin_marker(name);
    text::lemma_find(text, begin, 0);
    let (from, to) = block(name, text)->0;
    text::lemma_find(text, end_marker(name), from);
    let out = spliced(name, content, text)->Ok_0;
    assert(out.take(from) =~= text.take(from));
    assert(out.skip(from + block_body(content).len()) =~= text.skip(to));
}

} // verus!
