//! Laws of texts: cutting, numbers, and names of commands.

use crate::config::byte_size;
use crate::config::error;
use crate::config::schema;
use crate::paths;
use crate::text::{self, Text};
use vstd::prelude::*;

verus! {

/// Whether a text is nothing but white space.
pub open spec fn blank(s: Text) -> bool {
    forall|i: int| 0 <= i < s.len() ==> text::white(#[trigger] s[i])
}

/// Whether a text is another without its white space at the front.
pub open spec fn cut_front(s: Text, r: Text) -> bool {
    &&& r.len() <= s.len()
    &&& r == s.skip(s.len() - r.len())
    &&& blank(s.take(s.len() - r.len()))
    &&& r.len() > 0 ==> !text::white(r[0])
}

/// Whether a text is another without its white space at the back.
pub open spec fn cut_back(s: Text, r: Text) -> bool {
    &&& r.len() <= s.len()
    &&& r == s.take(r.len() as int)
    &&& blank(s.skip(r.len() as int))
    &&& r.len() > 0 ==> !text::white(r[r.len() - 1])
}

/// Trimming takes the white space off the front, off the back, or off both, and
/// nothing else; a space and a line feed are white.
pub proof fn law_trimming_takes_white_space_only(s: Text)
    ensures
        cut_front(s, text::trim_start(s)),
        cut_back(s, text::trim_end(s)),
        cut_front(text::trim_end(s), text::trim(s)),
        text::trim(s).len() > 0 ==> !text::white(text::trim(s)[text::trim(s).len() - 1]),
        text::white(' ') && text::white('\n') && text::white('\t') && text::white('\r'),
        !text::white('a') && !text::white('-') && !text::white('0'),
{
    lemma_front(s);
    lemma_back(s);
    let e = text::trim_end(s);
    lemma_front(e);
    let t = text::trim(s);
    if t.len() > 0 {
        assert(t[t.len() - 1] == e[e.len() - 1]);
    }
}

proof fn lemma_front(s: Text)
    ensures
        cut_front(s, text::trim_start(s)),
    decreases s.len(),
{
    if s.len() > 0 && text::white(s[0]) {
        let rest = s.drop_first();
        lemma_front(rest);
        let r = text::trim_start(s);
        assert(r =~= s.skip(s.len() - r.len()));
        assert forall|i: int| 0 <= i < s.take(s.len() - r.len()).len() implies text::white(
            #[trigger] s.take(s.len() - r.len())[i],
        ) by {
            if i > 0 {
                assert(rest.take(rest.len() - r.len())[i - 1] == s[i]);
            }
        }
    } else {
        assert(s.skip(0) =~= s);
    }
}

proof fn lemma_back(s: Text)
    ensures
        cut_back(s, text::trim_end(s)),
    decreases s.len(),
{
    if s.len() > 0 && text::white(s.last()) {
        let rest = s.drop_last();
        lemma_back(rest);
        let r = text::trim_end(s);
        assert(r =~= s.take(r.len() as int));
        assert forall|i: int| 0 <= i < s.skip(r.len() as int).len() implies text::white(
            #[trigger] s.skip(r.len() as int)[i],
        ) by {
            if i < rest.len() - r.len() {
                assert(rest.skip(r.len() as int)[i] == s[r.len() + i]);
            }
        }
    } else {
        assert(s.take(s.len() as int) =~= s);
    }
}

/// The decimal notation of a number is digits that stand for it, without a zero at the
/// front; a negative one has a minus before that.
pub proof fn law_decimals_stand_for_their_number(n: nat, i: int)
    ensures
        byte_size::value_of(text::decimal(n)) == n,
        forall|k: int|
            0 <= k < text::decimal(n).len() ==> '0' <= #[trigger] text::decimal(n)[k]
                && text::decimal(n)[k] <= '9',
        text::decimal(n).len() > 0,
        n > 0 ==> text::decimal(n)[0] != '0',
        i >= 0 ==> text::signed_decimal(i) == text::decimal(i as nat),
        i < 0 ==> text::signed_decimal(i)[0] == '-' && text::signed_decimal(i).drop_first()
            == text::decimal((-i) as nat),
{
    lemma_decimal(n);
    if i < 0 {
        assert(text::signed_decimal(i).drop_first() =~= text::decimal((-i) as nat));
    }
}

proof fn lemma_decimal(n: nat)
    ensures
        byte_size::value_of(text::decimal(n)) == n,
        forall|k: int|
            0 <= k < text::decimal(n).len() ==> '0' <= #[trigger] text::decimal(n)[k]
                && text::decimal(n)[k] <= '9',
        text::decimal(n).len() > 0,
        n > 0 ==> text::decimal(n)[0] != '0',
    decreases n,
{
    let s = text::decimal(n);
    if n < 10 {
        assert(s.drop_last() =~= Seq::<char>::empty());
        assert(byte_size::value_of(s.drop_last()) == 0);
        assert(s.last() == text::digit(n));
    } else {
        lemma_decimal(n / 10);
        assert(s.drop_last() =~= text::decimal(n / 10));
        assert(s.last() == text::digit(n % 10));
        assert(s[0] == text::decimal(n / 10)[0]);
        assert forall|k: int| 0 <= k < s.len() implies '0' <= #[trigger] s[k] && s[k] <= '9' by {
            if k < s.len() - 1 {
                assert(s[k] == text::decimal(n / 10)[k]);
            }
        }
    }
}

/// A text is split at the first separator that it has: what stands before has none, and
/// the two make up the text with it between them. One without a separator is not split.
pub proof fn law_a_text_is_split_at_the_first_separator(s: Text, sep: char)
    ensures
        text::split_at_first(s, sep) is Some <==> s.contains(sep),
        text::split_at_first(s, sep) matches Some((a, b)) ==> s == a + seq![sep] + b
            && !a.contains(sep),
    decreases s.len(),
{
    if s.len() > 0 {
        let rest = s.drop_first();
        law_a_text_is_split_at_the_first_separator(rest, sep);
        if s[0] == sep {
            assert(s =~= Seq::<char>::empty() + seq![sep] + rest);
        } else {
            if rest.contains(sep) {
                let k = rest.index_of(sep);
                assert(s[k + 1] == sep);
            }
            if s.contains(sep) {
                let k = s.index_of(sep);
                assert(rest[k - 1] == sep);
            }
            if let Some((a, b)) = text::split_at_first(rest, sep) {
                let front = seq![s[0]] + a;
                assert(s =~= front + seq![sep] + b) by {
                    assert(rest =~= a + seq![sep] + b);
                    assert(s =~= seq![s[0]] + rest);
                }
                if front.contains(sep) {
                    let k = front.index_of(sep);
                    if k > 0 {
                        assert(a[k - 1] == sep);
                    }
                }
            }
        }
    }
}

/// Where a text is found in another is the first place where it stands, from a place on.
pub proof fn law_a_text_is_found_where_it_first_stands(s: Text, part: Text, from: int)
    requires
        0 <= from,
    ensures
        match text::find_from(s, part, from) {
            Some(i) => {
                &&& from <= i
                &&& i + part.len() <= s.len()
                &&& forall|k: int| 0 <= k < part.len() ==> s[i + k] == #[trigger] part[k]
                &&& forall|j: int|
                    #![trigger s.subrange(j, j + part.len())]
                    from <= j < i ==> s.subrange(j, j + part.len()) != part
            },
            None => forall|j: int|
                #![trigger s.subrange(j, j + part.len())]
                from <= j && j + part.len() <= s.len() ==> s.subrange(j, j + part.len()) != part,
        },
        text::find(s, part) == text::find_from(s, part, 0),
{
    text::lemma_find(s, part, from);
    match text::find_from(s, part, from) {
        Some(i) => {
            assert forall|k: int| 0 <= k < part.len() implies s[i + k] == #[trigger] part[k] by {
                assert(s.subrange(i, i + part.len())[k] == s[i + k]);
            }
            assert forall|j: int|
                #![trigger s.subrange(j, j + part.len())]
                from <= j < i implies s.subrange(j, j + part.len()) != part by {
                assert(!text::occurs_at(s, part, j));
            }
        },
        None => {
            assert forall|j: int|
                #![trigger s.subrange(j, j + part.len())]
                from <= j && j + part.len() <= s.len() implies s.subrange(j, j + part.len())
                != part by {
                assert(!text::occurs_at(s, part, j));
            }
        },
    }
}

/// The bytes of a text add up: those of its parts, one for a character of ASCII.
pub proof fn law_bytes_add_up(a: Text, b: Text, c: char)
    ensures
        text::byte_len(a + b) == text::byte_len(a) + text::byte_len(b),
        (c as u32) < 128 ==> text::byte_len(seq![c]) == 1,
        1 <= text::byte_len(seq![c]) <= 4,
        text::byte_len(Seq::empty()) == 0,
    decreases b.len(),
{
    assert(seq![c].drop_last() =~= Seq::<char>::empty());
    assert(seq![c].last() == c);
    assert(text::byte_len(seq![c].drop_last()) == 0);
    if b.len() == 0 {
        assert(a + b =~= a);
    } else {
        law_bytes_add_up(a, b.drop_last(), c);
        assert((a + b).drop_last() =~= a + b.drop_last());
        assert((a + b).last() == b.last());
    }
}

/// Whether a name cannot go on at a place of a command: a variable, a pipe or a
/// redirection stands there, or a word begins there with a hyphen.
pub open spec fn name_stops(s: Text, i: int) -> bool {
    ||| s[i] == '$'
    ||| s[i] == '|'
    ||| s[i] == '>'
    ||| s[i] == '<'
    ||| s[i] == '-' && (i == 0 || text::white(s[i - 1]))
}

/// The name that a command gives is what stands before the first place where a name
/// cannot go on, trimmed; the name that was set for a command comes before it.
pub proof fn law_a_command_is_named_by_its_first_words(command: Text, n: int, name: Option<Text>)
    requires
        0 <= n <= command.len(),
        forall|i: int| 0 <= i < n ==> !name_stops(command, i),
        n < command.len() ==> name_stops(command, n),
    ensures
        schema::derived_name(command) == text::trim(command.take(n)),
        name is Some ==> schema::display_name(name, command) == name->0,
        name is None ==> schema::display_name(name, command) == text::trim(command.take(n)),
{
    lemma_name_end(command, 0, n);
}

proof fn lemma_name_end(s: Text, from: int, n: int)
    requires
        0 <= from <= n <= s.len(),
        forall|i: int| from <= i < n ==> !name_stops(s, i),
        n < s.len() ==> name_stops(s, n),
    ensures
        schema::name_end(s, from) == n,
    decreases n - from,
{
    if from < n {
        assert(!name_stops(s, from));
        lemma_name_end(s, from + 1, n);
    }
}

/// A path is a directory, a separator unless the directory ends in one or is none, and a
/// name.
pub proof fn law_a_path_is_a_directory_and_a_name(dir: Text, name: Text)
    ensures
        dir.len() == 0 ==> paths::joined(dir, name) == name,
        dir.len() > 0 && dir[dir.len() - 1] == '/' ==> paths::joined(dir, name) == dir + name,
        dir.len() > 0 && dir[dir.len() - 1] != '/' ==> paths::joined(dir, name) == dir + seq!['/']
            + name,
{
    reveal_strlit("/");
    assert("/"@ =~= seq!['/']);
    if dir.len() == 0 {
        assert(dir + name =~= name);
    }
}

/// A position in a source goes on by one column for each character and by one line for
/// each line feed, behind which it is at the first column; it is reached once its bytes
/// are behind.
pub proof fn law_a_position_counts_lines_and_columns(
    c: char,
    rest: Text,
    offset: int,
    line: int,
    column: int,
)
    ensures
        offset <= 0 ==> error::position_after(seq![c] + rest, offset, line, column) == (
            line,
            column,
        ),
        offset > 0 && c == '\n' ==> error::position_after(seq![c] + rest, offset, line, column)
            == error::position_after(rest, offset - 1, line + 1, 1),
        offset > 0 && c != '\n' ==> error::position_after(seq![c] + rest, offset, line, column)
            == error::position_after(
            rest,
            offset - text::byte_len(seq![c]),
            line,
            column + 1,
        ),
        error::position_after(Seq::empty(), offset, line, column) == (line, column),
{
    let s = seq![c] + rest;
    assert(s[0] == c);
    assert(s.drop_first() =~= rest);
    assert(seq![c].drop_last() =~= Seq::<char>::empty());
    assert(seq![c].last() == c);
    assert(text::byte_len(seq![c].drop_last()) == 0);
}

proof fn lemma_all_digits_lead(d: Text)
    requires
        byte_size::all_digits(d),
    ensures
        byte_size::leading_digits(d) == d,
    decreases d.len(),
{
    if d.len() > 0 {
        assert(byte_size::is_digit(d[0]));
        let rest = d.drop_first();
        assert forall|i: int| 0 <= i < rest.len() implies byte_size::is_digit(#[trigger] rest[i]) by {
            assert(rest[i] == d[i + 1]);
        }
        lemma_all_digits_lead(rest);
        assert(d =~= seq![d[0]] + rest);
    } else {
        assert(d =~= Seq::<char>::empty());
    }
}

proof fn lemma_trim_none(s: Text)
    requires
        s.len() > 0,
        !text::white(s[0]),
        !text::white(s[s.len() - 1]),
    ensures
        text::trim(s) == s,
{
}

/// The number that digits write.
proof fn lemma_number(d: Text)
    requires
        d.len() > 0,
        byte_size::all_digits(d),
    ensures
        text::trim(d) == d,
        byte_size::number_of(d) == Some(
            (byte_size::Number::Finite { negative: false, digits: d, fraction: 0, exponent: 0 }),
        ),
{
    assert(byte_size::is_digit(d[0]));
    assert(byte_size::is_digit(d[d.len() - 1]));
    lemma_trim_none(d);
    lemma_all_digits_lead(d);
    reveal_strlit("inf");
    reveal_strlit("infinity");
    reveal_strlit("nan");
    assert(!text::same_letter(d[0], 'i'));
    assert(!text::same_letter(d[0], 'n'));
    assert(!text::same_word(d, "inf"@)) by {
        if text::same_word(d, "inf"@) {
            assert(text::same_letter(d[0], "inf"@[0]));
        }
    }
    assert(!text::same_word(d, "infinity"@)) by {
        if text::same_word(d, "infinity"@) {
            assert(text::same_letter(d[0], "infinity"@[0]));
        }
    }
    assert(!text::same_word(d, "nan"@)) by {
        if text::same_word(d, "nan"@) {
            assert(text::same_letter(d[0], "nan"@[0]));
        }
    }
    let rest = d.skip(d.len() as int);
    assert(rest =~= Seq::<char>::empty());
    assert(d + Seq::<char>::empty() =~= d);
}

/// A size that is written with digits alone is that many bytes. One with a unit behind
/// them is that many units: a byte, or 1024 of the next smaller unit for each of
/// kilobytes, megabytes and gigabytes, in whichever case. What a machine word cannot
/// hold counts as the most that it can.
pub proof fn law_a_size_counts_its_units(d: Text, b: char, u: char)
    requires
        d.len() > 0,
        byte_size::all_digits(d),
        b == 'b' || b == 'B',
    ensures
        byte_size::value_of(d) <= usize::MAX ==> byte_size::byte_size(d) == Some(
            byte_size::value_of(d) as int,
        ),
        byte_size::value_of(d) <= usize::MAX ==> byte_size::byte_size(d + seq![b]) == Some(
            byte_size::value_of(d) as int,
        ),
        (u == 'k' || u == 'K') && byte_size::value_of(d) * 1024 <= usize::MAX
            ==> byte_size::byte_size(d + seq![u, b]) == Some(byte_size::value_of(d) as int * 1024),
        (u == 'm' || u == 'M') && byte_size::value_of(d) * 1_048_576 <= usize::MAX
            ==> byte_size::byte_size(d + seq![u, b]) == Some(
            byte_size::value_of(d) as int * 1_048_576,
        ),
        (u == 'g' || u == 'G') && byte_size::value_of(d) * 1_073_741_824 <= usize::MAX
            ==> byte_size::byte_size(d + seq![u, b]) == Some(
            byte_size::value_of(d) as int * 1_073_741_824,
        ),
        (u == 'g' || u == 'G') && byte_size::value_of(d) * 1_073_741_824 > usize::MAX
            ==> byte_size::byte_size(d + seq![u, b]) == Some(usize::MAX as int),
{
    lemma_number(d);
    assert(byte_size::is_digit(d[0]));
    assert(byte_size::is_digit(d[d.len() - 1]));
    let v = byte_size::value_of(d);
    assert(byte_size::pow10(0) == 1);
    assert(v * 1 == v);
    assert(byte_size::scaled(d, 0, 1) == v);
    let one = d + seq![b];
    assert(one[0] == d[0] && one[one.len() - 1] == b);
    lemma_trim_none(one);
    assert(one.drop_last() =~= d);
    assert(byte_size::plain_size(one) is None) by {
        assert(!byte_size::is_digit(one[one.len() - 1]));
    }
    assert(!text::same_letter(d.last(), 'g') && !text::same_letter(d.last(), 'm')
        && !text::same_letter(d.last(), 'k'));
    let two = d + seq![u, b];
    if u == 'k' || u == 'K' || u == 'm' || u == 'M' || u == 'g' || u == 'G' {
        assert(two[0] == d[0] && two[two.len() - 1] == b);
        lemma_trim_none(two);
        assert(two.drop_last() =~= d + seq![u]);
        assert((d + seq![u]).drop_last() =~= d);
        assert((d + seq![u]).last() == u);
        assert(byte_size::plain_size(two) is None) by {
            assert(!byte_size::is_digit(two[two.len() - 1]));
        }
        assert(byte_size::scaled(d, 0, 1024) == v * 1024);
        assert(byte_size::scaled(d, 0, 1_048_576) == v * 1_048_576);
        assert(byte_size::scaled(d, 0, 1_073_741_824) == v * 1_073_741_824);
    }
}

/// Digits stand for what they are worth at their places: one more digit behind makes it
/// ten times as much and that digit.
pub proof fn law_digits_stand_for_their_value(s: Text, c: char)
    requires
        '0' <= c && c <= '9',
    ensures
        byte_size::value_of(s.push(c)) == 10 * byte_size::value_of(s) + (c as u32 - '0' as u32),
        byte_size::value_of(Seq::empty()) == 0,
        byte_size::is_digit(c),
{
    assert(s.push(c).drop_last() =~= s);
}

/// A size with digits behind a point counts by its unit too, and is rounded down to whole
/// bytes; with a minus before it, it counts as none.
pub proof fn law_a_fraction_of_a_unit_is_rounded_down(whole: Text, part: Text, b: char, u: char)
    requires
        whole.len() > 0,
        byte_size::all_digits(whole),
        byte_size::all_digits(part),
        b == 'b' || b == 'B',
        u == 'm' || u == 'M',
    ensures
        ({
            let v = byte_size::value_of(whole + part) * 1_048_576 as nat / byte_size::pow10(
                part.len(),
            );
            part.len() > 0 && v <= usize::MAX ==> byte_size::byte_size(
                whole + seq!['.'] + part + seq![u, b],
            ) == Some(v as int)
        }),
        byte_size::byte_size(seq!['-'] + whole + seq![u, b]) == Some(0int),
{
    reveal_strlit("inf");
    reveal_strlit("infinity");
    reveal_strlit("nan");
    assert(byte_size::is_digit(whole[0]));
    assert(byte_size::is_digit(whole[whole.len() - 1]));
    let d = whole + part;
    // With a point.
    let body = whole + seq!['.'] + part;
    let s = body + seq![u, b];
    assert(s[0] == whole[0] && s[s.len() - 1] == b);
    lemma_trim_none(s);
    assert(byte_size::plain_size(s) is None) by {
        assert(!byte_size::is_digit(s[s.len() - 1]));
    }
    assert(s.drop_last() =~= body + seq![u]);
    assert((body + seq![u]).drop_last() =~= body);
    assert((body + seq![u]).last() == u);
    if part.len() > 0 {
        assert(byte_size::is_digit(part[part.len() - 1]));
        assert(body[0] == whole[0] && body[body.len() - 1] == part[part.len() - 1]);
        lemma_trim_none(body);
        lemma_not_a_word(body);
        lemma_digits_before(whole, seq!['.'] + part);
        assert(body =~= whole + (seq!['.'] + part));
        let rest = body.skip(whole.len() as int);
        assert(rest =~= seq!['.'] + part);
        assert(rest.drop_first() =~= part);
        lemma_all_digits_lead(part);
        let tail = rest.skip(1 + part.len() as int);
        assert(tail =~= Seq::<char>::empty());
        assert(byte_size::number_of(body) == Some(
            (byte_size::Number::Finite {
                negative: false,
                digits: d,
                fraction: part.len(),
                exponent: 0,
            }),
        ));
    }
    // With a minus.
    let minus = seq!['-'] + whole;
    let t = minus + seq![u, b];
    assert(t =~= seq!['-'] + whole + seq![u, b]);
    assert(t[0] == '-' && t[t.len() - 1] == b);
    lemma_trim_none(t);
    assert(byte_size::plain_size(t) is None) by {
        assert(!byte_size::is_digit(t[t.len() - 1]));
    }
    assert(t.drop_last() =~= minus + seq![u]);
    assert((minus + seq![u]).drop_last() =~= minus);
    assert((minus + seq![u]).last() == u);
    assert(minus[0] == '-' && minus[minus.len() - 1] == whole[whole.len() - 1]);
    lemma_trim_none(minus);
    assert(minus.drop_first() =~= whole);
    lemma_not_a_word(whole);
    lemma_all_digits_lead(whole);
    let rest = whole.skip(whole.len() as int);
    assert(rest =~= Seq::<char>::empty());
    assert(byte_size::number_of(minus) is Some);
}

/// What begins with a digit is no word.
proof fn lemma_not_a_word(s: Text)
    requires
        s.len() > 0,
        byte_size::is_digit(s[0]),
    ensures
        !text::same_word(s, "inf"@),
        !text::same_word(s, "infinity"@),
        !text::same_word(s, "nan"@),
{
    reveal_strlit("inf");
    reveal_strlit("infinity");
    reveal_strlit("nan");
    assert(!text::same_letter(s[0], 'i'));
    assert(!text::same_letter(s[0], 'n'));
    if text::same_word(s, "inf"@) {
        assert(text::same_letter(s[0], "inf"@[0]));
    }
    if text::same_word(s, "infinity"@) {
        assert(text::same_letter(s[0], "infinity"@[0]));
    }
    if text::same_word(s, "nan"@) {
        assert(text::same_letter(s[0], "nan"@[0]));
    }
}

/// Digits before what is no digit are the leading ones.
proof fn lemma_digits_before(d: Text, more: Text)
    requires
        byte_size::all_digits(d),
        more.len() > 0,
        !byte_size::is_digit(more[0]),
    ensures
        byte_size::leading_digits(d + more) == d,
    decreases d.len(),
{
    let s = d + more;
    if d.len() > 0 {
        assert(byte_size::is_digit(d[0]));
        let rest = d.drop_first();
        assert forall|i: int| 0 <= i < rest.len() implies byte_size::is_digit(#[trigger] rest[i]) by {
            assert(rest[i] == d[i + 1]);
        }
        lemma_digits_before(rest, more);
        assert(s[0] == d[0]);
        assert(s.drop_first() =~= rest + more);
        assert(d =~= seq![d[0]] + rest);
    } else {
        assert(s[0] == more[0]);
        assert(d =~= Seq::<char>::empty());
    }
}

} // verus!
