//! Text primitives shared by the rest of the crate.
//!
//! Strings are modelled by their sequence of characters (`Seq<char>`, the view
//! of `str` and `String`).

use vstd::prelude::*;

verus! {

/// The model of a name, a path, a command or any other text.
pub type Text = Seq<char>;

/// `String::push`: appends one character.
#[verifier::external_body]
pub(crate) fn push_char(s: &mut String, c: char)
    ensures
        final(s)@ == old(s)@.push(c),
{
    s.push(c)
}

/// Whether two string slices hold the same characters.
pub(crate) fn str_eq(a: &str, b: &str) -> (r: bool)
    ensures
        r == (a@ == b@),
{
    let mut rest = b.chars();
    assert(b@.skip(0) =~= b@);
    for c in it: a.chars()
        invariant
            it.seq() == a@,
            it.index() <= b@.len(),
            vstd::std_specs::iter::IteratorSpec::remaining(&rest) == b@.skip(it.index()),
            a@.take(it.index()) == b@.take(it.index()),
    {
        match rest.next() {
            Some(d) => {
                if c != d {
                    assert(a@[it.index()] != b@[it.index()]);
                    return false;
                }
                assert(b@.skip(it.index()).drop_first() =~= b@.skip(it.index() + 1));
                assert(a@.take(it.index() + 1) =~= b@.take(it.index() + 1));
            },
            None => {
                assert(a@.len() > b@.len());
                return false;
            },
        }
    }
    assert(a@.take(a@.len() as int) =~= a@);
    let same = rest.next().is_none();
    proof {
        if same {
            assert(b@.take(a@.len() as int) =~= b@);
        }
    }
    same
}

/// The texts held by a list of strings, in order.
pub open spec fn texts(v: Seq<String>) -> Seq<Text> {
    Seq::new(v.len(), |i: int| v[i]@)
}

/// Appending a string appends its text.
pub broadcast proof fn lemma_texts_push(v: Seq<String>, x: String)
    ensures
        #[trigger] texts(v.push(x)) == texts(v).push(x@),
{
    assert(texts(v.push(x)) =~= texts(v).push(x@));
}

/// Whether `list` holds the text `x`.
pub(crate) fn list_contains(list: &[String], x: &str) -> (r: bool)
    ensures
        r == texts(list@).contains(x@),
{
    let mut i: usize = 0;
    while i < list.len()
        invariant
            0 <= i <= list.len(),
            forall|j: int| 0 <= j < i ==> list@[j]@ != x@,
        decreases list.len() - i,
    {
        if str_eq(list[i].as_str(), x) {
            assert(texts(list@)[i as int] == x@);
            return true;
        }
        i = i + 1;
    }
    assert(!texts(list@).contains(x@));
    false
}

/// A copy of a list of strings.
pub(crate) fn list_to_vec(list: &[String]) -> (r: Vec<String>)
    ensures
        r@ == list@,
{
    let mut out: Vec<String> = Vec::new();
    let mut i: usize = 0;
    while i < list.len()
        invariant
            0 <= i <= list.len(),
            out@ == list@.subrange(0, i as int),
        decreases list.len() - i,
    {
        out.push(list[i].clone());
        i = i + 1;
    }
    assert(list@.subrange(0, list@.len() as int) == list@);
    out
}

/// The text of an optional string.
pub open spec fn opt_text(o: Option<String>) -> Option<Text> {
    match o {
        Some(s) => Some(s@),
        None => None,
    }
}

/// Equality of two optional strings.
pub(crate) fn opt_eq(a: &Option<String>, b: &Option<String>) -> (r: bool)
    ensures
        r == (opt_text(*a) == opt_text(*b)),
{
    match (a, b) {
        (Some(x), Some(y)) => str_eq(x.as_str(), y.as_str()),
        (None, None) => true,
        _ => false,
    }
}

/// Equality of two lists of strings.
pub(crate) fn list_eq(a: &Vec<String>, b: &Vec<String>) -> (r: bool)
    ensures
        r == (texts(a@) == texts(b@)),
{
    if a.len() != b.len() {
        assert(texts(a@).len() != texts(b@).len());
        return false;
    }
    let mut i: usize = 0;
    while i < a.len()
        invariant
            0 <= i <= a.len(),
            a.len() == b.len(),
            forall|j: int| 0 <= j < i ==> a@[j]@ == b@[j]@,
        decreases a.len() - i,
    {
        if !str_eq(a[i].as_str(), b[i].as_str()) {
            assert(texts(a@)[i as int] != texts(b@)[i as int]);
            return false;
        }
        i = i + 1;
    }
    assert(texts(a@) =~= texts(b@));
    true
}

/// Whether a character is white space (the Unicode `White_Space` property).
pub open spec fn white(c: char) -> bool {
    let u = c as u32;
    ||| 0x9 <= u <= 0xd
    ||| u == 0x20
    ||| u == 0x85
    ||| u == 0xa0
    ||| u == 0x1680
    ||| 0x2000 <= u <= 0x200a
    ||| u == 0x2028
    ||| u == 0x2029
    ||| u == 0x202f
    ||| u == 0x205f
    ||| u == 0x3000
}

/// Whether a character is white space.
pub fn is_white(c: char) -> (r: bool)
    ensures
        r == white(c),
{
    let u: u32 = c as u32;
    (0x9 <= u && u <= 0xd) || u == 0x20 || u == 0x85 || u == 0xa0 || u == 0x1680 || (0x2000 <= u
        && u <= 0x200a) || u == 0x2028 || u == 0x2029 || u == 0x202f || u == 0x205f || u == 0x3000
}

/// A text without its leading white space.
pub open spec fn trim_start(s: Text) -> Text
    decreases s.len(),
{
    if s.len() > 0 && white(s[0]) {
        trim_start(s.drop_first())
    } else {
        s
    }
}

/// A text without its trailing white space.
pub open spec fn trim_end(s: Text) -> Text
    decreases s.len(),
{
    if s.len() > 0 && white(s.last()) {
        trim_end(s.drop_last())
    } else {
        s
    }
}

/// A text without white space at either end.
pub open spec fn trim(s: Text) -> Text {
    trim_start(trim_end(s))
}

/// The characters of a string, as a vector.
pub(crate) fn chars_of(s: &str) -> (r: Vec<char>)
    ensures
        r@ == s@,
{
    let mut out: Vec<char> = Vec::new();
    for c in it: s.chars()
        invariant
            it.seq() == s@,
            out@ == s@.take(it.index()),
    {
        out.push(c);
        assert(out@ =~= s@.take(it.index() + 1));
    }
    assert(s@.take(s@.len() as int) =~= s@);
    out
}

/// The string of a range of characters.
pub(crate) fn string_of(chars: &Vec<char>, from: usize, to: usize) -> (r: String)
    requires
        from <= to <= chars@.len(),
    ensures
        r@ == chars@.subrange(from as int, to as int),
{
    let mut out = String::new();
    let mut i: usize = from;
    assert(chars@.subrange(from as int, from as int) =~= Seq::<char>::empty());
    while i < to
        invariant
            from <= i <= to <= chars@.len(),
            out@ == chars@.subrange(from as int, i as int),
        decreases to - i,
    {
        push_char(&mut out, chars[i]);
        i = i + 1;
        assert(chars@.subrange(from as int, i as int) =~= chars@.subrange(
            from as int,
            i - 1,
        ).push(chars@[i - 1]));
    }
    out
}

/// `str::trim_end`: the slice without its trailing white space.
pub(crate) fn trim_end_str<'a>(s: &'a str) -> (r: &'a str)
    ensures
        r@ == trim_end(s@),
{
    let chars = chars_of(s);
    let mut end: usize = chars.len();
    assert(chars@.take(end as int) =~= chars@);
    while end > 0 && is_white(chars[end - 1])
        invariant
            end <= chars@.len(),
            chars@ == s@,
            trim_end(s@) == trim_end(chars@.take(end as int)),
        decreases end,
    {
        assert(chars@.take(end as int).drop_last() =~= chars@.take(end - 1));
        end = end - 1;
    }
    let r = s.substring_char(0, end);
    assert(r@ =~= chars@.take(end as int));
    r
}

/// `str::trim_start`: the slice without its leading white space.
pub(crate) fn trim_start_str<'a>(s: &'a str) -> (r: &'a str)
    ensures
        r@ == trim_start(s@),
{
    let chars = chars_of(s);
    let n = chars.len();
    let mut start: usize = 0;
    assert(chars@.skip(0) =~= chars@);
    while start < n && is_white(chars[start])
        invariant
            start <= n,
            n == chars@.len(),
            chars@ == s@,
            trim_start(s@) == trim_start(chars@.skip(start as int)),
        decreases n - start,
    {
        assert(chars@.skip(start as int).drop_first() =~= chars@.skip(start + 1));
        start = start + 1;
    }
    let r = s.substring_char(start, n);
    assert(r@ =~= chars@.skip(start as int));
    r
}

/// `str::trim`: the slice without white space at either end.
pub(crate) fn trim_str<'a>(s: &'a str) -> (r: &'a str)
    ensures
        r@ == trim(s@),
{
    trim_start_str(trim_end_str(s))
}

/// The decimal digit of a number below ten.
pub open spec fn digit(d: nat) -> char {
    (48 + d) as char
}

/// The decimal notation of a natural number.
pub open spec fn decimal(n: nat) -> Text
    decreases n,
{
    if n < 10 {
        seq![digit(n)]
    } else {
        decimal(n / 10).push(digit(n % 10))
    }
}

/// The decimal notation of an integer.
pub open spec fn signed_decimal(i: int) -> Text {
    if i < 0 {
        seq!['-'] + decimal((-i) as nat)
    } else {
        decimal(i as nat)
    }
}

/// The decimal notation of a number.
pub fn decimal_of_wide(n: u128) -> (r: String)
    ensures
        r@ == decimal(n as nat),
    decreases n,
{
    let last: u128 = n % 10;
    let mut s = if n < 10 {
        String::new()
    } else {
        decimal_of_wide(n / 10)
    };
    let c: char = (48u8 + last as u8) as char;
    push_char(&mut s, c);
    assert(n < 10 ==> s@ =~= seq![c]);
    s
}

/// The decimal notation of a number.
pub fn decimal_of(n: u64) -> (r: String)
    ensures
        r@ == decimal(n as nat),
{
    decimal_of_wide(n as u128)
}

/// The decimal notation of a signed number.
pub fn signed_decimal_of_i64(i: i64) -> (r: String)
    ensures
        r@ == signed_decimal(i as int),
{
    if i < 0 {
        let magnitude: u64 = (-(i as i128)) as u64;
        let mut s = String::new();
        push_char(&mut s, '-');
        s.append(decimal_of(magnitude).as_str());
        assert(s@ =~= seq!['-'] + decimal(magnitude as nat));
        s
    } else {
        decimal_of(i as u64)
    }
}

/// The decimal notation of a signed number.
pub fn signed_decimal_of(i: i32) -> (r: String)
    ensures
        r@ == signed_decimal(i as int),
{
    signed_decimal_of_i64(i as i64)
}

/// Two texts, one after the other.
pub(crate) fn cat2(a: &str, b: &str) -> (r: String)
    ensures
        r@ == a@ + b@,
{
    let mut s = a.to_owned();
    s.append(b);
    s
}

/// Three texts, one after the other.
pub(crate) fn cat3(a: &str, b: &str, c: &str) -> (r: String)
    ensures
        r@ == a@ + b@ + c@,
{
    let mut s = a.to_owned();
    s.append(b);
    s.append(c);
    s
}

/// Five texts, one after the other.
pub(crate) fn cat5(a: &str, b: &str, c: &str, d: &str, e: &str) -> (r: String)
    ensures
        r@ == a@ + b@ + c@ + d@ + e@,
{
    let mut s = a.to_owned();
    s.append(b);
    s.append(c);
    s.append(d);
    s.append(e);
    s
}

/// Four texts, one after the other.
pub(crate) fn cat4(a: &str, b: &str, c: &str, d: &str) -> (r: String)
    ensures
        r@ == a@ + b@ + c@ + d@,
{
    let mut s = a.to_owned();
    s.append(b);
    s.append(c);
    s.append(d);
    s
}

/// Seven texts, one after the other.
pub(crate) fn cat7(a: &str, b: &str, c: &str, d: &str, e: &str, f: &str, g: &str) -> (r: String)
    ensures
        r@ == a@ + b@ + c@ + d@ + e@ + f@ + g@,
{
    let mut s = a.to_owned();
    s.append(b);
    s.append(c);
    s.append(d);
    s.append(e);
    s.append(f);
    s.append(g);
    s
}

/// The items of `v` with `sep` between them.
pub open spec fn joined(v: Seq<Text>, sep: Text) -> Text
    decreases v.len(),
{
    if v.len() == 0 {
        Seq::empty()
    } else if v.len() == 1 {
        v[0]
    } else {
        joined(v.drop_last(), sep) + sep + v.last()
    }
}

/// Joins the first `n` strings of a list.
pub(crate) fn join(v: &Vec<String>, n: usize, sep: &str) -> (r: String)
    requires
        n <= v@.len(),
    ensures
        r@ == joined(texts(v@).take(n as int), sep@),
{
    let mut out = String::new();
    let ghost all = texts(v@);
    let mut i: usize = 0;
    assert(all.take(0) =~= Seq::<Text>::empty());
    while i < n
        invariant
            0 <= i <= n <= v@.len(),
            all == texts(v@),
            out@ == joined(all.take(i as int), sep@),
        decreases n - i,
    {
        assert(all.take(i + 1).drop_last() =~= all.take(i as int));
        assert(all.take(i + 1).last() == v@[i as int]@);
        if i > 0 {
            out.append(sep);
        }
        out.append(v[i].as_str());
        i = i + 1;
        assert(i == 1 ==> out@ =~= all.take(1)[0]);
    }
    out
}

/// The number of bytes that encode a character in UTF-8.
pub open spec fn utf8_len(c: char) -> nat {
    let u = c as u32;
    if u < 0x80 {
        1
    } else if u < 0x800 {
        2
    } else if u < 0x10000 {
        3
    } else {
        4
    }
}

/// The number of bytes that encode a character in UTF-8.
pub(crate) fn utf8_len_of(c: char) -> (r: usize)
    ensures
        r == utf8_len(c),
        1 <= r <= 4,
{
    let u: u32 = c as u32;
    if u < 0x80 {
        1
    } else if u < 0x800 {
        2
    } else if u < 0x10000 {
        3
    } else {
        4
    }
}

/// The number of bytes that encode a text in UTF-8.
pub open spec fn byte_len(s: Text) -> nat
    decreases s.len(),
{
    if s.len() == 0 {
        0
    } else {
        byte_len(s.drop_last()) + utf8_len(s.last())
    }
}

/// What stands before and behind the first `sep` of a text, if it has one.
pub open spec fn split_at_first(s: Text, sep: char) -> Option<(Text, Text)>
    decreases s.len(),
{
    if s.len() == 0 {
        None
    } else if s[0] == sep {
        Some((Seq::empty(), s.drop_first()))
    } else {
        match split_at_first(s.drop_first(), sep) {
            Some((a, b)) => Some((seq![s[0]] + a, b)),
            None => None,
        }
    }
}

proof fn lemma_split_at_first(s: Text, sep: char, i: int)
    requires
        0 <= i <= s.len(),
        forall|j: int| 0 <= j < i ==> s[j] != sep,
        i < s.len() ==> s[i] == sep,
    ensures
        split_at_first(s, sep) == if i < s.len() {
            Some((s.take(i), s.skip(i + 1)))
        } else {
            None
        },
    decreases s.len(),
{
    if s.len() > 0 {
        if s[0] == sep {
            assert(s.take(0) =~= Seq::<char>::empty());
            assert(s.skip(1) =~= s.drop_first());
        } else {
            assert forall|j: int| 0 <= j < i - 1 implies s.drop_first()[j] != sep by {
                assert(s[j + 1] != sep);
            }
            lemma_split_at_first(s.drop_first(), sep, i - 1);
            if i < s.len() {
                assert(seq![s[0]] + s.drop_first().take(i - 1) =~= s.take(i));
                assert(s.drop_first().skip(i) =~= s.skip(i + 1));
            }
        }
    }
}

/// What stands behind a separator is shorter than the whole.
pub proof fn lemma_split_shorter(s: Text, sep: char)
    ensures
        split_at_first(s, sep) matches Some((a, b)) ==> b.len() < s.len(),
    decreases s.len(),
{
    if s.len() > 0 && s[0] != sep {
        lemma_split_shorter(s.drop_first(), sep);
    }
}

/// `str::split_once` on a character.
pub(crate) fn split_once<'a>(s: &'a str, sep: char) -> (r: Option<(&'a str, &'a str)>)
    ensures
        match r {
            Some((a, b)) => split_at_first(s@, sep) == Some((a@, b@)),
            None => split_at_first(s@, sep) is None,
        },
{
    let chars = chars_of(s);
    let mut i: usize = 0;
    while i < chars.len() && chars[i] != sep
        invariant
            0 <= i <= chars@.len(),
            chars@ == s@,
            forall|j: int| 0 <= j < i ==> s@[j] != sep,
        decreases chars.len() - i,
    {
        i = i + 1;
    }
    proof {
        lemma_split_at_first(s@, sep, i as int);
    }
    if i < chars.len() {
        let a = s.substring_char(0, i);
        let b = s.substring_char(i + 1, chars.len());
        assert(a@ =~= s@.take(i as int));
        assert(b@ =~= s@.skip(i + 1));
        Some((a, b))
    } else {
        None
    }
}

/// Whether a text begins with another.
pub open spec fn starts_with(s: Text, prefix: Text) -> bool {
    prefix.len() <= s.len() && s.take(prefix.len() as int) == prefix
}

/// `str::starts_with`.
pub(crate) fn has_prefix(s: &str, prefix: &str) -> (r: bool)
    ensures
        r == starts_with(s@, prefix@),
{
    let n = prefix.unicode_len();
    if s.unicode_len() < n {
        return false;
    }
    let head = s.substring_char(0, n);
    assert(head@ =~= s@.take(n as int));
    str_eq(head, prefix)
}

/// A part of a text takes no more bytes than the text.
pub proof fn lemma_byte_len_take(s: Text, i: int)
    requires
        0 <= i <= s.len(),
    ensures
        byte_len(s.take(i)) <= byte_len(s),
    decreases s.len(),
{
    if i == s.len() {
        assert(s.take(i) =~= s);
    } else {
        lemma_byte_len_take(s.drop_last(), i);
        assert(s.drop_last().take(i) =~= s.take(i));
    }
}

/// `str::len`: the number of bytes that encode a text in UTF-8.
pub(crate) fn byte_len_of(s: &str) -> (r: usize)
    requires
        byte_len(s@) <= usize::MAX,
    ensures
        r == byte_len(s@),
{
    let chars = chars_of(s);
    let mut total: usize = 0;
    let mut i: usize = 0;
    assert(s@.take(0) =~= Seq::<char>::empty());
    while i < chars.len()
        invariant
            0 <= i <= chars.len(),
            chars@ == s@,
            byte_len(s@) <= usize::MAX,
            total == byte_len(s@.take(i as int)),
        decreases chars.len() - i,
    {
        proof {
            lemma_byte_len_take(s@, i + 1);
            assert(s@.take(i + 1).drop_last() =~= s@.take(i as int));
        }
        total = total + utf8_len_of(chars[i]);
        i = i + 1;
    }
    assert(s@.take(s@.len() as int) =~= s@);
    total
}

/// The number of bytes that encode the first characters of a text in UTF-8.
pub(crate) fn byte_offset(chars: &Vec<char>, n: usize) -> (r: u128)
    requires
        n <= chars@.len(),
    ensures
        r == byte_len(chars@.take(n as int)),
{
    let mut total: u128 = 0;
    let mut i: usize = 0;
    assert(chars@.take(0) =~= Seq::<char>::empty());
    while i < n
        invariant
            0 <= i <= n <= chars@.len(),
            total == byte_len(chars@.take(i as int)),
            total <= 4 * i,
        decreases n - i,
    {
        assert(chars@.take(i + 1).drop_last() =~= chars@.take(i as int));
        total = total + utf8_len_of(chars[i]) as u128;
        i = i + 1;
    }
    total
}

/// Whether a text stands in another at a position.
pub open spec fn occurs_at(s: Text, part: Text, i: int) -> bool {
    0 <= i && i + part.len() <= s.len() && s.subrange(i, i + part.len()) == part
}

/// Whether a text stands somewhere in another.
pub open spec fn contains(s: Text, part: Text) -> bool {
    exists|i: int| occurs_at(s, part, i)
}

fn stands_at(s: &Vec<char>, part: &Vec<char>, i: usize) -> (r: bool)
    requires
        i + part@.len() <= s@.len(),
    ensures
        r == occurs_at(s@, part@, i as int),
{
    let mut j: usize = 0;
    while j < part.len()
        invariant
            0 <= j <= part.len(),
            i + part.len() <= s.len(),
            forall|k: int| 0 <= k < j ==> s@[i + k] == part@[k],
        decreases part.len() - j,
    {
        if s[i + j] != part[j] {
            assert(s@.subrange(i as int, i + part@.len())[j as int] != part@[j as int]);
            return false;
        }
        j = j + 1;
    }
    assert(s@.subrange(i as int, i + part@.len()) =~= part@);
    true
}

/// Where a text stands in another for the first time, if it does.
pub open spec fn find_from(s: Text, part: Text, from: int) -> Option<int>
    decreases s.len() + 1 - from,
{
    if from < 0 || from + part.len() > s.len() {
        None
    } else if occurs_at(s, part, from) {
        Some(from)
    } else {
        find_from(s, part, from + 1)
    }
}

/// `str::find`, counted in characters: where a text stands in another for the
/// first time, if it does.
pub open spec fn find(s: Text, part: Text) -> Option<int> {
    find_from(s, part, 0)
}

/// `find` gives the first place, if there is one.
pub proof fn lemma_find(s: Text, part: Text, from: int)
    requires
        from >= 0,
    ensures
        match find_from(s, part, from) {
            Some(i) => from <= i && occurs_at(s, part, i) && forall|j: int|
                from <= j < i ==> !occurs_at(s, part, j),
            None => forall|j: int| from <= j ==> !occurs_at(s, part, j),
        },
    decreases s.len() + 1 - from,
{
    if from + part.len() <= s.len() && !occurs_at(s, part, from) {
        lemma_find(s, part, from + 1);
    }
}

/// The first place is the one that `find` gives.
pub proof fn lemma_find_is(s: Text, part: Text, i: int)
    requires
        occurs_at(s, part, i),
        forall|j: int| 0 <= j < i ==> !occurs_at(s, part, j),
    ensures
        find(s, part) == Some(i),
{
    lemma_find(s, part, 0);
}

/// `str::find`, counted in characters.
pub(crate) fn find_text(s: &Vec<char>, part: &Vec<char>, from: usize) -> (r: Option<usize>)
    ensures
        match find_from(s@, part@, from as int) {
            Some(i) => r matches Some(x) && x == i && from <= x && x + part.len() <= s.len(),
            None => r is None,
        },
{
    let n = part.len();
    let mut i: usize = from;
    while i <= s.len() && n <= s.len() - i
        invariant
            from <= i,
            n == part@.len(),
            find_from(s@, part@, from as int) == find_from(s@, part@, i as int),
        decreases s.len() + 1 - i,
    {
        if stands_at(s, part, i) {
            return Some(i);
        }
        if i == s.len() {
            assert(s@.subrange(i as int, i as int) =~= part@);
            return None;
        }
        i = i + 1;
    }
    None
}

/// `str::contains`: whether a text stands somewhere in another.
pub fn contains_text(s: &str, part: &str) -> (r: bool)
    ensures
        r == contains(s@, part@),
{
    let chars = chars_of(s);
    let wanted = chars_of(part);
    let n = wanted.len();
    if n > chars.len() {
        return false;
    }
    let mut i: usize = 0;
    while i <= chars.len() - n
        invariant
            n <= chars.len(),
            n == wanted.len(),
            0 <= i <= chars.len() - n + 1,
            chars@ == s@,
            wanted@ == part@,
            forall|k: int| 0 <= k < i ==> !occurs_at(s@, part@, k),
        decreases chars.len() - n + 1 - i,
    {
        if stands_at(&chars, &wanted, i) {
            return true;
        }
        if i == chars.len() - n {
            return false;
        }
        i = i + 1;
    }
    false
}

/// The lowercase equivalent of a text (`str::to_lowercase`).
pub uninterp spec fn lowercase(s: Text) -> Text;

/// `str::to_lowercase`: the lowercase equivalent of a text by the Unicode
/// mapping. The mapping itself is left unsaid.
#[verifier::external_body]
pub(crate) fn to_lowercase(s: &str) -> (r: String)
    ensures
        r@ == lowercase(s@),
{
    s.to_lowercase()
}

/// The uppercase equivalent of a text (`str::to_uppercase`).
pub uninterp spec fn uppercase(s: Text) -> Text;

/// `str::to_uppercase`: the uppercase equivalent of a text by the Unicode
/// mapping. The mapping itself is left unsaid.
#[verifier::external_body]
pub(crate) fn to_uppercase(s: &str) -> (r: String)
    ensures
        r@ == uppercase(s@),
{
    s.to_uppercase()
}

/// The last `n` items of a list, or all of them where there are no more.
pub open spec fn tail<A>(s: Seq<A>, n: int) -> Seq<A> {
    if n >= s.len() {
        s
    } else {
        s.skip(s.len() - n)
    }
}

/// Whether two characters are the same letter; `lower` is a small one.
pub open spec fn same_letter(c: char, lower: char) -> bool {
    c == lower || c as u32 + 32 == lower as u32
}

/// Whether a text is a word, in whichever case; `word` is in small letters.
pub open spec fn same_word(s: Text, word: Text) -> bool {
    s.len() == word.len() && forall|i: int|
        0 <= i < s.len() ==> same_letter(#[trigger] s[i], word[i])
}

/// Whether a character is a letter, in whichever case; `lower` is a small one.
pub(crate) fn is_letter(c: char, lower: char) -> (r: bool)
    requires
        'a' <= lower && lower <= 'z',
    ensures
        r == same_letter(c, lower),
{
    c == lower || c as u32 + 32 == lower as u32
}

/// `str::eq_ignore_ascii_case` with a word in small letters.
pub(crate) fn is_word(s: &str, word: &str) -> (r: bool)
    requires
        forall|i: int| 0 <= i < word@.len() ==> 'a' <= #[trigger] word@[i] && word@[i] <= 'z',
    ensures
        r == same_word(s@, word@),
{
    let chars = chars_of(s);
    let letters = chars_of(word);
    if chars.len() != letters.len() {
        return false;
    }
    let mut i: usize = 0;
    while i < chars.len()
        invariant
            0 <= i <= chars.len(),
            chars@ == s@,
            letters@ == word@,
            chars@.len() == letters@.len(),
            forall|j: int| 0 <= j < word@.len() ==> 'a' <= #[trigger] word@[j] && word@[j] <= 'z',
            forall|j: int| 0 <= j < i ==> same_letter(#[trigger] s@[j], word@[j]),
        decreases chars.len() - i,
    {
        assert('a' <= word@[i as int] && word@[i as int] <= 'z');
        if !is_letter(chars[i], letters[i]) {
            assert(!same_letter(s@[i as int], word@[i as int]));
            return false;
        }
        i = i + 1;
    }
    true
}

} // verus!
