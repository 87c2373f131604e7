//! Paths as texts: joining, and names made of a hash.

use crate::text::{self, Text};
use vstd::prelude::*;

verus! {

/// `Path::join` with a relative path: the two with a separator between them,
/// unless the first is empty or ends in one.
pub open spec fn joined(dir: Text, name: Text) -> Text {
    if dir.len() == 0 || dir.last() == '/' {
        dir + name
    } else {
        dir + "/"@ + name
    }
}

/// `Path::join` with a relative path.
pub fn join(dir: &str, name: &str) -> (r: String)
    ensures
        r@ == joined(dir@, name@),
{
    let n = dir.unicode_len();
    if n == 0 || dir.get_char(n - 1) == '/' {
        text::cat2(dir, name)
    } else {
        text::cat3(dir, "/", name)
    }
}

/// The hexadecimal digit of a number below sixteen.
pub open spec fn hex_digit(d: nat) -> char {
    if d < 10 {
        (48 + d) as char
    } else {
        (87 + d) as char
    }
}

/// The last `width` hexadecimal digits of a number.
pub open spec fn hex(n: nat, width: nat) -> Text
    decreases width,
{
    if width == 0 {
        Seq::empty()
    } else {
        hex(n / 16, (width - 1) as nat).push(hex_digit(n % 16))
    }
}

fn hex_of(n: u64, width: u32) -> (r: String)
    ensures
        r@ == hex(n as nat, width as nat),
    decreases width,
{
    if width == 0 {
        let s = String::new();
        assert(s@ =~= Seq::empty());
        return s;
    }
    let mut s = hex_of(n / 16, width - 1);
    let d: u8 = (n % 16) as u8;
    let c: char = if d < 10 {
        (48u8 + d) as char
    } else {
        (87u8 + d) as char
    };
    text::push_char(&mut s, c);
    s
}

/// A hash as a file name: sixteen hexadecimal digits and an ending.
pub open spec fn hash_name(hash: u64, ending: Text) -> Text {
    hex(hash as nat, 16) + ending
}

/// A hash as a file name: sixteen hexadecimal digits and an ending.
pub fn hash_name_of(hash: u64, ending: &str) -> (r: String)
    ensures
        r@ == hash_name(hash, ending@),
{
    text::cat2(hex_of(hash, 16).as_str(), ending)
}

/// What sixteen hexadecimal digits stand for.
pub open spec fn hex_value(n: nat, width: nat) -> nat
    decreases width,
{
    if width == 0 {
        0
    } else {
        16 * hex_value(n / 16, (width - 1) as nat) + n % 16
    }
}

proof fn lemma_hex_digit_apart(a: nat, b: nat)
    requires
        a < 16,
        b < 16,
        hex_digit(a) == hex_digit(b),
    ensures
        a == b,
{
}

proof fn lemma_hex_apart(a: nat, b: nat, width: nat)
    requires
        hex(a, width) == hex(b, width),
    ensures
        hex_value(a, width) == hex_value(b, width),
    decreases width,
{
    if width > 0 {
        let x = hex(a / 16, (width - 1) as nat);
        let y = hex(b / 16, (width - 1) as nat);
        assert(x =~= hex(a, width).drop_last());
        assert(y =~= hex(b, width).drop_last());
        assert(x.push(hex_digit(a % 16)).last() == y.push(hex_digit(b % 16)).last());
        lemma_hex_digit_apart(a % 16, b % 16);
        lemma_hex_apart(a / 16, b / 16, (width - 1) as nat);
    }
}

proof fn lemma_hex_value(n: u64)
    ensures
        hex_value(n as nat, 16) == n,
{
    reveal_with_fuel(hex_value, 17);
}

/// Different hashes have different names.
pub proof fn law_names_of_hashes_differ(a: u64, b: u64, ending: Text)
    requires
        hash_name(a, ending) == hash_name(b, ending),
    ensures
        a == b,
{
    lemma_hex_len(a as nat, 16);
    lemma_hex_len(b as nat, 16);
    assert(hex(a as nat, 16) =~= hash_name(a, ending).take(16));
    assert(hex(b as nat, 16) =~= hash_name(b, ending).take(16));
    lemma_hex_apart(a as nat, b as nat, 16);
    lemma_hex_value(a);
    lemma_hex_value(b);
}

proof fn lemma_hex_len(n: nat, width: nat)
    ensures
        hex(n, width).len() == width,
    decreases width,
{
    if width > 0 {
        lemma_hex_len(n / 16, (width - 1) as nat);
    }
}

/// The digits of a hash in a name are the sixteen figures and small letters of its
/// value, the most significant first: one digit more is sixteen times what stands before
/// it, and what it adds.
pub proof fn law_a_hash_is_written_in_small_digits(n: nat, width: nat, i: int)
    requires
        0 <= i < width,
    ensures
        hex(n, width).len() == width,
        '0' <= hex(n, width)[i] <= '9' || 'a' <= hex(n, width)[i] <= 'f',
        n % 16 < 10 ==> hex(n, width).last() as nat == '0' as nat + n % 16,
        n % 16 >= 10 ==> hex(n, width).last() as nat == 'a' as nat + n % 16 - 10,
        hex(n, width).drop_last() == hex(n / 16, (width - 1) as nat),
    decreases width,
{
    lemma_hex_len(n, width);
    lemma_hex_len(n / 16, (width - 1) as nat);
    if i < width - 1 {
        law_a_hash_is_written_in_small_digits(n / 16, (width - 1) as nat, i);
    }
}

} // verus!
