//! Small text operations on which the rest of the library builds.
use vstd::prelude::*;

verus! {

/// Whether two string slices hold the same characters, in the same order.
pub(crate) fn same_text(a: &str, b: &str) -> (r: bool)
    ensures
        r == (a@ == b@),
{
    let n = a.unicode_len();
    if n != b.unicode_len() {
        return false;
    }
    let mut i: usize = 0;
    while i < n
        invariant
            n == a@.len(),
            n == b@.len(),
            0 <= i <= n,
            forall|j: int| 0 <= j < i ==> a@[j] == b@[j],
        decreases n - i,
    {
        if a.get_char(i) != b.get_char(i) {
            return false;
        }
        i = i + 1;
    }
    assert(a@ =~= b@);
    true
}

/// `String::push` of std: appends one character. Trusted: the body is std's
/// `push`, which its documentation says appends the character to the end.
#[verifier::external_body]
pub(crate) fn push_char(text: &mut String, c: char)
    ensures
        final(text)@ == old(text)@.push(c),
{
    text.push(c)
}


/// The texts of a sequence of strings.
pub open spec fn texts(v: Seq<String>) -> Seq<Seq<char>> {
    v.map_values(|s: String| s@)
}

pub proof fn lemma_texts_push(v: Seq<String>, x: String)
    ensures
        texts(v.push(x)) == texts(v).push(x@),
{
    assert(texts(v.push(x)) =~= texts(v).push(x@));
}

/// The character of a decimal digit.
pub open spec fn digit_char(d: int) -> char {
    if d == 0 {
        '0'
    } else if d == 1 {
        '1'
    } else if d == 2 {
        '2'
    } else if d == 3 {
        '3'
    } else if d == 4 {
        '4'
    } else if d == 5 {
        '5'
    } else if d == 6 {
        '6'
    } else if d == 7 {
        '7'
    } else if d == 8 {
        '8'
    } else {
        '9'
    }
}

/// The decimal digits of a natural number, most significant first, with no
/// leading zeros.
pub open spec fn digits(n: nat) -> Seq<char>
    decreases n,
{
    if n < 10 {
        seq![digit_char(n as int)]
    } else {
        digits(n / 10).push(digit_char((n % 10) as int))
    }
}

/// The decimal text of an integer, with a minus sign when it is negative.
pub open spec fn int_text(n: int) -> Seq<char> {
    if n < 0 {
        seq!['-'] + digits((-n) as nat)
    } else {
        digits(n as nat)
    }
}

fn digit_of(d: u64) -> (c: char)
    requires
        d < 10,
    ensures
        c == digit_char(d as int),
{
    match d {
        0 => '0',
        1 => '1',
        2 => '2',
        3 => '3',
        4 => '4',
        5 => '5',
        6 => '6',
        7 => '7',
        8 => '8',
        _ => '9',
    }
}

/// The decimal text of `n`, as `to_string` writes an integer.
pub fn int_to_text(n: i32) -> (r: String)
    ensures
        r@ == int_text(n as int),
{
    let magnitude: u64 = if n < 0 { (-(n as i64)) as u64 } else { n as u64 };
    let mut rest: u64 = magnitude;
    // the digits, least significant first
    let mut reversed: Vec<char> = Vec::new();
    while rest >= 10
        invariant
            digits(magnitude as nat) == digits(rest as nat) + reversed@.reverse(),
        decreases rest,
    {
        let ghost before = reversed@;
        reversed.push(digit_of(rest % 10));
        assert(reversed@.reverse() =~= seq![digit_char((rest % 10) as int)] + before.reverse());
        assert(digits(rest as nat) == digits((rest / 10) as nat).push(digit_char((rest % 10) as int)));
        assert(digits(rest as nat) + before.reverse() =~= digits((rest / 10) as nat) + reversed@.reverse());
        rest = rest / 10;
    }
    let ghost before = reversed@;
    reversed.push(digit_of(rest));
    assert(reversed@.reverse() =~= seq![digit_char(rest as int)] + before.reverse());
    assert(digits(magnitude as nat) =~= reversed@.reverse());
    let mut text = String::new();
    if n < 0 {
        push_char(&mut text, '-');
    }
    let ghost prefix = text@;
    let mut i: usize = reversed.len();
    while i > 0
        invariant
            0 <= i <= reversed@.len(),
            text@ == prefix + reversed@.reverse().take(reversed@.len() - i),
        decreases i,
    {
        i = i - 1;
        let ghost old_text = text@;
        push_char(&mut text, reversed[i]);
        assert(reversed@.reverse().take(reversed@.len() - i) =~= reversed@.reverse().take(
            reversed@.len() - i - 1,
        ).push(reversed@[i as int]));
    }
    assert(reversed@.reverse().take(reversed@.len() as int) =~= reversed@.reverse());
    text
}

/// Appends `other` to `text`.
pub fn push_text(text: &mut String, other: &str)
    ensures
        final(text)@ == old(text)@ + other@,
{
    text.append(other);
}

} // verus!
