//! Small helpers on strings and character sequences.

use vstd::prelude::*;

verus! {

/// A run of `n` blanks.
pub open spec fn blanks(n: nat) -> Seq<char> {
    Seq::new(n, |i: int| ' ')
}

/// `String::push` appends the character to the end of the string.
pub assume_specification[ String::push ](s: &mut String, c: char)
    ensures
        final(s)@ == old(s)@.push(c),
;

/// Appends `n` blanks to the string.
pub fn push_blanks(s: &mut String, n: usize)
    ensures
        final(s)@ == old(s)@ + blanks(n as nat),
{
    let mut i: usize = 0;
    assert(s@ =~= old(s)@ + blanks(0));
    while i < n
        invariant
            i <= n,
            s@ == old(s)@ + blanks(i as nat),
        decreases n - i,
    {
        s.push(' ');
        i += 1;
        assert(s@ =~= old(s)@ + blanks(i as nat));
    }
}

/// `n`, or the largest `usize` where `n` is larger.
pub open spec fn capped(n: int) -> int {
    if n > usize::MAX {
        usize::MAX as int
    } else {
        n
    }
}

/// The sum of two numbers, or the largest `usize` where the sum is larger.
pub fn plus(a: usize, b: usize) -> (sum: usize)
    ensures
        sum == capped(a + b),
{
    a.saturating_add(b)
}

/// The product of two numbers, or the largest `usize` where the product is
/// larger.
pub fn times(a: usize, b: usize) -> (product: usize)
    ensures
        product == capped(a * b),
{
    match a.checked_mul(b) {
        Some(product) => product,
        None => usize::MAX,
    }
}

/// The decimal numeral of `n`.
pub fn number_text(n: usize) -> (text: String)
    ensures
        text@ == decimal(n as nat),
{
    let mut text = String::new();
    push_decimal(&mut text, n);
    assert(text@ =~= decimal(n as nat));
    text
}

/// The character of a decimal digit.
pub open spec fn digit_char(d: int) -> char {
    if d == 0 {
        '0'
    } else if d == 1 {
        '1'
    } else if d == 2 {
        '2'
    } else if d == 3 {
        '3'
    } else if d == 4 {
        '4'
    } else if d == 5 {
        '5'
    } else if d == 6 {
        '6'
    } else if d == 7 {
        '7'
    } else if d == 8 {
        '8'
    } else {
        '9'
    }
}

/// The decimal numeral of `n`, without leading zeros.
pub open spec fn decimal(n: nat) -> Seq<char>
    decreases n,
{
    if n < 10 {
        seq![digit_char(n as int)]
    } else {
        decimal(n / 10).push(digit_char((n % 10) as int))
    }
}

fn digit(d: usize) -> (c: char)
    requires
        d < 10,
    ensures
        c == digit_char(d as int),
{
    if d == 0 {
        '0'
    } else if d == 1 {
        '1'
    } else if d == 2 {
        '2'
    } else if d == 3 {
        '3'
    } else if d == 4 {
        '4'
    } else if d == 5 {
        '5'
    } else if d == 6 {
        '6'
    } else if d == 7 {
        '7'
    } else if d == 8 {
        '8'
    } else {
        '9'
    }
}

/// Appends the decimal numeral of `n` to the string.
pub fn push_decimal(s: &mut String, n: usize)
    ensures
        final(s)@ == old(s)@ + decimal(n as nat),
    decreases n,
{
    if n >= 10 {
        push_decimal(s, n / 10);
    }
    s.push(digit(n % 10));
    assert(s@ =~= old(s)@ + decimal(n as nat));
}

/// The characters of a string slice.
pub fn to_chars(s: &str) -> (v: Vec<char>)
    ensures
        v@ == s@,
{
    let mut v: Vec<char> = Vec::new();
    for c in it: s.chars()
        invariant
            v@ == it.seq().take(it.index() as int),
            it.seq() == s@,
    {
        v.push(c);
    }
    v
}

/// The string made of the characters `from..to` of `v`.
pub(crate) fn from_chars(v: &Vec<char>, from: usize, to: usize) -> (s: String)
    requires
        from <= to <= v.len(),
    ensures
        s@ == v@.subrange(from as int, to as int),
{
    let mut s = String::new();
    let mut i: usize = from;
    while i < to
        invariant
            from <= i <= to <= v.len(),
            s@ == v@.subrange(from as int, i as int),
        decreases to - i,
    {
        s.push(v[i]);
        i += 1;
    }
    s
}

/// Whether the characters are those of `text`.
pub fn chars_equal(chars: &Vec<char>, text: &str) -> (b: bool)
    ensures
        b == (chars@ == text@),
{
    let mut same = true;
    let mut i: usize = 0;
    for c in it: text.chars()
        invariant
            it.seq() == text@,
            same ==> i == it.index() && i <= chars.len() && chars@.take(i as int) == text@.take(
                i as int,
            ),
            !same ==> chars@ != text@,
    {
        if same {
            if i < chars.len() && chars[i] == c {
                assert(chars@.take(i + 1) =~= chars@.take(i as int).push(chars[i as int]));
                assert(text@.take(i + 1) =~= text@.take(i as int).push(c));
                i += 1;
            } else {
                same = false;
                assert(chars@ != text@) by {
                    if chars@ == text@ {
                        assert(chars@[i as int] == text@[i as int]);
                    }
                }
            }
        }
    }
    proof {
        if same {
            assert(text@.take(text@.len() as int) =~= text@);
            if i == chars.len() {
                assert(chars@.take(i as int) =~= chars@);
            }
        }
    }
    same && i == chars.len()
}

/// Whether the characters begin with those of `prefix`.
pub fn chars_start_with(chars: &Vec<char>, prefix: &str) -> (b: bool)
    ensures
        b == (prefix@.len() <= chars.len() && chars@.subrange(0, prefix@.len() as int)
            == prefix@),
{
    let other = to_chars(prefix);
    if other.len() > chars.len() {
        return false;
    }
    let mut i: usize = 0;
    while i < other.len()
        invariant
            i <= other.len() <= chars.len(),
            other@ == prefix@,
            forall|j: int| 0 <= j < i ==> chars[j] == other[j],
        decreases other.len() - i,
    {
        if chars[i] != other[i] {
            assert(chars@.subrange(0, other.len() as int)[i as int] != other[i as int]);
            return false;
        }
        i += 1;
    }
    assert(chars@.subrange(0, other.len() as int) =~= other@);
    true
}

} // verus!
