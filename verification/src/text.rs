//! Building text: decimal numbers and dotted names.

use vstd::prelude::*;

verus! {

/// `String::push_str` appends the characters of its argument.
pub assume_specification[ String::push_str ](s: &mut String, t: &str)
    ensures
        final(s)@ == old(s)@ + t@,
;

/// `String::push` appends one character.
pub assume_specification[ String::push ](s: &mut String, c: char)
    ensures
        final(s)@ == old(s)@.push(c),
;

/// The decimal digit of a value below ten.
pub open spec fn digit_of(d: nat) -> char {
    ('0' as nat + d) as char
}

/// The decimal digits of a number, without leading zeros.
pub open spec fn decimal(n: nat) -> Seq<char>
    decreases n,
{
    if n < 10 {
        seq![digit_of(n)]
    } else {
        decimal(n / 10).push(digit_of(n % 10))
    }
}

fn digit(d: usize) -> (c: char)
    requires
        d < 10,
    ensures
        c == digit_of(d as nat),
{
    match d {
        0 => '0',
        1 => '1',
        2 => '2',
        3 => '3',
        4 => '4',
        5 => '5',
        6 => '6',
        7 => '7',
        8 => '8',
        _ => '9',
    }
}

/// Appends a number in decimal.
pub fn push_number(s: &mut String, n: usize)
    ensures
        final(s)@ == old(s)@ + decimal(n as nat),
    decreases n,
{
    if n >= 10 {
        push_number(s, n / 10);
    }
    s.push(digit(n % 10));
}

/// A name part followed by a dot, or nothing for an empty part.
pub open spec fn dotted(prefix: Seq<char>, part: Seq<char>) -> Seq<char> {
    if part.len() == 0 {
        prefix
    } else if prefix.len() == 0 {
        part
    } else {
        prefix + seq!['.'] + part
    }
}

/// Appends a name part, with a dot between it and what stands before it.
pub fn push_part(s: &mut String, part: &str)
    ensures
        final(s)@ == dotted(old(s)@, part@),
{
    if part.is_empty() {
        return ;
    }
    if !s.as_str().is_empty() {
        s.push('.');
    }
    s.push_str(part);
}

/// Appends a numbered name part.
pub fn push_index(s: &mut String, index: usize)
    ensures
        final(s)@ == dotted(old(s)@, decimal(index as nat)),
{
    proof {
        lemma_decimal_nonempty(index as nat);
    }
    if !s.as_str().is_empty() {
        s.push('.');
    }
    push_number(s, index);
}

/// A number has at least one digit.
pub proof fn lemma_decimal_nonempty(n: nat)
    ensures
        decimal(n).len() > 0,
{
}

} // verus!
