//! Switches read from textual settings.
//!
//! A setting is the text it was given, or nothing where it was not given.

use vstd::prelude::*;
use vstd::string::*;

verus! {

/// Tells whether two texts are the same.
pub fn same_text(a: &str, b: &str) -> (r: bool)
    ensures
        r == (a@ == b@),
{
    let n: usize = a.unicode_len();
    if n != b.unicode_len() {
        return false;
    }
    let mut i: usize = 0;
    while i < n
        invariant
            i <= n,
            n == a@.len(),
            n == b@.len(),
            forall|j: int| 0 <= j < i ==> a@[j] == b@[j],
        decreases n - i,
    {
        if a.get_char(i) != b.get_char(i) {
            return false;
        }
        i = i + 1;
    }
    assert(a@ =~= b@);
    true
}

/// The setting was given as exactly `text`.
pub open spec fn given_as(value: Option<&str>, text: Seq<char>) -> bool {
    value matches Some(v) && v@ == text
}

fn is_given_as(value: Option<&str>, text: &str) -> (r: bool)
    ensures
        r == given_as(value, text@),
{
    match value {
        Some(v) => same_text(v, text),
        None => false,
    }
}

/// A switch that is on unless it is set to `0`.
pub fn unless_zero(value: Option<&str>) -> (on: bool)
    ensures
        on == !given_as(value, "0"@),
{
    !is_given_as(value, "0")
}

/// A switch that is off unless it is set to `1`.
pub fn only_one(value: Option<&str>) -> (on: bool)
    ensures
        on == given_as(value, "1"@),
{
    is_given_as(value, "1")
}

/// A switch that is on unless it is set to `0`, `false` or `off`.
pub fn unless_off(value: Option<&str>) -> (on: bool)
    ensures
        on == !(given_as(value, "0"@) || given_as(value, "false"@) || given_as(value, "off"@)),
{
    !(is_given_as(value, "0") || is_given_as(value, "false") || is_given_as(value, "off"))
}

/// A switch that is off unless it is set to `1`, `true` or `on`.
pub fn only_on(value: Option<&str>) -> (on: bool)
    ensures
        on == (given_as(value, "1"@) || given_as(value, "true"@) || given_as(value, "on"@)),
{
    is_given_as(value, "1") || is_given_as(value, "true") || is_given_as(value, "on")
}

} // verus!
