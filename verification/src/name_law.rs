//! What the names of weights tell apart: numbers are read back from their digits,
//! and every layer and every expert has names of its own.

use crate::text::{decimal, digit_of, dotted, lemma_decimal_nonempty};
use crate::weights::WeightPath;
use vstd::prelude::*;

verus! {

/// The number that decimal digits stand for.
pub open spec fn digits_value(s: Seq<char>) -> int
    decreases s.len(),
{
    if s.len() == 0 {
        0
    } else {
        10 * digits_value(s.drop_last()) + (s.last() as int - '0' as int)
    }
}

/// The digits of a number, read from left to right, give the number again; each is
/// a decimal digit, and the first is zero in zero's own digit only.
pub proof fn law_digits_read_back(n: nat)
    ensures
        digits_value(decimal(n)) == n,
        forall|i: int| 0 <= i < decimal(n).len() ==> '0' <= #[trigger] decimal(n)[i] <= '9',
        n > 0 ==> decimal(n)[0] != '0',
    decreases n,
{
    let s = decimal(n);
    assert('0' as int == 48 && '9' as int == 57);
    if n < 10 {
        assert(s.drop_last() =~= Seq::empty());
        assert(digits_value(s.drop_last()) == 0);
        assert(digit_of(n) as int == 48 + n);
    } else {
        law_digits_read_back(n / 10);
        lemma_decimal_nonempty(n / 10);
        assert(s.drop_last() =~= decimal(n / 10));
        assert(digit_of(n % 10) as int == 48 + n % 10);
        assert(s[0] == decimal(n / 10)[0]);
    }
}

/// Two numbers with the same digits are the same number.
pub proof fn law_digits_tell_numbers_apart(a: nat, b: nat)
    requires
        decimal(a) == decimal(b),
    ensures
        a == b,
{
    law_digits_read_back(a);
    law_digits_read_back(b);
}

proof fn lemma_same_tail(a: Seq<char>, b: Seq<char>, tail: Seq<char>)
    requires
        a + tail == b + tail,
    ensures
        a == b,
{
    let (x, y) = (a + tail, b + tail);
    assert(x.len() == a.len() + tail.len() && y.len() == b.len() + tail.len());
    assert(x.take(a.len() as int) =~= a);
    assert(y.take(b.len() as int) =~= b);
}

proof fn lemma_same_front(front: Seq<char>, a: Seq<char>, b: Seq<char>)
    requires
        front + a == front + b,
    ensures
        a == b,
{
    let (x, y) = (front + a, front + b);
    assert(x.skip(front.len() as int) =~= a);
    assert(y.skip(front.len() as int) =~= b);
}

proof fn lemma_same_part(a: Seq<char>, b: Seq<char>, part: Seq<char>)
    requires
        a.len() > 0,
        b.len() > 0,
        dotted(a, part) == dotted(b, part),
    ensures
        a == b,
{
    if part.len() > 0 {
        assert(a + seq!['.'] + part =~= a + (seq!['.'] + part));
        assert(b + seq!['.'] + part =~= b + (seq!['.'] + part));
        lemma_same_tail(a, b, seq!['.'] + part);
    }
}

proof fn lemma_same_number(prefix: Seq<char>, a: nat, b: nat)
    requires
        dotted(prefix, decimal(a)) == dotted(prefix, decimal(b)),
    ensures
        a == b,
{
    lemma_decimal_nonempty(a);
    lemma_decimal_nonempty(b);
    if prefix.len() > 0 {
        lemma_same_front(prefix + seq!['.'], decimal(a), decimal(b));
    }
    law_digits_tell_numbers_apart(a, b);
}

/// Weights that differ in their layer alone have different names.
pub proof fn law_layers_have_names_of_their_own(path: WeightPath, a: usize, b: usize)
    requires
        (WeightPath { layer: Some(a), ..path }).spec_name() == (WeightPath {
            layer: Some(b),
            ..path
        }).spec_name(),
    ensures
        a == b,
{
    lemma_decimal_nonempty(a as nat);
    lemma_decimal_nonempty(b as nat);
    let (la, lb) = (dotted(path.base@, decimal(a as nat)), dotted(path.base@, decimal(b as nat)));
    let (sa, sb) = (dotted(la, path.scope@), dotted(lb, path.scope@));
    match path.expert {
        Some(e) => {
            let (ea, eb) = (dotted(sa, decimal(e as nat)), dotted(sb, decimal(e as nat)));
            lemma_same_part(ea, eb, path.leaf@);
            lemma_same_part(sa, sb, decimal(e as nat));
        },
        None => {
            lemma_same_part(sa, sb, path.leaf@);
        },
    }
    lemma_same_part(la, lb, path.scope@);
    lemma_same_number(path.base@, a as nat, b as nat);
}

/// Weights that differ in their expert alone have different names.
pub proof fn law_experts_have_names_of_their_own(path: WeightPath, a: usize, b: usize)
    requires
        (WeightPath { expert: Some(a), ..path }).spec_name() == (WeightPath {
            expert: Some(b),
            ..path
        }).spec_name(),
    ensures
        a == b,
{
    lemma_decimal_nonempty(a as nat);
    lemma_decimal_nonempty(b as nat);
    let scope = dotted(crate::weights::with_index(path.base@, path.layer), path.scope@);
    lemma_same_part(
        dotted(scope, decimal(a as nat)),
        dotted(scope, decimal(b as nat)),
        path.leaf@,
    );
    lemma_same_number(scope, a as nat, b as nat);
}

} // verus!
