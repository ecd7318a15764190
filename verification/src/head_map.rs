//! Which key-value head a query head reads.

use crate::rows::lemma_row_bounds;
use vstd::prelude::*;

verus! {

/// Heads share key-value heads in equal groups.
pub open spec fn grouped_heads(heads: nat, kv_heads: nat) -> Seq<usize> {
    Seq::new(heads, |h: int| (h / (heads as int / kv_heads as int)) as usize)
}

/// Heads are spread proportionally over key-value heads.
pub open spec fn spread_heads(heads: nat, kv_heads: nat) -> Seq<usize> {
    Seq::new(heads, |h: int| (h * kv_heads / heads as int) as usize)
}

/// Where heads divide evenly, both ways to share key-value heads agree: the
/// paged history serves each head what the plain history serves it.
pub proof fn law_head_tables_agree(heads: nat, kv_heads: nat)
    requires
        0 < kv_heads,
        heads % kv_heads == 0,
    ensures
        grouped_heads(heads, kv_heads) == spread_heads(heads, kv_heads),
{
    let group = heads as int / kv_heads as int;
    vstd::arithmetic::div_mod::lemma_fundamental_div_mod(heads as int, kv_heads as int);
    assert(heads == kv_heads * group);
    assert forall|h: int| 0 <= h < heads implies #[trigger] grouped_heads(heads, kv_heads)[h]
        == spread_heads(heads, kv_heads)[h] by {
        assert(group > 0) by (nonlinear_arith)
            requires
                heads == kv_heads * group,
                0 <= h < heads,
                0 < kv_heads,
        ;
        vstd::arithmetic::div_mod::lemma_div_denominator(
            h * kv_heads,
            kv_heads as int,
            group,
        );
        vstd::arithmetic::div_mod::lemma_div_by_multiple(h, kv_heads as int);
    }
    assert(grouped_heads(heads, kv_heads) =~= spread_heads(heads, kv_heads));
}

/// The key-value head of every head, in equal groups.
pub fn grouped_table(heads: usize, kv_heads: usize) -> (table: Vec<usize>)
    requires
        0 < kv_heads,
        heads == 0 || kv_heads <= heads,
    ensures
        table@ == grouped_heads(heads as nat, kv_heads as nat),
{
    let mut table: Vec<usize> = Vec::new();
    proof {
        if heads > 0 {
            assert(heads as int / kv_heads as int >= 1) by (nonlinear_arith)
                requires
                    0 < kv_heads <= heads,
            ;
        }
    }
    let group: usize = heads / kv_heads;
    let mut h: usize = 0;
    while h < heads
        invariant
            h <= heads,
            group == heads as int / kv_heads as int,
            heads > 0 ==> group > 0,
            table@ == Seq::new(h as nat, |h: int| (h / (heads as int / kv_heads as int)) as usize),
        decreases heads - h,
    {
        table.push(h / group);
        h = h + 1;
    }
    table
}

/// The key-value head of every head, spread proportionally.
pub fn spread_table(heads: usize, kv_heads: usize) -> (table: Vec<usize>)
    requires
        heads * kv_heads <= usize::MAX,
    ensures
        table@ == spread_heads(heads as nat, kv_heads as nat),
{
    let mut table: Vec<usize> = Vec::new();
    let mut h: usize = 0;
    while h < heads
        invariant
            h <= heads,
            heads * kv_heads <= usize::MAX,
            table@ == Seq::new(h as nat, |h: int| (h * kv_heads / heads as int) as usize),
        decreases heads - h,
    {
        proof {
            lemma_row_bounds(h as int, heads as int, kv_heads as int);
        }
        table.push(h * kv_heads / heads);
        h = h + 1;
    }
    table
}

/// Heads that divide evenly over key-value heads are no fewer.
pub proof fn lemma_enough_heads(heads: int, kv_heads: int)
    requires
        0 < heads,
        0 < kv_heads,
        heads % kv_heads == 0,
    ensures
        kv_heads <= heads,
{
    if heads < kv_heads {
        vstd::arithmetic::div_mod::lemma_small_mod(heads as nat, kv_heads as nat);
    }
}

/// Grouped heads name key-value heads that are there.
pub proof fn lemma_group_below(h: int, heads: int, kv_heads: int)
    requires
        0 <= h < heads,
        0 < kv_heads,
        heads % kv_heads == 0,
    ensures
        0 <= h / (heads / kv_heads) < kv_heads,
{
    lemma_enough_heads(heads, kv_heads);
    vstd::arithmetic::div_mod::lemma_fundamental_div_mod(heads, kv_heads);
    let group = heads / kv_heads;
    assert(heads == kv_heads * group);
    assert(group > 0) by (nonlinear_arith)
        requires
            heads == kv_heads * group,
            0 < heads,
            0 < kv_heads,
    ;
    crate::rows::lemma_flat_index(h, kv_heads, group);
}

/// Spread heads name key-value heads that are there.
pub proof fn lemma_spread_below(h: int, heads: int, kv_heads: int)
    requires
        0 <= h < heads,
        0 < kv_heads,
    ensures
        0 <= h * kv_heads / heads < kv_heads,
{
    assert(0 <= h * kv_heads && h * kv_heads < kv_heads * heads) by (nonlinear_arith)
        requires
            0 <= h < heads,
            0 < kv_heads,
    ;
    crate::rows::lemma_flat_index(h * kv_heads, kv_heads, heads);
}

} // verus!
