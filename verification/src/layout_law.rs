//! How rows, heads and positions are laid out, cut up and put together again.

use crate::block_program::{BlockOp, Reg, RopeSections};
use crate::block_run::{Attends, BlockValues};
use crate::falcon_h1::expanded;
use crate::history::kernel_row;
use crate::lora::entry_at;
use crate::minicpm::{head_positions, padded_rows, part, MiniCpmConfig};
use crate::minicpm_pass::embedded;
use crate::numeric::Real;
use crate::pass_run::PassValues;
use crate::rows::{
    columns, law_columns_cell, lemma_cell_coordinates, lemma_cell_in_rows, lemma_flat_index,
    lemma_row_bounds,
};
use crate::scalar::{Number, Relation, ScalarOp, Scalars};
use crate::shortconv_law::ConvCall;
use crate::stages::Stage;
use vstd::prelude::*;

verus! {

/// Sections lie one after the other: of a token's frequencies the first ones go
/// by its first position, as many as the first section has, and so on.
pub proof fn law_sections_lie_in_order(sections: RopeSections, positions: [u32; 4])
    ensures
        Seq::new(
            (sections.first + sections.second + sections.third + sections.fourth) as nat,
            |f: int| positions@[sections.axis(f)],
        ) == Seq::new(sections.first as nat, |f: int| positions@[0]) + Seq::new(
            sections.second as nat,
            |f: int| positions@[1],
        ) + Seq::new(sections.third as nat, |f: int| positions@[2]) + Seq::new(
            sections.fourth as nat,
            |f: int| positions@[3],
        ),
{
    assert(Seq::new(
        (sections.first + sections.second + sections.third + sections.fourth) as nat,
        |f: int| positions@[sections.axis(f)],
    ) =~= Seq::new(sections.first as nat, |f: int| positions@[0]) + Seq::new(
        sections.second as nat,
        |f: int| positions@[1],
    ) + Seq::new(sections.third as nat, |f: int| positions@[2]) + Seq::new(
        sections.fourth as nat,
        |f: int| positions@[3],
    ));
}

/// Padding is undone by cutting: the first columns of padded rows are the rows,
/// and the columns behind them hold what they were padded with.
pub proof fn law_padding_is_cut_off<T>(data: Seq<T>, rows: nat, len: nat, width: nat, zero: T)
    requires
        len <= width,
        data.len() == rows * len,
    ensures
        columns(padded_rows(data, rows, len, width, zero), rows, width, 0, len) == data,
        columns(
            padded_rows(data, rows, len, width, zero),
            rows,
            width,
            len,
            (width - len) as nat,
        ) == Seq::new(rows * (width - len) as nat, |i: int| zero),
{
    let padded = padded_rows(data, rows, len, width, zero);
    let first = columns(padded, rows, width, 0, len);
    assert forall|i: int| 0 <= i < rows * len implies first[i] == data[i] by {
        lemma_flat_index(i, rows as int, len as int);
        let (r, c) = (i / len as int, i % len as int);
        lemma_cell_in_rows(r, c, rows as int, width as int);
        lemma_cell_coordinates(r, c, width as int);
    }
    assert(first =~= data);
    let rest = (width - len) as nat;
    let second = columns(padded, rows, width, len, rest);
    assert forall|i: int| 0 <= i < rows * rest implies second[i] == zero by {
        lemma_flat_index(i, rows as int, rest as int);
        let (r, c) = (i / rest as int, len + i % rest as int);
        lemma_cell_in_rows(r, c, rows as int, width as int);
        lemma_cell_coordinates(r, c, width as int);
    }
    assert(second =~= Seq::new(rows * rest, |i: int| zero));
}

/// Where every token has a position, the positions of its heads are that
/// position, once for every head.
pub proof fn law_repeated_positions_are_the_tokens(positions: Seq<u32>, heads: nat)
    ensures
        head_positions(positions, positions.len(), heads) == expanded(positions, heads),
{
    let a = head_positions(positions, positions.len(), heads);
    let b = expanded(positions, heads);
    assert forall|i: int| 0 <= i < a.len() implies a[i] == b[i] by {
        lemma_flat_index(i, positions.len() as int, heads as int);
    }
    assert(a =~= b);
}

/// Tokens are embedded one after the other: the rows of two stretches of tokens
/// are the rows of the one and those of the other, and one token stands for its
/// own row of the table.
pub proof fn law_embedding_joins<T>(table: Seq<T>, width: nat, a: Seq<u32>, b: Seq<u32>, id: u32)
    requires
        id * width + width <= table.len(),
    ensures
        embedded(table, width, a + b) == embedded(table, width, a) + embedded(table, width, b),
        embedded(table, width, seq![id]) == part(table, id as int, width),
{
    let all = embedded(table, width, a + b);
    let parts = embedded(table, width, a) + embedded(table, width, b);
    crate::rows::lemma_widths_add(a.len(), b.len(), width);
    assert forall|i: int| 0 <= i < all.len() implies all[i] == parts[i] by {
        lemma_flat_index(i, (a.len() + b.len()) as int, width as int);
        if i >= a.len() * width {
            let j = i - a.len() * width;
            lemma_flat_index(j, b.len() as int, width as int);
            lemma_row_shift(j, a.len() as int, width as int);
        } else {
            lemma_flat_index(i, a.len() as int, width as int);
        }
    }
    assert(all =~= parts);
    let one = embedded(table, width, seq![id]);
    assert(0 <= id * width) by (nonlinear_arith);
    assert(1 * width == width);
    assert forall|i: int| 0 <= i < width implies one[i] == part(table, id as int, width)[i] by {
        lemma_flat_index(i, 1, width as int);
    }
    assert(one =~= part(table, id as int, width));
}

proof fn lemma_row_shift(j: int, rows: int, width: int)
    requires
        0 <= j,
        0 < width,
    ensures
        (rows * width + j) / width == rows + j / width,
        (rows * width + j) % width == j % width,
{
    vstd::arithmetic::div_mod::lemma_fundamental_div_mod(j, width);
    let (q, r) = (j / width, j % width);
    assert((rows + q) * width + r == rows * width + j) by (nonlinear_arith)
        requires
            j == width * q + r,
    ;
    vstd::arithmetic::div_mod::lemma_mod_bound(j, width);
    lemma_cell_coordinates(rows + q, r, width);
}

/// Fused rows are cut in order: every row is its queries, then its keys, then its
/// values.
pub proof fn law_fused_rows_are_cut_in_order<
    T: Copy,
    F: Fn(ScalarOp, T, T) -> T,
    C: Fn(Number) -> T,
    Z: Fn(Relation, T, T) -> bool,
    G: Fn(BlockOp, Vec<T>) -> Vec<T>,
>(
    x: &Scalars<T, F, C, Z>,
    apply: G,
    attends: Attends<T>,
    q_dim: usize,
    kv_dim: usize,
    tokens: nat,
    before: BlockValues<T>,
    after: BlockValues<T>,
    t: nat,
)
    requires
        t < tokens,
        before.regs[Reg::Fused].len() == tokens * (q_dim + 2 * kv_dim),
        x.stepped(
            apply,
            attends,
            (BlockOp::SplitQkv { q_dim, kv_dim }),
            tokens,
            before,
            after,
        ),
    ensures
        part(before.regs[Reg::Fused], t as int, (q_dim + 2 * kv_dim) as nat) == part(
            after.regs[Reg::Query],
            t as int,
            q_dim as nat,
        ) + part(after.regs[Reg::Key], t as int, kv_dim as nat) + part(
            after.regs[Reg::Value],
            t as int,
            kv_dim as nat,
        ),
{
    let (q, v) = (q_dim as nat, kv_dim as nat);
    let width = q + 2 * v;
    let fused = before.regs[Reg::Fused];
    let (qs, ks, vs) = (
        columns(fused, tokens, width, 0, q),
        columns(fused, tokens, width, q, v),
        columns(fused, tokens, width, q + v, v),
    );
    assert(after.regs[Reg::Query] == qs);
    assert(after.regs[Reg::Key] == ks);
    assert(after.regs[Reg::Value] == vs);
    lemma_row_bounds(t as int, tokens as int, width as int);
    lemma_row_bounds(t as int, tokens as int, q as int);
    lemma_row_bounds(t as int, tokens as int, v as int);
    let whole = part(fused, t as int, width);
    let parts = part(qs, t as int, q) + part(ks, t as int, v) + part(vs, t as int, v);
    assert forall|i: int| 0 <= i < width implies whole[i] == parts[i] by {
        if i < q {
            law_columns_cell(fused, tokens, width, 0, q, t as int, i);
        } else if i < q + v {
            law_columns_cell(fused, tokens, width, q, v, t as int, i - q);
        } else {
            law_columns_cell(fused, tokens, width, q + v, v, t as int, i - q - v);
        }
    }
    assert(whole =~= parts);
}

/// A sublayer that gives zeros leaves the residual as it is, whatever its output
/// is scaled by; and two sublayers' outputs, added up before they are scaled, add
/// what they add one after the other.
pub proof fn law_residual_takes_the_scaled_output<
    T: Copy,
    F: Fn(ScalarOp, T, T) -> T,
    C: Fn(Number) -> T,
    Z: Fn(Relation, T, T) -> bool,
>(
    x: &Scalars<T, F, C, Z>,
    a: Seq<T>,
    b: Seq<T>,
    c: Seq<T>,
    scale: Option<Real>,
)
    requires
        x.ring(),
        b.len() == a.len(),
        c.len() == a.len(),
    ensures
        x.residual(a, Seq::new(a.len(), |i: int| x.zero()), scale) == a,
        x.residual(a, x.residual(b, c, None), scale) == x.residual(
            x.residual(a, b, scale),
            c,
            scale,
        ),
{
    let zeros = Seq::new(a.len(), |i: int| x.zero());
    let kept = x.residual(a, zeros, scale);
    let both = x.residual(a, x.residual(b, c, None), scale);
    let twice = x.residual(x.residual(a, b, scale), c, scale);
    assert forall|i: int| 0 <= i < a.len() implies kept[i] == a[i] && both[i] == twice[i] by {
        x.plus_zero(a[i]);
        match scale {
            Some(s) => {
                let f = x.constant(s.bits);
                x.times_zero(f);
                x.times_plus(f, b[i], c[i]);
                x.plus_assoc(a[i], x.times(f, b[i]), x.times(f, c[i]));
            },
            None => {
                x.plus_assoc(a[i], b[i], c[i]);
            },
        }
    }
    assert(kept =~= a);
    assert(both =~= twice);
}

/// A gated part is linear in what it lets through: the activation bends the row
/// that opens it and not the row beside.
pub proof fn law_gated_part_is_linear_beside_its_gate<
    T: Copy,
    F: Fn(ScalarOp, T, T) -> T,
    C: Fn(Number) -> T,
    Z: Fn(Relation, T, T) -> bool,
>(x: &Scalars<T, F, C, Z>, gate: Seq<T>, a: Seq<T>, b: Seq<T>)
    requires
        x.ring(),
        a.len() == gate.len(),
        b.len() == gate.len(),
    ensures
        x.gated(gate, x.residual(a, b, None)) == x.residual(
            x.gated(gate, a),
            x.gated(gate, b),
            None,
        ),
{
    let sum = x.gated(gate, x.residual(a, b, None));
    let parts = x.residual(x.gated(gate, a), x.gated(gate, b), None);
    assert forall|i: int| 0 <= i < gate.len() implies sum[i] == parts[i] by {
        x.times_plus(x.silu_of(gate[i]), a[i], b[i]);
    }
    assert(sum =~= parts);
}

/// The gated step of a block is linear in what it gates.
pub proof fn law_gated_step_is_linear_beside_its_gate<
    T: Copy,
    F: Fn(ScalarOp, T, T) -> T,
    C: Fn(Number) -> T,
    Z: Fn(Relation, T, T) -> bool,
    G: Fn(BlockOp, Vec<T>) -> Vec<T>,
>(
    x: &Scalars<T, F, C, Z>,
    apply: G,
    attends: Attends<T>,
    op: BlockOp,
    tokens: nat,
    first: BlockValues<T>,
    after_first: BlockValues<T>,
    second: BlockValues<T>,
    after_second: BlockValues<T>,
    both: BlockValues<T>,
    after_both: BlockValues<T>,
)
    requires
        x.ring(),
        op matches BlockOp::Activate { gated, .. } && gated,
        x.stepped(apply, attends, op, tokens, first, after_first),
        x.stepped(apply, attends, op, tokens, second, after_second),
        x.stepped(apply, attends, op, tokens, both, after_both),
        second.regs[Reg::Gate] == first.regs[Reg::Gate],
        both.regs[Reg::Gate] == first.regs[Reg::Gate],
        first.regs[Reg::Up].len() == first.regs[Reg::Gate].len(),
        second.regs[Reg::Up].len() == first.regs[Reg::Gate].len(),
        both.regs[Reg::Up] == x.residual(first.regs[Reg::Up], second.regs[Reg::Up], None),
    ensures
        after_both.regs[Reg::Activated] == x.residual(
            after_first.regs[Reg::Activated],
            after_second.regs[Reg::Activated],
            None,
        ),
{
    let kind = op->Activate_kind;
    let gate = first.regs[Reg::Gate];
    let (a, b) = (first.regs[Reg::Up], second.regs[Reg::Up]);
    let all = after_both.regs[Reg::Activated];
    let parts = x.residual(
        after_first.regs[Reg::Activated],
        after_second.regs[Reg::Activated],
        None,
    );
    assert forall|i: int| 0 <= i < gate.len() implies all[i] == parts[i] by {
        x.times_plus(x.activated(kind, gate[i]), a[i], b[i]);
    }
    assert(all =~= parts);
}

/// Scaling twice by the root of a width is scaling by the width.
pub proof fn law_two_roots_scale_by_the_width<
    T: Copy,
    F: Fn(ScalarOp, T, T) -> T,
    C: Fn(Number) -> T,
    Z: Fn(Relation, T, T) -> bool,
    G: Fn(Stage, Vec<T>) -> Vec<T>,
>(
    x: &Scalars<T, F, C, Z>,
    apply: G,
    width: usize,
    before: PassValues<T>,
    between: PassValues<T>,
    after: PassValues<T>,
)
    requires
        x.ring(),
        x.times(x.root(x.number(width)), x.root(x.number(width))) == x.number(width),
        x.staged(apply, Stage::ScaleBySqrt(width), before, between),
        x.staged(apply, Stage::ScaleBySqrt(width), between, after),
    ensures
        after.rows == Seq::new(
            before.rows.len(),
            |i: int| x.times(before.rows[i], x.number(width)),
        ),
        after.hidden == before.hidden,
        after.position == before.position,
{
    let r = x.root(x.number(width));
    assert forall|i: int| 0 <= i < before.rows.len() implies after.rows[i] == x.times(
        before.rows[i],
        x.number(width),
    ) by {
        x.times_assoc(before.rows[i], r, r);
    }
    assert(after.rows =~= Seq::new(
        before.rows.len(),
        |i: int| x.times(before.rows[i], x.number(width)),
    ));
}

/// The last tap weighs the newest input: a channel whose taps are zero but for
/// the last, which is one, lets its own gated input through, gated once more.
pub proof fn law_last_tap_weighs_the_token<
    T: Copy,
    F: Fn(ScalarOp, T, T) -> T,
    C: Fn(Number) -> T,
    Z: Fn(Relation, T, T) -> bool,
>(x: &Scalars<T, F, C, Z>, a: ConvCall<T>, steps: nat, taps: nat, t: int, c: int)
    requires
        x.ring(),
        a.sized(steps, taps),
        0 <= t < steps,
        0 <= c < a.channels,
        forall|k: int|
            0 <= k < taps ==> #[trigger] a.kernel[c * taps + k] == if k == taps - 1 {
                x.one()
            } else {
                x.zero()
            },
    ensures
        x.shortconv_rows(a.proj, a.kernel, a.kept, steps, a.channels, taps)[t * a.channels + c]
            == x.times(
            a.projected(t, 1, c),
            x.times(a.projected(t, 0, c), a.projected(t, 2, c)),
        ),
{
    let n = a.channels as int;
    lemma_cell_in_rows(t, c, steps as int, n);
    lemma_cell_coordinates(t, c, n);
    lemma_row_bounds(c, n, taps as int);
    x.lemma_part(a, steps, taps, t, c);
    x.lemma_read(a, steps, taps, t + taps - 1, c);
    let history = a.kept + x.gated_inputs(a.proj, steps, a.channels);
    let weights = kernel_row(a.kernel, taps, c);
    let inputs = crate::history::window(history, a.channels, taps, t, c);
    let last = taps - 1;
    assert(weights[last] == a.kernel[c * taps + last]);
    let newest = inputs[last];
    let term = |k: int| x.times(weights[k], inputs[k]);
    assert forall|k: int| 0 <= k < last implies #[trigger] term(k) == x.zero() by {
        assert(weights[k] == a.kernel[c * taps + k]);
        x.times_zero(inputs[k]);
    }
    x.gathered_start(term(last), last as nat, term);
    x.gathered_nothing(last as nat, term);
    x.times_one(newest);
    x.plus_zero(newest);
}

/// Entry `j` of row `t` lies `t` rows and `j` entries into a matrix: rows put
/// behind one another keep their entries.
pub proof fn law_entries_of_joined_rows<T>(a: Seq<T>, b: Seq<T>, width: nat, rows: nat, t: int, j: int)
    requires
        a.len() == rows * width,
        0 <= j < width,
        0 <= t,
        (t + 1) * width <= a.len() + b.len(),
    ensures
        t < rows ==> entry_at(a + b, width as int, t, j) == entry_at(a, width as int, t, j),
        t >= rows ==> entry_at(a + b, width as int, t, j) == entry_at(b, width as int, t - rows, j),
{
    if t < rows {
        lemma_cell_in_rows(t, j, rows as int, width as int);
    } else {
        assert(t * width == rows * width + (t - rows) * width && (t + 1) * width == t * width
            + width) by (nonlinear_arith);
        assert(0 <= (t - rows) * width) by (nonlinear_arith)
            requires
                t >= rows,
        ;
    }
}

/// The position moves on by as many tokens as are advanced: advancing by some and
/// then by more is advancing by all of them, and by none leaves everything as it is.
pub proof fn law_advances_add_up<
    T: Copy,
    F: Fn(ScalarOp, T, T) -> T,
    C: Fn(Number) -> T,
    Z: Fn(Relation, T, T) -> bool,
    G: Fn(Stage, Vec<T>) -> Vec<T>,
>(
    x: &Scalars<T, F, C, Z>,
    apply: G,
    some: usize,
    more: usize,
    before: PassValues<T>,
    between: PassValues<T>,
    after: PassValues<T>,
    all: PassValues<T>,
)
    requires
        some + more <= usize::MAX,
        x.staged(apply, Stage::Advance(some), before, between),
        x.staged(apply, Stage::Advance(more), between, after),
        x.staged(apply, Stage::Advance((some + more) as usize), before, all),
    ensures
        after == all,
        some == 0 ==> between == before,
        between.rows == before.rows,
{
}

/// Capping goes entry by entry: an entry that is the same as one elsewhere in other
/// rows is capped to the same.
pub proof fn law_caps_go_entry_by_entry<
    T: Copy,
    F: Fn(ScalarOp, T, T) -> T,
    C: Fn(Number) -> T,
    Z: Fn(Relation, T, T) -> bool,
    G: Fn(Stage, Vec<T>) -> Vec<T>,
>(
    x: &Scalars<T, F, C, Z>,
    apply: G,
    cap: Real,
    before: PassValues<T>,
    after: PassValues<T>,
    i: int,
    other: PassValues<T>,
    capped: PassValues<T>,
    j: int,
)
    requires
        x.staged(apply, Stage::Softcap(cap), before, after),
        x.staged(apply, Stage::Softcap(cap), other, capped),
        0 <= i < before.rows.len(),
        0 <= j < other.rows.len(),
        before.rows[i] == other.rows[j],
    ensures
        after.rows.len() == before.rows.len(),
        after.rows[i] == capped.rows[j],
        after.position == before.position,
{
}

/// Scaled logits stand to the logits as the base width stands to the model's: times
/// the model's width they are the logits times the base. Where no base is set, or the
/// base is the width itself and one does not depart from one, they stay.
pub proof fn law_logits_go_by_the_base_width<
    T: Copy,
    F: Fn(ScalarOp, T, T) -> T,
    C: Fn(Number) -> T,
    Z: Fn(Relation, T, T) -> bool,
>(
    x: &Scalars<T, F, C, Z>,
    cfg: &MiniCpmConfig,
    logits: Seq<T>,
    i: int,
)
    requires
        x.exact(),
        x.unit(x.number(cfg.hidden_size)),
        0 <= i < logits.len(),
    ensures
        cfg.dim_model_base matches Some(base) ==> x.departs(
            x.over(x.constant(base.bits), x.number(cfg.hidden_size)),
        ) ==> x.times(
            x.multiplied(logits, x.logit_scale(cfg))[i],
            x.number(cfg.hidden_size),
        ) == x.times(logits[i], x.constant(base.bits)),
        cfg.dim_model_base matches Some(base) ==> x.constant(base.bits) == x.number(
            cfg.hidden_size,
        ) && !x.departs(x.one()) ==> x.multiplied(logits, x.logit_scale(cfg)) == logits,
        cfg.dim_model_base is None ==> x.multiplied(logits, x.logit_scale(cfg)) == logits,
{
    if let Some(base) = cfg.dim_model_base {
        let (b, w) = (x.constant(base.bits), x.number(cfg.hidden_size));
        let scale = x.over(b, w);
        assert(x.times(scale, w) == b);
        x.times_assoc(logits[i], scale, w);
        if b == w {
            x.times_one(w);
            x.unit_cancel(scale, x.one(), w);
        }
    }
}

/// Embedded rows are scaled token by token, by what the configuration sets and by
/// nothing where it sets nothing: two stretches of tokens are scaled as one.
pub proof fn law_embedded_rows_are_scaled<
    T: Copy,
    F: Fn(ScalarOp, T, T) -> T,
    C: Fn(Number) -> T,
    Z: Fn(Relation, T, T) -> bool,
>(
    x: &Scalars<T, F, C, Z>,
    cfg: &MiniCpmConfig,
    a: Seq<T>,
    b: Seq<T>,
    i: int,
)
    requires
        0 <= i < a.len(),
    ensures
        ({
            let scale = x.embedding_scale(cfg);
            &&& x.multiplied(a + b, scale) == x.multiplied(a, scale) + x.multiplied(b, scale)
            &&& cfg.scale_emb is None ==> x.multiplied(a, scale) == a
            &&& cfg.scale_emb matches Some(s) ==> x.multiplied(a, scale)[i] == x.times(
                a[i],
                x.constant(s.bits),
            )
        }),
{
    let scale = x.embedding_scale(cfg);
    assert(x.multiplied(a + b, scale) =~= x.multiplied(a, scale) + x.multiplied(b, scale));
}

} // verus!
