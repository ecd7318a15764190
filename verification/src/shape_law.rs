//! What shapes and places keep: reading dimensions another way keeps their elements,
//! what has a place of its own shares it with nothing, and what is read was written.

use crate::gla_graph::is_gdl;
use crate::gla_mega::schedule_of;
use crate::lfm2::{Lfm2AttentionMode, Lfm2Block};
use crate::lfm2_cache::grown_contents;
use crate::lfm2_graph::gdl_layers;
use crate::lfm2_moe::expert_ops;
use crate::lora::{adapter_refusal, as_matrix, first_refusal, AdapterShape};
use crate::minicpm::{batch_of, flat_dims};
use crate::tensor::{element_count, lemma_element_count_2d};
use vstd::prelude::*;

verus! {

proof fn lemma_element_count_3d(dims: Seq<usize>)
    requires
        dims.len() == 3,
    ensures
        element_count(dims) == dims[0] * dims[1] * dims[2],
{
    let head = dims.drop_last();
    lemma_element_count_2d(head);
    assert(head[0] == dims[0] && head[1] == dims[1]);
}

/// Logits of any rank read as a matrix have the width of their last dimension and
/// no element more or less.
pub proof fn law_matrix_holds_the_elements(dims: Seq<usize>)
    requires
        dims.len() > 0 ==> dims.last() > 0,
    ensures
        as_matrix(dims).0 * as_matrix(dims).1 == element_count(dims),
        dims.len() > 0 ==> as_matrix(dims).1 == dims.last(),
{
    if dims.len() == 2 {
        lemma_element_count_2d(dims);
    } else if dims.len() > 0 {
        let (head, last) = (element_count(dims.drop_last()) as int, dims.last() as int);
        vstd::arithmetic::div_mod::lemma_div_multiples_vanish(head, last);
        assert(last * head == head * last) by (nonlinear_arith);
        assert(element_count(dims) == head * last);
        assert(as_matrix(dims).0 == head && as_matrix(dims).1 == last);
    } else {
        assert(as_matrix(dims).0 == 1 && as_matrix(dims).1 == 1);
        assert(1int * 1int == 1);
    }
}

/// Leaving the sequence dimension out keeps the elements and the width of a row.
pub proof fn law_flattening_keeps_the_elements(dims: Seq<usize>)
    requires
        dims.len() == 3 ==> dims[0] * dims[1] <= usize::MAX,
    ensures
        element_count(flat_dims(dims)) == element_count(dims),
        dims.len() > 0 ==> flat_dims(dims).last() == dims.last(),
{
    if dims.len() == 3 {
        lemma_element_count_3d(dims);
        lemma_element_count_2d(flat_dims(dims));
    }
}

/// A batch counts the rows: its sequences times its tokens are as many rows as the
/// elements make up.
pub proof fn law_batch_counts_the_rows(dims: Seq<usize>)
    requires
        batch_of(dims) is Some,
    ensures
        batch_of(dims)->0.sequences * batch_of(dims)->0.tokens * dims.last() == element_count(
            dims,
        ),
{
    if dims.len() == 3 {
        lemma_element_count_3d(dims);
    } else {
        lemma_element_count_2d(dims);
        assert(1 * dims[0] * dims[1] == dims[0] * dims[1]);
    }
}

/// An adapter is taken where its first matrix reads rows of the model's width and
/// its second gives a row over the vocabulary, and on the host where both widths
/// are the same besides; and no other is.
pub proof fn law_fitting_adapters_are_taken(
    a: Seq<usize>,
    b: Seq<usize>,
    hidden: usize,
    vocab: usize,
    on_host: bool,
)
    ensures
        adapter_refusal(a, b, hidden, vocab, on_host) is None <==> {
            &&& a.len() > 1
            &&& b.len() > 0
            &&& a[1] == hidden
            &&& b[0] == vocab
            &&& on_host ==> hidden == vocab
        },
{
}

/// What is reported of several adapters is the refusal of the earliest that is
/// refused; nothing is reported only where all are taken.
pub proof fn law_earliest_refusal_is_reported(
    adapters: Seq<AdapterShape>,
    hidden: usize,
    vocab: usize,
    on_host: bool,
    n: int,
    i: int,
)
    requires
        0 <= i < n <= adapters.len(),
        forall|j: int|
            0 <= j < i ==> adapter_refusal(
                (#[trigger] adapters[j]).a@,
                adapters[j].b@,
                hidden,
                vocab,
                on_host,
            ) is None,
    ensures
        adapter_refusal(adapters[i].a@, adapters[i].b@, hidden, vocab, on_host) is Some
            ==> first_refusal(adapters, hidden, vocab, on_host, n) == adapter_refusal(
            adapters[i].a@,
            adapters[i].b@,
            hidden,
            vocab,
            on_host,
        ),
        first_refusal(adapters, hidden, vocab, on_host, n) is None ==> adapter_refusal(
            adapters[i].a@,
            adapters[i].b@,
            hidden,
            vocab,
            on_host,
        ) is None,
        first_refusal(adapters, hidden, vocab, on_host, i) is None,
    decreases n,
{
    lemma_none_refused(adapters, hidden, vocab, on_host, i);
    if n - 1 > i {
        law_earliest_refusal_is_reported(adapters, hidden, vocab, on_host, n - 1, i);
    }
}

proof fn lemma_none_refused(
    adapters: Seq<AdapterShape>,
    hidden: usize,
    vocab: usize,
    on_host: bool,
    n: int,
)
    requires
        0 <= n <= adapters.len(),
        forall|j: int|
            0 <= j < n ==> adapter_refusal(
                (#[trigger] adapters[j]).a@,
                adapters[j].b@,
                hidden,
                vocab,
                on_host,
            ) is None,
    ensures
        first_refusal(adapters, hidden, vocab, on_host, n) is None,
    decreases n,
{
    if n > 0 {
        lemma_none_refused(adapters, hidden, vocab, on_host, n - 1);
        let last = adapters[n - 1];
    }
}

/// A store that grows keeps what it held, in its place, and growing it twice is
/// growing it once.
pub proof fn law_growing_keeps_the_rows<T>(rows: Seq<T>, len: nat, more: nat, zero: T)
    requires
        rows.len() <= len <= more,
    ensures
        grown_contents(rows, len, zero).len() == len,
        grown_contents(rows, len, zero).take(rows.len() as int) == rows,
        grown_contents(grown_contents(rows, len, zero), more, zero) == grown_contents(
            rows,
            more,
            zero,
        ),
{
    assert(grown_contents(rows, len, zero).take(rows.len() as int) =~= rows);
    assert(grown_contents(grown_contents(rows, len, zero), more, zero) =~= grown_contents(
        rows,
        more,
        zero,
    ));
}

/// On the device, the blocks of two experts do not overlap and leave no gap: the
/// first lies at the start, and each begins where the one before it ends. The same
/// holds of the rows of two tokens, and a token's row goes back where it came from.
pub proof fn law_expert_blocks_lie_side_by_side(
    s: int,
    best: int,
    tokens: int,
    experts: int,
    n_ff: usize,
    hidden: usize,
)
    requires
        0 <= s < tokens,
        0 <= best < experts,
        (tokens + 1) * hidden <= usize::MAX,
        (experts + 1) * (n_ff * hidden) <= usize::MAX,
        n_ff * hidden <= usize::MAX,
    ensures
        expert_ops(0, 0, n_ff, hidden)[0]->CopyRow_from == 0,
        expert_ops(0, 0, n_ff, hidden)[1]->CopyGate_from == 0,
        expert_ops(s + 1, best, n_ff, hidden)[0]->CopyRow_from == expert_ops(
            s,
            best,
            n_ff,
            hidden,
        )[0]->CopyRow_from + expert_ops(s, best, n_ff, hidden)[0]->CopyRow_len,
        expert_ops(s, best + 1, n_ff, hidden)[1]->CopyGate_from == expert_ops(
            s,
            best,
            n_ff,
            hidden,
        )[1]->CopyGate_from + expert_ops(s, best, n_ff, hidden)[1]->CopyGate_len,
        expert_ops(s, best + 1, n_ff, hidden)[2]->CopyUp_from == expert_ops(
            s,
            best,
            n_ff,
            hidden,
        )[2]->CopyUp_from + expert_ops(s, best, n_ff, hidden)[2]->CopyUp_len,
        expert_ops(s, best + 1, n_ff, hidden)[3]->CopyDown_from == expert_ops(
            s,
            best,
            n_ff,
            hidden,
        )[3]->CopyDown_from + expert_ops(s, best, n_ff, hidden)[3]->CopyDown_len,
        expert_ops(s, best, n_ff, hidden)[11]->StoreRow_at == expert_ops(
            s,
            best,
            n_ff,
            hidden,
        )[0]->CopyRow_from,
        expert_ops(s, best, n_ff, hidden)[11]->StoreRow_len == expert_ops(
            s,
            best,
            n_ff,
            hidden,
        )[9]->MatmulDown_cols,
{
    let block = n_ff * hidden;
    assert((s + 1) * hidden == s * hidden + hidden) by (nonlinear_arith);
    assert((best + 1) * block == best * block + block) by (nonlinear_arith);
    assert(0 <= s * hidden && (s + 1) * hidden <= (tokens + 1) * hidden) by (nonlinear_arith)
        requires
            0 <= s < tokens,
    ;
    assert(0 <= block) by (nonlinear_arith)
        requires
            block == n_ff * hidden,
    ;
    assert(0 <= best * block && (best + 1) * block <= (experts + 1) * block) by (nonlinear_arith)
        requires
            0 <= best < experts,
            0 <= block,
    ;
    assert(0 * hidden == 0 && 0 * block == 0);
}

/// In the stream of tasks, what a task of a layer reads is what a task before it
/// wrote: the projection reads the norm, the mixer the projection, the first sum
/// the mixer; and the second sum reads the feed-forward part, which reads the
/// second norm.
pub proof fn law_tasks_read_what_was_written(layers: Seq<Lfm2Block>, hidden: int, l: int)
    requires
        0 <= l < layers.len(),
    ensures
        ({
            let t = schedule_of(layers, hidden);
            &&& t[7 * l + 1].in_offset == t[7 * l].out_offset
            &&& t[7 * l + 2].in_offset == t[7 * l + 1].out_offset
            &&& t[7 * l + 3].aux_offset == t[7 * l + 2].out_offset
            &&& t[7 * l + 5].in_offset == t[7 * l + 4].out_offset
            &&& t[7 * l + 6].aux_offset == t[7 * l + 5].out_offset
            &&& t[7 * l + 4].in_offset == t[7 * l + 3].out_offset
            &&& t[7 * l + 7].in_offset == t[7 * l + 6].out_offset
            &&& forall|i: int|
                7 * l <= i < 7 * l + 7 ==> (#[trigger] t[i]).layer_idx == l as i32
        }),
{
}

/// Recurrent layers keep states of their own: of two with as many heads, the later
/// one's state begins behind the end of the earlier one's, each head having its
/// square of cells.
pub proof fn law_recurrent_states_lie_apart(layers: Seq<Lfm2Block>, hidden: int, l: int, m: int)
    requires
        0 <= l < m < layers.len(),
        layers[l].attention_mode == Lfm2AttentionMode::Gdl,
        layers[m].attention_mode == Lfm2AttentionMode::Gdl,
        layers[l].num_heads == layers[m].num_heads,
        m * layers[m].num_heads * 64 * 64 <= i32::MAX,
    ensures
        ({
            let (a, b) = (
                schedule_of(layers, hidden)[7 * l + 2],
                schedule_of(layers, hidden)[7 * m + 2],
            );
            &&& 0 <= a.aux_offset
            &&& a.aux_offset + a.dim_n * a.dim_k * a.dim_k <= b.aux_offset
        }),
{
    let heads = layers[m].num_heads as int;
    assert(0 <= l * heads && l * heads + heads <= m * heads && heads <= m * heads)
        by (nonlinear_arith)
        requires
            0 <= l < m,
            0 <= heads,
    ;
    assert(heads * 64 * 64 == heads * 4096);
}

/// Convolution layers keep states of their own too, each of two rows.
pub proof fn law_convolution_states_lie_apart(layers: Seq<Lfm2Block>, hidden: int, l: int, m: int)
    requires
        0 <= l < m < layers.len(),
        0 <= hidden,
        layers[l].attention_mode != Lfm2AttentionMode::Gdl,
        layers[m].attention_mode != Lfm2AttentionMode::Gdl,
        layers[l].shortconv_in_proj is Some,
        layers[m].shortconv_in_proj is Some,
        m * hidden * 2 <= i32::MAX,
    ensures
        ({
            let (a, b) = (
                schedule_of(layers, hidden)[7 * l + 2],
                schedule_of(layers, hidden)[7 * m + 2],
            );
            &&& 0 <= a.aux_offset
            &&& a.aux_offset + 2 * a.dim_k <= b.aux_offset
        }),
{
    assert(0 <= l * hidden && l * hidden + hidden <= m * hidden && hidden <= m * hidden)
        by (nonlinear_arith)
        requires
            0 <= l < m,
            0 <= hidden,
    ;
}

/// Every recurrent layer is listed once and no other is, in the order of the stack,
/// with the sizes of its own heads.
pub proof fn law_recurrent_layers_are_listed(layers: Seq<Lfm2Block>, batch: usize, n: nat)
    requires
        n <= layers.len() <= usize::MAX,
    ensures
        ({
            let listed = gdl_layers(layers, batch, n);
            &&& forall|i: int, j: int|
                0 <= i < j < listed.len() ==> (#[trigger] listed[i]).layer < (
                #[trigger] listed[j]).layer
            &&& forall|i: int|
                0 <= i < listed.len() ==> {
                    &&& (#[trigger] listed[i]).layer < n
                    &&& is_gdl(&layers[listed[i].layer as int])
                    &&& listed[i].heads == layers[listed[i].layer as int].num_heads
                    &&& listed[i].kv_heads == layers[listed[i].layer as int].num_kv_heads
                    &&& listed[i].dk == layers[listed[i].layer as int].head_dim
                    &&& listed[i].dv == layers[listed[i].layer as int].head_dim
                }
            &&& forall|l: int|
                0 <= l < n && is_gdl(&#[trigger] layers[l]) ==> exists|i: int|
                    0 <= i < listed.len() && (#[trigger] listed[i]).layer == l
        }),
    decreases n,
{
    if n > 0 {
        law_recurrent_layers_are_listed(layers, batch, (n - 1) as nat);
        let before = gdl_layers(layers, batch, (n - 1) as nat);
        let listed = gdl_layers(layers, batch, n);
        assert forall|l: int| 0 <= l < n && is_gdl(&#[trigger] layers[l]) implies exists|i: int|
            0 <= i < listed.len() && (#[trigger] listed[i]).layer == l by {
            if l < n - 1 {
                let i = choose|i: int| 0 <= i < before.len() && (#[trigger] before[i]).layer == l;
                assert(listed[i] == before[i]);
            } else {
                assert(listed[before.len() as int].layer == l);
            }
        }
    }
}

} // verus!
