//! Host-side tensors: a flat buffer and its dimensions.

use vstd::prelude::*;

verus! {

/// The number of elements that `dims` describe.
pub open spec fn element_count(dims: Seq<usize>) -> nat
    decreases dims.len(),
{
    if dims.len() == 0 {
        1
    } else {
        element_count(dims.drop_last()) * (dims.last() as nat)
    }
}

/// A dense row-major buffer with its dimensions.
#[derive(Debug, Clone)]
pub struct HostTensor<T> {
    pub data: Vec<T>,
    pub dims: Vec<usize>,
}

impl<T> HostTensor<T> {
    /// The buffer holds as many elements as the dimensions say.
    pub open spec fn wf(&self) -> bool {
        self.data@.len() == element_count(self.dims@)
    }
}

/// The element count of a matrix.
pub proof fn lemma_element_count_2d(dims: Seq<usize>)
    requires
        dims.len() == 2,
    ensures
        element_count(dims) == dims[0] * dims[1],
{
    let head = dims.drop_last();
    assert(head.last() == dims[0]);
    assert(element_count(head.drop_last()) == 1);
    assert(element_count(head) == 1 * (dims[0] as nat));
    assert(element_count(dims) == element_count(head) * (dims[1] as nat));
}

/// A buffer on the host with its dimensions.
pub fn f32_tensor<T>(data: Vec<T>, dims: Vec<usize>) -> (r: HostTensor<T>)
    ensures
        r.data == data,
        r.dims == dims,
{
    HostTensor { data, dims }
}

/// Relabels a buffer of `s * d` elements as `(1, s, d)`.
pub fn as_3d<T>(t: HostTensor<T>, s: usize, d: usize) -> (r: HostTensor<T>)
    ensures
        r.data == t.data,
        r.dims@ == seq![1usize, s, d],
        t.data@.len() == s * d ==> r.wf(),
{
    proof {
        let dims = seq![1usize, s, d];
        assert(dims.drop_last() =~= seq![1usize, s]);
        lemma_element_count_2d(seq![1usize, s]);
    }
    HostTensor { data: t.data, dims: vec![1, s, d] }
}

/// Relabels a buffer of `s * d` elements as `(s, d)`.
pub fn as_2d<T>(t: HostTensor<T>, s: usize, d: usize) -> (r: HostTensor<T>)
    ensures
        r.data == t.data,
        r.dims@ == seq![s, d],
        t.data@.len() == s * d ==> r.wf(),
{
    proof {
        lemma_element_count_2d(seq![s, d]);
    }
    HostTensor { data: t.data, dims: vec![s, d] }
}

} // verus!
