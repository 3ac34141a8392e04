use vstd::prelude::*;
use crate::fixed::{Fixed, FX_SCALE};

verus! {

/// A minimal feed-forward network with manual passes. Slot 0 of every
/// activation row is the fixed bias activation 1.0, and column 0 of
/// every weight row is the bias column pinned to 0.0.
pub struct NeuralNetwork {
    pub num_layers: usize,
    pub neurons_per_layer: Vec<usize>,
    pub weights: Vec<Vec<Vec<Fixed>>>,
    pub activations: Vec<Vec<Fixed>>,
    pub deltas: Vec<Vec<Fixed>>,
}

impl NeuralNetwork {
    /// Structural well-formedness: every row has the size its layer
    /// demands and the bias conventions hold for the weights.
    pub open spec fn wf(&self) -> bool {
        let npl = self.neurons_per_layer@;
        &&& self.num_layers == npl.len()
        &&& 1 <= npl.len()
        &&& forall|l: int| 0 <= l < npl.len() ==> 1 <= (#[trigger] npl[l]) <= 1_000_000
        &&& self.weights@.len() == npl.len()
        &&& (#[trigger] self.weights@[0])@.len() == 0
        &&& forall|l: int|
            1 <= l < npl.len() ==> (#[trigger] self.weights@[l])@.len() == npl[l - 1] + 1
        &&& forall|l: int, i: int|
            1 <= l < npl.len() && 0 <= i < self.weights@[l]@.len() ==> (
            #[trigger] self.weights@[l]@[i])@.len() == npl[l] + 1
        &&& forall|l: int, i: int|
            1 <= l < npl.len() && 0 <= i < self.weights@[l]@.len() ==> (
            #[trigger] self.weights@[l]@[i]@[0]).v == 0
        &&& self.activations@.len() == npl.len()
        &&& forall|l: int|
            0 <= l < npl.len() ==> (#[trigger] self.activations@[l])@.len() == npl[l] + 1
        &&& forall|l: int| 0 <= l < npl.len() ==> (#[trigger] self.activations@[l])@[0].v == FX_SCALE
        &&& self.deltas@.len() == npl.len()
        &&& forall|l: int|
            0 <= l < npl.len() ==> (#[trigger] self.deltas@[l])@.len() == npl[l] + 1
    }

    /// An exact structural copy.
    pub fn deep_copy(&self) -> (r: NeuralNetwork)
        ensures
            r.num_layers == self.num_layers,
            r.neurons_per_layer@ =~= self.neurons_per_layer@,
            r.weights@.len() == self.weights@.len(),
            forall|l: int|
                0 <= l < self.weights@.len() ==> (#[trigger] r.weights@[l])@.len()
                    == self.weights@[l]@.len(),
            forall|l: int, i: int|
                0 <= l < self.weights@.len() && 0 <= i < self.weights@[l]@.len() ==> (
                #[trigger] r.weights@[l]@[i])@ =~= self.weights@[l]@[i]@,
            r.activations@.len() == self.activations@.len(),
            forall|l: int|
                0 <= l < self.activations@.len() ==> (#[trigger] r.activations@[l])@
                    =~= self.activations@[l]@,
            r.deltas@.len() == self.deltas@.len(),
            forall|l: int|
                0 <= l < self.deltas@.len() ==> (#[trigger] r.deltas@[l])@ =~= self.deltas@[l]@,
    {
        let npl = copy_usize_vec(&self.neurons_per_layer);
        let mut weights: Vec<Vec<Vec<Fixed>>> = Vec::new();
        let mut l: usize = 0;
        while l < self.weights.len()
            invariant
                l <= self.weights@.len(),
                weights@.len() == l,
                forall|x: int|
                    0 <= x < l ==> (#[trigger] weights@[x])@.len() == self.weights@[x]@.len(),
                forall|x: int, i: int|
                    0 <= x < l && 0 <= i < self.weights@[x]@.len() ==> (
                    #[trigger] weights@[x]@[i])@ =~= self.weights@[x]@[i]@,
            decreases self.weights@.len() - l,
        {
            let mut layer: Vec<Vec<Fixed>> = Vec::new();
            let rows = self.weights[l].len();
            let mut i: usize = 0;
            while i < rows
                invariant
                    l < self.weights@.len(),
                    rows == self.weights@[l as int]@.len(),
                    i <= rows,
                    layer@.len() == i,
                    forall|x: int|
                        0 <= x < i ==> (#[trigger] layer@[x])@ =~= self.weights@[l as int]@[x]@,
                decreases rows - i,
            {
                layer.push(copy_fixed_row(&self.weights[l][i]));
                i += 1;
            }
            weights.push(layer);
            l += 1;
        }
        let activations = copy_matrix(&self.activations);
        let deltas = copy_matrix(&self.deltas);
        NeuralNetwork {
            num_layers: self.num_layers,
            neurons_per_layer: npl,
            weights,
            activations,
            deltas,
        }
    }
}

pub fn copy_usize_vec(v: &Vec<usize>) -> (r: Vec<usize>)
    ensures
        r@ =~= v@,
{
    let n = v.len();
    let mut out: Vec<usize> = Vec::new();
    let mut i: usize = 0;
    while i < n
        invariant
            n == v@.len(),
            i <= n,
            out@ =~= v@.take(i as int),
        decreases n - i,
    {
        out.push(v[i]);
        proof {
            assert(out@ =~= v@.take(i + 1));
        }
        i += 1;
    }
    out
}

pub fn copy_fixed_row(v: &Vec<Fixed>) -> (r: Vec<Fixed>)
    ensures
        r@ =~= v@,
{
    let n = v.len();
    let mut out: Vec<Fixed> = Vec::new();
    let mut i: usize = 0;
    while i < n
        invariant
            n == v@.len(),
            i <= n,
            out@ =~= v@.take(i as int),
        decreases n - i,
    {
        out.push(v[i]);
        proof {
            assert(out@ =~= v@.take(i + 1));
        }
        i += 1;
    }
    out
}

pub fn copy_matrix(m: &Vec<Vec<Fixed>>) -> (r: Vec<Vec<Fixed>>)
    ensures
        r@.len() == m@.len(),
        forall|l: int| 0 <= l < m@.len() ==> (#[trigger] r@[l])@ =~= m@[l]@,
{
    let n = m.len();
    let mut out: Vec<Vec<Fixed>> = Vec::new();
    let mut i: usize = 0;
    while i < n
        invariant
            n == m@.len(),
            i <= n,
            out@.len() == i,
            forall|l: int| 0 <= l < i ==> (#[trigger] out@[l])@ =~= m@[l]@,
        decreases n - i,
    {
        out.push(copy_fixed_row(&m[i]));
        i += 1;
    }
    out
}

} // verus!
