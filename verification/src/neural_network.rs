use vstd::prelude::*;
use crate::fixed::{Fixed, FX_SCALE, fx_add_sp, fx_mul_sp, fx_sub_sp};
use crate::nn_struct::{copy_fixed_row, NeuralNetwork};
use crate::rng::rand_below;

verus! {

/// The weighted input of neuron `j` of a layer: the left fold of
/// `weights[i][j] * prev[i]` over the first `upto` rows.
pub open spec fn nsum(w_l: Seq<Vec<Fixed>>, prev: Seq<Fixed>, j: int, upto: int) -> int
    decreases upto,
{
    if upto <= 0 {
        0
    } else {
        fx_add_sp(
            nsum(w_l, prev, j, upto - 1),
            fx_mul_sp(w_l[upto - 1]@[j].v as int, prev[upto - 1].v as int),
        )
    }
}

/// The rectifier.
pub open spec fn relu_sp(x: int) -> int {
    if x > 0 {
        x
    } else {
        0
    }
}

/// The weighted-input fold reads the weight rows only through their
/// views, so row-for-row equal weight layers fold alike.
pub proof fn lemma_nsum_congruence(
    w1: Seq<Vec<Fixed>>,
    w2: Seq<Vec<Fixed>>,
    prev: Seq<Fixed>,
    j: int,
    upto: int,
)
    requires
        w1.len() == w2.len(),
        forall|i: int| 0 <= i < w1.len() ==> (#[trigger] w1[i])@ =~= w2[i]@,
        upto <= w1.len(),
    ensures
        nsum(w1, prev, j, upto) == nsum(w2, prev, j, upto),
    decreases upto,
{
    if upto > 0 {
        lemma_nsum_congruence(w1, w2, prev, j, upto - 1);
    }
}

/// `acts` is a forward pass of `model`'s weights on `inputs`: layer 0
/// carries the inputs beside its bias slot, each hidden neuron the
/// rectifier of its weighted input, each output neuron the raw one.
/// The rectifier/linear pass is deterministic, so these equations pin
/// every activation.
pub open spec fn forward_consistent(
    model: NeuralNetwork,
    inputs: Seq<Fixed>,
    acts: Seq<Vec<Fixed>>,
) -> bool {
    let npl = model.neurons_per_layer@;
    &&& acts.len() == npl.len()
    &&& forall|l: int| 0 <= l < npl.len() ==> (#[trigger] acts[l])@.len() == npl[l] + 1
    &&& forall|l: int| 0 <= l < npl.len() ==> (#[trigger] acts[l])@[0].v == FX_SCALE
    &&& forall|i: int| 1 <= i < acts[0]@.len() ==> (#[trigger] acts[0]@[i]) == inputs[i - 1]
    &&& forall|l: int, j: int|
        1 <= l < npl.len() && 1 <= j < acts[l]@.len() ==> (#[trigger] acts[l]@[j]).v as int == (
        if l < npl.len() - 1 {
            relu_sp(nsum(model.weights@[l]@, acts[l - 1]@, j, npl[l - 1] + 1))
        } else {
            nsum(model.weights@[l]@, acts[l - 1]@, j, npl[l - 1] + 1)
        })
}

/// `out` is the prediction the network makes on `inputs`: the output
/// row of a forward pass of its weights, without the bias slot.
pub open spec fn prediction_of(model: NeuralNetwork, inputs: Seq<Fixed>, out: Seq<Fixed>) -> bool {
    exists|acts: Seq<Vec<Fixed>>|
        #[trigger] forward_consistent(model, inputs, acts) && out.len() + 1 == acts[model.neurons_per_layer@.len()
            - 1]@.len() && forall|j: int|
            0 <= j < out.len() ==> out[j] == acts[model.neurons_per_layer@.len() - 1]@[j + 1]
}

/// Builds a network for the given layer sizes: no weights for the
/// input layer; each later layer gets a `(prev+1) x (this+1)` weight
/// matrix whose bias column 0 is pinned to 0.0 and whose other entries
/// are drawn uniformly from [-1.0, 1.0]; activations start as 1.0 in
/// the bias slot 0 and 0.0 elsewhere; deltas start all 0.0.
pub fn init(arr: &Vec<usize>) -> (r: NeuralNetwork)
    requires
        1 <= arr@.len() <= 1_000,
        forall|l: int| 0 <= l < arr@.len() ==> 1 <= (#[trigger] arr@[l]) <= 1_000_000,
    ensures
        r.wf(),
        r.num_layers == arr@.len(),
        r.neurons_per_layer@ =~= arr@,
        forall|l: int, i: int, j: int|
            1 <= l < arr@.len() && 0 <= i < r.weights@[l]@.len() && 1 <= j
                < r.weights@[l]@[i]@.len() ==> -FX_SCALE <= (#[trigger] r.weights@[l]@[i]@[j]).v
                <= FX_SCALE,
        forall|l: int, i: int|
            0 <= l < arr@.len() && 1 <= i < r.activations@[l]@.len() ==> (
            #[trigger] r.activations@[l]@[i]).v == 0,
        forall|l: int, i: int|
            0 <= l < arr@.len() && 0 <= i < r.deltas@[l]@.len() ==> (
            #[trigger] r.deltas@[l]@[i]).v == 0,
{
    let num_layers = arr.len();
    let neurons_per_layer = crate::nn_struct::copy_usize_vec(arr);
    let mut weights: Vec<Vec<Vec<Fixed>>> = Vec::new();
    let mut activations: Vec<Vec<Fixed>> = Vec::new();
    let mut deltas: Vec<Vec<Fixed>> = Vec::new();
    let mut l: usize = 0;
    while l < num_layers
        invariant
            num_layers == arr@.len(),
            l <= num_layers,
            forall|x: int| 0 <= x < arr@.len() ==> 1 <= (#[trigger] arr@[x]) <= 1_000_000,
            weights@.len() == l,
            activations@.len() == l,
            deltas@.len() == l,
            l >= 1 ==> (#[trigger] weights@[0])@.len() == 0,
            forall|x: int|
                1 <= x < l ==> (#[trigger] weights@[x])@.len() == arr@[x - 1] + 1,
            forall|x: int, i: int|
                1 <= x < l && 0 <= i < weights@[x]@.len() ==> (#[trigger] weights@[x]@[i])@.len()
                    == arr@[x] + 1,
            forall|x: int, i: int|
                1 <= x < l && 0 <= i < weights@[x]@.len() ==> (#[trigger] weights@[x]@[i]@[0]).v
                    == 0,
            forall|x: int, i: int, j: int|
                1 <= x < l && 0 <= i < weights@[x]@.len() && 1 <= j < weights@[x]@[i]@.len()
                    ==> -FX_SCALE <= (#[trigger] weights@[x]@[i]@[j]).v <= FX_SCALE,
            forall|x: int|
                0 <= x < l ==> (#[trigger] activations@[x])@.len() == arr@[x] + 1,
            forall|x: int| 0 <= x < l ==> (#[trigger] activations@[x])@[0].v == FX_SCALE,
            forall|x: int, i: int|
                0 <= x < l && 1 <= i < activations@[x]@.len() ==> (
                #[trigger] activations@[x]@[i]).v == 0,
            forall|x: int| 0 <= x < l ==> (#[trigger] deltas@[x])@.len() == arr@[x] + 1,
            forall|x: int, i: int|
                0 <= x < l && 0 <= i < deltas@[x]@.len() ==> (#[trigger] deltas@[x]@[i]).v == 0,
        decreases num_layers - l,
    {
        if l == 0 {
            weights.push(Vec::new());
        } else {
            let prev_n = arr[l - 1];
            let this_n = arr[l];
            let mut layer_weights: Vec<Vec<Fixed>> = Vec::new();
            let mut i: usize = 0;
            while i < prev_n + 1
                invariant
                    i <= prev_n + 1,
                    prev_n <= 1_000_000,
                    this_n <= 1_000_000,
                    layer_weights@.len() == i,
                    forall|x: int|
                        0 <= x < i ==> (#[trigger] layer_weights@[x])@.len() == this_n + 1,
                    forall|x: int|
                        0 <= x < i ==> (#[trigger] layer_weights@[x]@[0]).v == 0,
                    forall|x: int, j: int|
                        0 <= x < i && 1 <= j < layer_weights@[x]@.len() ==> -FX_SCALE <= (
                        #[trigger] layer_weights@[x]@[j]).v <= FX_SCALE,
                decreases prev_n + 1 - i,
            {
                let mut row: Vec<Fixed> = Vec::new();
                row.push(Fixed { v: 0 });
                let mut j: usize = 1;
                while j < this_n + 1
                    invariant
                        1 <= j <= this_n + 1,
                        this_n <= 1_000_000,
                        row@.len() == j,
                        row@[0].v == 0,
                        forall|x: int|
                            1 <= x < j ==> -FX_SCALE <= (#[trigger] row@[x]).v <= FX_SCALE,
                    decreases this_n + 1 - j,
                {
                    let draw = rand_below((2 * FX_SCALE + 1) as u64) as i64;
                    row.push(Fixed { v: draw - FX_SCALE });
                    j += 1;
                }
                layer_weights.push(row);
                i += 1;
            }
            weights.push(layer_weights);
        }
        let this_n = arr[l];
        let mut acts: Vec<Fixed> = Vec::new();
        acts.push(Fixed { v: FX_SCALE });
        let mut dts: Vec<Fixed> = Vec::new();
        dts.push(Fixed { v: 0 });
        let mut i: usize = 1;
        while i < this_n + 1
            invariant
                1 <= i <= this_n + 1,
                this_n <= 1_000_000,
                acts@.len() == i,
                dts@.len() == i,
                acts@[0].v == FX_SCALE,
                forall|x: int| 1 <= x < i ==> (#[trigger] acts@[x]).v == 0,
                forall|x: int| 0 <= x < i ==> (#[trigger] dts@[x]).v == 0,
            decreases this_n + 1 - i,
        {
            acts.push(Fixed { v: 0 });
            dts.push(Fixed { v: 0 });
            i += 1;
        }
        activations.push(acts);
        deltas.push(dts);
        l += 1;
    }
    NeuralNetwork { num_layers, neurons_per_layer, weights, activations, deltas }
}

/// One forward pass: layer 0 takes the inputs beside its bias slot, a
/// hidden neuron applies the rectifier to its weighted input, and an
/// output neuron keeps it linear. Weights and deltas are untouched.
pub fn propagate(model: &mut NeuralNetwork, inputs: &Vec<Fixed>)
    requires
        old(model).wf(),
        inputs@.len() == old(model).neurons_per_layer@[0],
    ensures
        final(model).wf(),
        final(model).num_layers == old(model).num_layers,
        final(model).neurons_per_layer == old(model).neurons_per_layer,
        final(model).weights == old(model).weights,
        final(model).deltas == old(model).deltas,
        forall|i: int|
            1 <= i < final(model).activations@[0]@.len() ==> (
            #[trigger] final(model).activations@[0]@[i]) == inputs@[i - 1],
        forall|l: int, j: int|
            1 <= l < final(model).num_layers && 1 <= j < final(model).activations@[l]@.len()
                ==> (#[trigger] final(model).activations@[l]@[j]).v as int == (
            if l < final(model).num_layers - 1 {
                relu_sp(
                    nsum(
                        final(model).weights@[l]@,
                        final(model).activations@[l - 1]@,
                        j,
                        final(model).neurons_per_layer@[l - 1] + 1,
                    ),
                )
            } else {
                nsum(
                    final(model).weights@[l]@,
                    final(model).activations@[l - 1]@,
                    j,
                    final(model).neurons_per_layer@[l - 1] + 1,
                )
            }),
{
    let n0 = model.neurons_per_layer[0];
    let mut row0: Vec<Fixed> = Vec::new();
    row0.push(Fixed { v: FX_SCALE });
    let mut i: usize = 0;
    while i < n0
        invariant
            n0 == inputs@.len(),
            i <= n0,
            row0@.len() == i + 1,
            row0@[0].v == FX_SCALE,
            forall|x: int| 1 <= x < i + 1 ==> (#[trigger] row0@[x]) == inputs@[x - 1],
        decreases n0 - i,
    {
        row0.push(inputs[i]);
        i += 1;
    }
    model.activations[0] = row0;
    let num_layers = model.num_layers;
    let mut l: usize = 1;
    while l < num_layers
        invariant
            num_layers == model.num_layers,
            1 <= l <= num_layers,
            model.wf(),
            model.num_layers == old(model).num_layers,
            model.neurons_per_layer == old(model).neurons_per_layer,
            model.weights == old(model).weights,
            model.deltas == old(model).deltas,
            forall|i2: int|
                1 <= i2 < model.activations@[0]@.len() ==> (#[trigger] model.activations@[0]@[i2])
                    == inputs@[i2 - 1],
            forall|l2: int, j: int|
                1 <= l2 < l && 1 <= j < model.activations@[l2]@.len() ==> (
                #[trigger] model.activations@[l2]@[j]).v as int == (
                if l2 < num_layers - 1 {
                    relu_sp(
                        nsum(
                            model.weights@[l2]@,
                            model.activations@[l2 - 1]@,
                            j,
                            model.neurons_per_layer@[l2 - 1] + 1,
                        ),
                    )
                } else {
                    nsum(
                        model.weights@[l2]@,
                        model.activations@[l2 - 1]@,
                        j,
                        model.neurons_per_layer@[l2 - 1] + 1,
                    )
                }),
        decreases num_layers - l,
    {
        let prev_n = model.neurons_per_layer[l - 1];
        let this_n = model.neurons_per_layer[l];
        let mut row: Vec<Fixed> = Vec::new();
        row.push(Fixed { v: FX_SCALE });
        let mut j: usize = 1;
        while j < this_n + 1
            invariant
                1 <= l < num_layers,
                num_layers == model.num_layers,
                model.wf(),
                prev_n == model.neurons_per_layer@[l - 1],
                this_n == model.neurons_per_layer@[l as int],
                1 <= j <= this_n + 1,
                row@.len() == j,
                row@[0].v == FX_SCALE,
                forall|x: int|
                    1 <= x < j ==> (#[trigger] row@[x]).v as int == (
                    if l < num_layers - 1 {
                        relu_sp(
                            nsum(model.weights@[l as int]@, model.activations@[l - 1]@, x, prev_n + 1),
                        )
                    } else {
                        nsum(model.weights@[l as int]@, model.activations@[l - 1]@, x, prev_n + 1)
                    }),
            decreases this_n + 1 - j,
        {
            let mut total = Fixed { v: 0 };
            let mut k: usize = 0;
            while k < prev_n + 1
                invariant
                    1 <= l < num_layers,
                    num_layers == model.num_layers,
                    model.wf(),
                    prev_n == model.neurons_per_layer@[l - 1],
                    this_n == model.neurons_per_layer@[l as int],
                    1 <= j <= this_n,
                    k <= prev_n + 1,
                    total.v as int == nsum(
                        model.weights@[l as int]@,
                        model.activations@[l - 1]@,
                        j as int,
                        k as int,
                    ),
                decreases prev_n + 1 - k,
            {
                total = total.add(model.weights[l][k][j].mul(model.activations[l - 1][k]));
                k += 1;
            }
            let value = if l < num_layers - 1 {
                if total.v > 0 {
                    total
                } else {
                    Fixed { v: 0 }
                }
            } else {
                total
            };
            row.push(value);
            j += 1;
        }
        model.activations[l] = row;
        proof {
            assert forall|l2: int, j2: int|
                1 <= l2 < l + 1 && 1 <= j2 < model.activations@[l2]@.len() implies (
            #[trigger] model.activations@[l2]@[j2]).v as int == (
            if l2 < num_layers - 1 {
                relu_sp(
                    nsum(
                        model.weights@[l2]@,
                        model.activations@[l2 - 1]@,
                        j2,
                        model.neurons_per_layer@[l2 - 1] + 1,
                    ),
                )
            } else {
                nsum(
                    model.weights@[l2]@,
                    model.activations@[l2 - 1]@,
                    j2,
                    model.neurons_per_layer@[l2 - 1] + 1,
                )
            }) by {}
        }
        l += 1;
    }
}

/// A forward pass on a deep copy, so the live network's state is never
/// touched; the result is the output row (without the bias slot) of a
/// forward pass of the network's weights on the inputs.
pub fn predict(model: &NeuralNetwork, inputs: &Vec<Fixed>) -> (r: Vec<Fixed>)
    requires
        model.wf(),
        inputs@.len() == model.neurons_per_layer@[0],
    ensures
        r@.len() == model.neurons_per_layer@[model.num_layers - 1],
        exists|acts: Seq<Vec<Fixed>>|
            #[trigger] forward_consistent(*model, inputs@, acts) && r@.len() + 1 == acts[model.num_layers
                - 1]@.len() && forall|j: int|
                0 <= j < r@.len() ==> r@[j] == acts[model.num_layers - 1]@[j + 1],
        prediction_of(*model, inputs@, r@),
{
    let mut clone = model.deep_copy();
    proof {
        assert(clone.wf());
    }
    propagate(&mut clone, inputs);
    proof {
        assert forall|l: int, j: int|
            1 <= l < model.neurons_per_layer@.len() && 1 <= j
                < clone.activations@[l]@.len() implies (
        #[trigger] clone.activations@[l]@[j]).v as int == (
        if l < model.neurons_per_layer@.len() - 1 {
            relu_sp(
                nsum(
                    model.weights@[l]@,
                    clone.activations@[l - 1]@,
                    j,
                    model.neurons_per_layer@[l - 1] + 1,
                ),
            )
        } else {
            nsum(
                model.weights@[l]@,
                clone.activations@[l - 1]@,
                j,
                model.neurons_per_layer@[l - 1] + 1,
            )
        }) by {
            lemma_nsum_congruence(
                model.weights@[l]@,
                clone.weights@[l]@,
                clone.activations@[l - 1]@,
                j,
                model.neurons_per_layer@[l - 1] + 1,
            );
        }
        assert(forward_consistent(*model, inputs@, clone.activations@));
    }
    let last = clone.num_layers - 1;
    let width = clone.neurons_per_layer[last];
    let ghost acts = clone.activations@;
    let mut out: Vec<Fixed> = Vec::new();
    let mut j: usize = 1;
    while j < width + 1
        invariant
            last == clone.num_layers - 1,
            clone.wf(),
            width == clone.neurons_per_layer@[last as int],
            1 <= j <= width + 1,
            out@.len() == j - 1,
            acts == clone.activations@,
            forall|x: int| 0 <= x < out@.len() ==> (#[trigger] out@[x]) == acts[last as int]@[x + 1],
        decreases width + 1 - j,
    {
        out.push(clone.activations[last][j]);
        j += 1;
    }
    out
}

/// The backpropagated error fold of hidden neuron `i`: the sum over
/// the next layer's neurons `j` in `1..upto` of `weights[i][j] *
/// deltas[j]`.
pub open spec fn dsum(w_l: Seq<Vec<Fixed>>, deltas_l: Seq<Fixed>, i: int, upto: int) -> int
    decreases upto,
{
    if upto <= 1 {
        0
    } else {
        fx_add_sp(
            dsum(w_l, deltas_l, i, upto - 1),
            fx_mul_sp(w_l[i]@[upto - 1].v as int, deltas_l[upto - 1].v as int),
        )
    }
}

/// One supervised gradient step toward `target` (regression form):
/// after a forward pass, the output deltas are the raw errors, hidden
/// deltas backpropagate with the rectifier derivative, and every
/// weight (bias rows included, bias column excluded) moves by
/// `-learning_rate * activation * delta`.
pub fn one_step_train_pmc2(
    model: &mut NeuralNetwork,
    inputs: &Vec<Fixed>,
    target: &Vec<Fixed>,
    learning_rate: Fixed,
)
    requires
        old(model).wf(),
        inputs@.len() == old(model).neurons_per_layer@[0],
        target@.len() >= old(model).neurons_per_layer@[old(model).num_layers - 1],
        old(model).num_layers >= 2,
    ensures
        final(model).wf(),
        final(model).num_layers == old(model).num_layers,
        final(model).neurons_per_layer == old(model).neurons_per_layer,
        // The activations are the forward pass of the pre-step weights.
        forward_consistent(*old(model), inputs@, final(model).activations@),
        // Output deltas: the raw prediction errors.
        forall|j: int|
            1 <= j < final(model).deltas@[final(model).num_layers - 1]@.len() ==> (
            #[trigger] final(model).deltas@[final(model).num_layers - 1]@[j]).v as int
                == fx_sub_sp(
                final(model).activations@[final(model).num_layers - 1]@[j].v as int,
                target@[j - 1].v as int,
            ),
        // Hidden deltas: the rectifier derivative gating the next
        // layer's backpropagated fold, against the pre-step weights.
        forall|l: int, i: int|
            1 <= l < final(model).num_layers - 1 && 1 <= i < final(model).deltas@[l]@.len() ==> (
            #[trigger] final(model).deltas@[l]@[i]).v as int == (
            if final(model).activations@[l]@[i].v > 0 {
                dsum(
                    old(model).weights@[l + 1]@,
                    final(model).deltas@[l + 1]@,
                    i,
                    final(model).neurons_per_layer@[l + 1] + 1,
                )
            } else {
                0
            }),
        // The weight update, every layer, bias rows included.
        forall|l: int, i: int, j: int|
            1 <= l < final(model).num_layers && 0 <= i < final(model).weights@[l]@.len() && 1 <= j
                < final(model).weights@[l]@[i]@.len() ==> (
            #[trigger] final(model).weights@[l]@[i]@[j]).v as int == fx_sub_sp(
                old(model).weights@[l]@[i]@[j].v as int,
                fx_mul_sp(
                    fx_mul_sp(learning_rate.v as int, final(model).activations@[l - 1]@[i].v as int),
                    final(model).deltas@[l]@[j].v as int,
                ),
            ),
        forall|l: int, i: int|
            1 <= l < final(model).num_layers && 0 <= i < final(model).weights@[l]@.len() ==> (
            #[trigger] final(model).weights@[l]@[i]@[0]) == old(model).weights@[l]@[i]@[0],
{
    propagate(model, inputs);
    let ghost acts = model.activations@;
    let num_layers = model.num_layers;
    let last = num_layers - 1;
    let out_n = model.neurons_per_layer[last];
    let mut out_deltas: Vec<Fixed> = Vec::new();
    out_deltas.push(Fixed { v: 0 });
    let mut j: usize = 1;
    while j < out_n + 1
        invariant
            model.wf(),
            last == num_layers - 1,
            num_layers == model.num_layers,
            out_n == model.neurons_per_layer@[last as int],
            target@.len() >= out_n,
            1 <= j <= out_n + 1,
            out_deltas@.len() == j,
            forall|x: int|
                1 <= x < j ==> (#[trigger] out_deltas@[x]).v as int == fx_sub_sp(
                    model.activations@[last as int]@[x].v as int,
                    target@[x - 1].v as int,
                ),
        decreases out_n + 1 - j,
    {
        let err = model.activations[last][j].sub(target[j - 1]);
        out_deltas.push(err);
        j += 1;
    }
    model.deltas[last] = out_deltas;
    // Hidden deltas, walking from the last hidden layer down to layer 1.
    let mut l: usize = last;
    while l > 1
        invariant
            num_layers == model.num_layers,
            1 <= l <= last,
            last == num_layers - 1,
            model.wf(),
            model.num_layers == old(model).num_layers,
            model.neurons_per_layer == old(model).neurons_per_layer,
            model.weights == old(model).weights,
            model.activations@ == acts,
            forward_consistent(*old(model), inputs@, acts),
            forall|x: int|
                1 <= x < model.deltas@[last as int]@.len() ==> (
                #[trigger] model.deltas@[last as int]@[x]).v as int == fx_sub_sp(
                    model.activations@[last as int]@[x].v as int,
                    target@[x - 1].v as int,
                ),
            forall|x: int, i: int|
                l <= x < num_layers - 1 && 1 <= i < model.deltas@[x]@.len() ==> (
                #[trigger] model.deltas@[x]@[i]).v as int == (
                if model.activations@[x]@[i].v > 0 {
                    dsum(
                        old(model).weights@[x + 1]@,
                        model.deltas@[x + 1]@,
                        i,
                        model.neurons_per_layer@[x + 1] + 1,
                    )
                } else {
                    0
                }),
        decreases l,
    {
        let hl = l - 1;
        let this_n = model.neurons_per_layer[hl];
        let next_n = model.neurons_per_layer[l];
        let mut hid_deltas: Vec<Fixed> = Vec::new();
        hid_deltas.push(Fixed { v: 0 });
        let mut i: usize = 1;
        while i < this_n + 1
            invariant
                num_layers == model.num_layers,
                1 <= l <= last,
                hl == l - 1,
                last == num_layers - 1,
                model.wf(),
                model.weights == old(model).weights,
                this_n == model.neurons_per_layer@[hl as int],
                next_n == model.neurons_per_layer@[l as int],
                this_n <= 1_000_000,
                next_n <= 1_000_000,
                1 <= i <= this_n + 1,
                hid_deltas@.len() == i,
                hid_deltas@[0].v == 0,
                forall|x: int|
                    1 <= x < i ==> (#[trigger] hid_deltas@[x]).v as int == (
                    if model.activations@[hl as int]@[x].v > 0 {
                        dsum(
                            old(model).weights@[l as int]@,
                            model.deltas@[l as int]@,
                            x,
                            model.neurons_per_layer@[l as int] + 1,
                        )
                    } else {
                        0
                    }),
            decreases this_n + 1 - i,
        {
            let mut total = Fixed { v: 0 };
            let mut j2: usize = 1;
            while j2 < next_n + 1
                invariant
                    num_layers == model.num_layers,
                    1 <= l <= last,
                    last == num_layers - 1,
                    hl == l - 1,
                    model.wf(),
                    model.weights == old(model).weights,
                    this_n == model.neurons_per_layer@[hl as int],
                    next_n == model.neurons_per_layer@[l as int],
                    next_n <= 1_000_000,
                    1 <= i <= this_n,
                    1 <= j2 <= next_n + 1,
                    total.v as int == dsum(
                        model.weights@[l as int]@,
                        model.deltas@[l as int]@,
                        i as int,
                        j2 as int,
                    ),
                decreases next_n + 1 - j2,
            {
                total = total.add(model.weights[l][i][j2].mul(model.deltas[l][j2]));
                j2 += 1;
            }
            let act = model.activations[hl][i];
            let d = if act.v > 0 {
                total
            } else {
                Fixed { v: 0 }
            };
            hid_deltas.push(d);
            i += 1;
        }
        model.deltas[hl] = hid_deltas;
        l -= 1;
    }
    // Weight update over every layer, bias rows included.
    let ghost deltas_done = model.deltas@;
    let mut l2: usize = 1;
    while l2 < num_layers
        invariant
            num_layers == model.num_layers,
            1 <= l2 <= num_layers,
            model.wf(),
            model.num_layers == old(model).num_layers,
            model.neurons_per_layer == old(model).neurons_per_layer,
            model.activations@ == acts,
            model.deltas@ == deltas_done,
            last == num_layers - 1,
            forward_consistent(*old(model), inputs@, acts),
            forall|x: int|
                1 <= x < model.deltas@[last as int]@.len() ==> (
                #[trigger] model.deltas@[last as int]@[x]).v as int == fx_sub_sp(
                    model.activations@[last as int]@[x].v as int,
                    target@[x - 1].v as int,
                ),
            forall|x: int, i: int|
                1 <= x < num_layers - 1 && 1 <= i < model.deltas@[x]@.len() ==> (
                #[trigger] model.deltas@[x]@[i]).v as int == (
                if model.activations@[x]@[i].v > 0 {
                    dsum(
                        old(model).weights@[x + 1]@,
                        model.deltas@[x + 1]@,
                        i,
                        model.neurons_per_layer@[x + 1] + 1,
                    )
                } else {
                    0
                }),
            forall|x: int| l2 <= x < num_layers ==> (#[trigger] model.weights@[x]) == old(
                model,
            ).weights@[x],
            model.weights@[0] == old(model).weights@[0],
            forall|x: int, i: int, jj: int|
                1 <= x < l2 && 0 <= i < model.weights@[x]@.len() && 1 <= jj
                    < model.weights@[x]@[i]@.len() ==> (#[trigger] model.weights@[x]@[i]@[jj]).v as int
                    == fx_sub_sp(
                    old(model).weights@[x]@[i]@[jj].v as int,
                    fx_mul_sp(
                        fx_mul_sp(
                            learning_rate.v as int,
                            model.activations@[x - 1]@[i].v as int,
                        ),
                        model.deltas@[x]@[jj].v as int,
                    ),
                ),
            forall|x: int, i: int|
                1 <= x < l2 && 0 <= i < model.weights@[x]@.len() ==> (
                #[trigger] model.weights@[x]@[i]@[0]) == old(model).weights@[x]@[i]@[0],
            forall|x: int|
                1 <= x < l2 ==> (#[trigger] model.weights@[x])@.len() == old(
                    model,
                ).weights@[x]@.len(),
            forall|x: int, i: int|
                1 <= x < l2 && 0 <= i < model.weights@[x]@.len() ==> (
                #[trigger] model.weights@[x]@[i])@.len() == old(model).weights@[x]@[i]@.len(),
        decreases num_layers - l2,
    {
        let prev_n = model.neurons_per_layer[l2 - 1];
        let this_n = model.neurons_per_layer[l2];
        let ghost layer_pre = model.weights@[l2 as int];
        let mut i: usize = 0;
        while i < prev_n + 1
            invariant
                num_layers == model.num_layers,
                1 <= l2 < num_layers,
                model.wf(),
                model.num_layers == old(model).num_layers,
                model.neurons_per_layer == old(model).neurons_per_layer,
                model.activations@ == acts,
                model.deltas@ == deltas_done,
                last == num_layers - 1,
                prev_n == model.neurons_per_layer@[l2 - 1],
                this_n == model.neurons_per_layer@[l2 as int],
                i <= prev_n + 1,
                layer_pre == old(model).weights@[l2 as int],
                model.weights@[l2 as int]@.len() == layer_pre@.len(),
                forall|x: int| l2 < x < num_layers ==> (#[trigger] model.weights@[x]) == old(
                    model,
                ).weights@[x],
                model.weights@[0] == old(model).weights@[0],
                forall|x: int, ii: int, jj: int|
                    1 <= x < l2 && 0 <= ii < model.weights@[x]@.len() && 1 <= jj
                        < model.weights@[x]@[ii]@.len() ==> (
                    #[trigger] model.weights@[x]@[ii]@[jj]).v as int == fx_sub_sp(
                        old(model).weights@[x]@[ii]@[jj].v as int,
                        fx_mul_sp(
                            fx_mul_sp(
                                learning_rate.v as int,
                                model.activations@[x - 1]@[ii].v as int,
                            ),
                            model.deltas@[x]@[jj].v as int,
                        ),
                    ),
                forall|x: int, ii: int|
                    1 <= x < l2 && 0 <= ii < model.weights@[x]@.len() ==> (
                    #[trigger] model.weights@[x]@[ii]@[0]) == old(model).weights@[x]@[ii]@[0],
                forall|x: int|
                    1 <= x < l2 ==> (#[trigger] model.weights@[x])@.len() == old(
                        model,
                    ).weights@[x]@.len(),
                forall|x: int, ii: int|
                    1 <= x < l2 && 0 <= ii < model.weights@[x]@.len() ==> (
                    #[trigger] model.weights@[x]@[ii])@.len() == old(
                        model,
                    ).weights@[x]@[ii]@.len(),
                forall|ii: int|
                    i <= ii < model.weights@[l2 as int]@.len() ==> (
                    #[trigger] model.weights@[l2 as int]@[ii]) == layer_pre@[ii],
                forall|ii: int, jj: int|
                    0 <= ii < i && 1 <= jj < model.weights@[l2 as int]@[ii]@.len() ==> (
                    #[trigger] model.weights@[l2 as int]@[ii]@[jj]).v as int == fx_sub_sp(
                        layer_pre@[ii]@[jj].v as int,
                        fx_mul_sp(
                            fx_mul_sp(
                                learning_rate.v as int,
                                model.activations@[l2 - 1]@[ii].v as int,
                            ),
                            model.deltas@[l2 as int]@[jj].v as int,
                        ),
                    ),
                forall|ii: int|
                    0 <= ii < i ==> (#[trigger] model.weights@[l2 as int]@[ii]@[0])
                        == layer_pre@[ii]@[0],
                forall|ii: int|
                    0 <= ii < i ==> (#[trigger] model.weights@[l2 as int]@[ii])@.len()
                        == layer_pre@[ii]@.len(),
            decreases prev_n + 1 - i,
        {
            let mut row = copy_fixed_row(&model.weights[l2][i]);
            let ghost row_pre = model.weights@[l2 as int]@[i as int]@;
            let mut j3: usize = 1;
            while j3 < this_n + 1
                invariant
                    num_layers == model.num_layers,
                    1 <= l2 < num_layers,
                    model.wf(),
                    model.activations@ == acts,
                    model.deltas@ == deltas_done,
                    prev_n == model.neurons_per_layer@[l2 - 1],
                    this_n == model.neurons_per_layer@[l2 as int],
                    i <= prev_n,
                    1 <= j3 <= this_n + 1,
                    row@.len() == this_n + 1,
                    row_pre == model.weights@[l2 as int]@[i as int]@,
                    row_pre.len() == this_n + 1,
                    row@[0] == row_pre[0],
                    forall|jj: int| j3 <= jj < row@.len() ==> (#[trigger] row@[jj]) == row_pre[jj],
                    forall|jj: int|
                        1 <= jj < j3 ==> (#[trigger] row@[jj]).v as int == fx_sub_sp(
                            row_pre[jj].v as int,
                            fx_mul_sp(
                                fx_mul_sp(
                                    learning_rate.v as int,
                                    model.activations@[l2 - 1]@[i as int].v as int,
                                ),
                                model.deltas@[l2 as int]@[jj].v as int,
                            ),
                        ),
                decreases this_n + 1 - j3,
            {
                let grad = learning_rate.mul(model.activations[l2 - 1][i]).mul(
                    model.deltas[l2][j3],
                );
                row[j3] = row[j3].sub(grad);
                j3 += 1;
            }
            model.weights[l2][i] = row;
            i += 1;
        }
        l2 += 1;
    }
}

/// Repeated single-step training on uniformly random rows of a
/// dataset; a validation split is accepted but not scored.
pub fn train_pmc_model(
    model: &mut NeuralNetwork,
    inputs: &Vec<Vec<Fixed>>,
    outputs: &Vec<Vec<Fixed>>,
    validations: &Vec<Vec<Fixed>>,
    labels: &Vec<Vec<Fixed>>,
    learning_rate: Fixed,
    iteration: usize,
)
    requires
        old(model).wf(),
        old(model).num_layers >= 2,
        inputs@.len() > 0,
        inputs@.len() == outputs@.len(),
        forall|i: int|
            0 <= i < inputs@.len() ==> (#[trigger] inputs@[i])@.len() == old(
                model,
            ).neurons_per_layer@[0],
        forall|i: int|
            0 <= i < outputs@.len() ==> (#[trigger] outputs@[i])@.len() >= old(
                model,
            ).neurons_per_layer@[old(model).num_layers - 1],
    ensures
        final(model).wf(),
        final(model).num_layers == old(model).num_layers,
        final(model).neurons_per_layer == old(model).neurons_per_layer,
        // With at least one round, the state is a completed training
        // step on some dataset row: the output deltas are the errors
        // against that row's outputs.
        iteration > 0 ==> exists|pick: int|
            #![trigger outputs@[pick]]
            0 <= pick < outputs@.len() && forall|j: int|
                1 <= j < final(model).deltas@[final(model).num_layers - 1]@.len() ==> (
                #[trigger] final(model).deltas@[final(model).num_layers - 1]@[j]).v as int
                    == fx_sub_sp(
                    final(model).activations@[final(model).num_layers - 1]@[j].v as int,
                    outputs@[pick]@[j - 1].v as int,
                ),
{
    let ghost mut last_pick: int = 0;
    let mut it: usize = 0;
    while it < iteration
        invariant
            model.wf(),
            model.num_layers == old(model).num_layers,
            model.neurons_per_layer == old(model).neurons_per_layer,
            model.num_layers >= 2,
            inputs@.len() > 0,
            inputs@.len() == outputs@.len(),
            forall|i: int|
                0 <= i < inputs@.len() ==> (#[trigger] inputs@[i])@.len()
                    == model.neurons_per_layer@[0],
            forall|i: int|
                0 <= i < outputs@.len() ==> (#[trigger] outputs@[i])@.len()
                    >= model.neurons_per_layer@[model.num_layers - 1],
            it > 0 ==> 0 <= last_pick < outputs@.len() && outputs@[last_pick]@.len() >= 0
                && forall|j: int|
                1 <= j < model.deltas@[model.num_layers - 1]@.len() ==> (
                #[trigger] model.deltas@[model.num_layers - 1]@[j]).v as int == fx_sub_sp(
                    model.activations@[model.num_layers - 1]@[j].v as int,
                    outputs@[last_pick]@[j - 1].v as int,
                ),
        decreases iteration - it,
    {
        let pick = rand_below(inputs.len() as u64) as usize;
        let rand_input = &inputs[pick];
        let rand_output = &outputs[pick];
        if validations.len() > 0 {
            let _val_pick = rand_below(validations.len() as u64) as usize;
        }
        one_step_train_pmc2(model, rand_input, rand_output, learning_rate);
        proof {
            last_pick = pick as int;
        }
        it += 1;
    }
    let _ = labels;
}

} // verus!
