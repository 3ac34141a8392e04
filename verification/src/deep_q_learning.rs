use vstd::prelude::*;
use crate::fixed::{Fixed, FX_SCALE, fx_add_sp, fx_mul_sp, fx_sub_sp};
use crate::neural_network::{
    dsum, forward_consistent, init, one_step_train_pmc2, predict, prediction_of,
};
use crate::nn_struct::NeuralNetwork;
use crate::rng::rand_below;
use crate::tools::argmax;

verus! {

/// What one epsilon decay leaves: the decayed value, floored at the
/// configured minimum.
pub open spec fn epsilon_after_sp(epsilon: int, epsilon_min: int, epsilon_decay: int) -> int {
    let decayed = fx_mul_sp(epsilon, epsilon_decay);
    if decayed >= epsilon_min {
        decayed
    } else {
        epsilon_min
    }
}

/// Repeated decay pins the exploration rate to its floor: one decay
/// never goes below `epsilon_min`, strictly shrinks a rate still above
/// the floor (given a decay factor below 1), and leaves a rate already
/// at the floor exactly there.
pub proof fn lemma_epsilon_decay(eps: int, eps_min: int, decay: int)
    requires
        0 <= eps_min <= eps,
        eps <= i64::MAX,
        0 <= decay < 1_000_000,
    ensures
        eps_min <= epsilon_after_sp(eps, eps_min, decay),
        eps > eps_min ==> epsilon_after_sp(eps, eps_min, decay) < eps,
        eps == eps_min ==> epsilon_after_sp(eps, eps_min, decay) == eps_min,
{
    assert(eps * decay >= 0) by (nonlinear_arith)
        requires eps >= 0 && decay >= 0;
    assert(eps * decay / 1_000_000 < eps || eps == 0) by (nonlinear_arith)
        requires 0 <= decay < 1_000_000 && eps >= 0;
    assert(fx_mul_sp(eps, decay) < eps || eps == 0);
}

/// A Q-learning agent whose value function is a feed-forward network
/// with two 64-unit hidden layers.
pub struct DeepQLearning {
    pub self_ptr: usize,
    pub state_size: usize,
    pub action_size: usize,
    pub learning_rate: Fixed,
    pub gamma: Fixed,
    pub epsilon: Fixed,
    pub epsilon_min: Fixed,
    pub epsilon_decay: Fixed,
    pub neural_network: NeuralNetwork,
}

impl DeepQLearning {
    pub open spec fn wf(&self) -> bool {
        &&& self.neural_network.wf()
        &&& self.neural_network.num_layers == 4
        &&& self.neural_network.neurons_per_layer@[0] == self.state_size
        &&& self.neural_network.neurons_per_layer@[1] == 64
        &&& self.neural_network.neurons_per_layer@[2] == 64
        &&& self.neural_network.neurons_per_layer@[3] == self.action_size
        &&& 1 <= self.state_size <= 1_000_000
        &&& 1 <= self.action_size <= 1_000_000
    }
}

/// Builds the agent around a fresh `[state_dim, 64, 64, action_dim]`
/// network.
pub fn init_dql(
    state_dim: usize,
    action_dim: usize,
    learning_rate: Fixed,
    gamma: Fixed,
    epsilon: Fixed,
    epsilon_min: Fixed,
    epsilon_decay: Fixed,
) -> (r: DeepQLearning)
    requires
        1 <= state_dim <= 1_000_000,
        1 <= action_dim <= 1_000_000,
    ensures
        r.wf(),
        r.self_ptr == 0,
        r.state_size == state_dim,
        r.action_size == action_dim,
        r.learning_rate == learning_rate,
        r.gamma == gamma,
        r.epsilon == epsilon,
        r.epsilon_min == epsilon_min,
        r.epsilon_decay == epsilon_decay,
{
    let arr: Vec<usize> = vec![state_dim, 64, 64, action_dim];
    let neural_network = init(&arr);
    DeepQLearning {
        self_ptr: 0,
        state_size: state_dim,
        action_size: action_dim,
        learning_rate,
        gamma,
        epsilon,
        epsilon_min,
        epsilon_decay,
        neural_network,
    }
}

/// One epsilon decay: `epsilon` becomes `max(epsilon_min, epsilon *
/// epsilon_decay)`. Nothing else of the agent moves.
pub fn update_epsilon(model: &mut DeepQLearning)
    ensures
        *final(model) == (DeepQLearning { epsilon: final(model).epsilon, ..*old(model) }),
        final(model).epsilon.v as int == epsilon_after_sp(
            old(model).epsilon.v as int,
            old(model).epsilon_min.v as int,
            old(model).epsilon_decay.v as int,
        ),
{
    let decayed = model.epsilon.mul(model.epsilon_decay);
    model.epsilon = model.epsilon_min.max(decayed);
}

/// With probability `epsilon`, a uniformly random entry of the
/// caller's available-action list; otherwise the index of the largest
/// predicted Q-value among the first `available_actions.len()` output
/// slots (the available actions are taken to occupy a prefix of the
/// action index space).
pub fn choose_action(
    model: &mut DeepQLearning,
    inputs: &Vec<Fixed>,
    available_actions: &Vec<usize>,
) -> (r: usize)
    requires
        old(model).wf(),
        inputs@.len() == old(model).state_size,
        0 < available_actions@.len() <= old(model).action_size,
        0 <= old(model).epsilon.v <= FX_SCALE,
    ensures
        *final(model) == *old(model),
        (exists|i: int|
            0 <= i < available_actions@.len() && (#[trigger] available_actions@[i]) == r) || (
        exists|nq: Seq<Fixed>|
            {
                &&& #[trigger] prediction_of(old(model).neural_network, inputs@, nq)
                &&& r < available_actions@.len()
                &&& forall|x: int|
                    0 <= x < available_actions@.len() ==> (#[trigger] nq[x]).v <= nq[r as int].v
            }),
{
    let draw = rand_below(FX_SCALE as u64);
    if model.epsilon.v > 0 && draw <= model.epsilon.v as u64 {
        let index = rand_below(available_actions.len() as u64) as usize;
        available_actions[index]
    } else {
        let q_values = predict(&model.neural_network, inputs);
        let mut valid_q_values: Vec<Option<Fixed>> = Vec::new();
        let n = q_values.len();
        let keep = available_actions.len();
        let mut i: usize = 0;
        while i < n
            invariant
                n == q_values@.len(),
                i <= n,
                keep <= n,
                valid_q_values@.len() == i,
                forall|x: int|
                    0 <= x < i ==> (#[trigger] valid_q_values@[x]) == if x < keep {
                        Some(q_values@[x])
                    } else {
                        None::<Fixed>
                    },
            decreases n - i,
        {
            if i < keep {
                valid_q_values.push(Some(q_values[i]));
            } else {
                valid_q_values.push(None);
            }
            i += 1;
        }
        let res = argmax(&valid_q_values);
        proof {
            assert(valid_q_values@[0] == Some(q_values@[0]));
            if !(forall|x: int|
                0 <= x < valid_q_values@.len() ==> (#[trigger] valid_q_values@[x]) is None) {
                assert(valid_q_values@[res as int] is Some);
            }
            assert(res < keep);
            assert forall|x: int| 0 <= x < available_actions@.len() implies (
            #[trigger] q_values@[x]).v <= q_values@[res as int].v by {
                assert(valid_q_values@[x] == Some(q_values@[x]));
                assert(valid_q_values@[x] is Some);
                assert(valid_q_values@[res as int] == Some(q_values@[res as int]));
            }
            assert(prediction_of(old(model).neural_network, inputs@, q_values@));
        }
        res
    }
}

/// One Deep-Q learning step: the TD target is the reward, plus
/// `gamma * max_a' Q(next_state, a')` when the episode goes on; the
/// network takes one supervised step toward its own prediction with
/// the taken action's slot overwritten by that target.
pub fn learn_dql(
    model: &mut DeepQLearning,
    state: &Vec<Fixed>,
    action: usize,
    reward: Fixed,
    next_state: &Vec<Fixed>,
    done: bool,
)
    requires
        old(model).wf(),
        state@.len() == old(model).state_size,
        next_state@.len() == old(model).state_size,
        action < old(model).action_size,
    ensures
        final(model).wf(),
        final(model).state_size == old(model).state_size,
        final(model).action_size == old(model).action_size,
        final(model).learning_rate == old(model).learning_rate,
        final(model).gamma == old(model).gamma,
        final(model).epsilon == old(model).epsilon,
        final(model).epsilon_min == old(model).epsilon_min,
        final(model).epsilon_decay == old(model).epsilon_decay,
        final(model).neural_network.num_layers == old(model).neural_network.num_layers,
        final(model).neural_network.neurons_per_layer == old(
            model).neural_network.neurons_per_layer,
        // The activations are the forward pass of the pre-step weights
        // on `state`.
        forward_consistent(
            old(model).neural_network,
            state@,
            final(model).neural_network.activations@,
        ),
        // Every weight moved by exactly `-learning_rate * activation *
        // delta`, the bias column untouched.
        forall|l: int, i: int, j: int|
            1 <= l < final(model).neural_network.num_layers && 0 <= i < final(
                model).neural_network.weights@[l]@.len() && 1 <= j < final(
                model).neural_network.weights@[l]@[i]@.len() ==> (
            #[trigger] final(model).neural_network.weights@[l]@[i]@[j]).v as int == fx_sub_sp(
                old(model).neural_network.weights@[l]@[i]@[j].v as int,
                fx_mul_sp(
                    fx_mul_sp(
                        old(model).learning_rate.v as int,
                        final(model).neural_network.activations@[l - 1]@[i].v as int,
                    ),
                    final(model).neural_network.deltas@[l]@[j].v as int,
                ),
            ),
        forall|l: int, i: int|
            1 <= l < final(model).neural_network.num_layers && 0 <= i < final(
                model).neural_network.weights@[l]@.len() ==> (
            #[trigger] final(model).neural_network.weights@[l]@[i]@[0]) == old(
                model).neural_network.weights@[l]@[i]@[0],
        // Hidden deltas backpropagate against the pre-step weights,
        // gated by the rectifier derivative.
        forall|l: int, i: int|
            1 <= l < final(model).neural_network.num_layers - 1 && 1 <= i < final(
                model).neural_network.deltas@[l]@.len() ==> (
            #[trigger] final(model).neural_network.deltas@[l]@[i]).v as int == (
            if final(model).neural_network.activations@[l]@[i].v > 0 {
                dsum(
                    old(model).neural_network.weights@[l + 1]@,
                    final(model).neural_network.deltas@[l + 1]@,
                    i,
                    final(model).neural_network.neurons_per_layer@[l + 1] + 1,
                )
            } else {
                0
            }),
        // One supervised step was taken toward the network's own
        // prediction on `state` with the taken action's slot
        // overwritten by the TD target: the output deltas are the
        // errors against exactly that vector.
        exists|cur: Seq<Fixed>|
            {
                let last = old(model).neural_network.num_layers - 1;
                &&& #[trigger] prediction_of(old(model).neural_network, state@, cur)
                &&& cur.len() == old(model).action_size
                &&& forall|j: int|
                    1 <= j < final(model).neural_network.deltas@[last]@.len() && j - 1
                        != action ==> (#[trigger] final(model).neural_network.deltas@[last]@[j]).v as int
                        == fx_sub_sp(
                        final(model).neural_network.activations@[last]@[j].v as int,
                        cur[j - 1].v as int,
                    )
                &&& (done ==> final(model).neural_network.deltas@[last]@[action + 1].v as int
                    == fx_sub_sp(
                    final(model).neural_network.activations@[last]@[action + 1].v as int,
                    reward.v as int,
                ))
                &&& (!done ==> exists|nq: Seq<Fixed>, b: int|
                    {
                        &&& #[trigger] prediction_of(old(model).neural_network, next_state@, nq)
                        &&& nq.len() == old(model).action_size
                        &&& 0 <= b < nq.len()
                        &&& (forall|x: int| 0 <= x < nq.len() ==> (#[trigger] nq[x]).v <= #[trigger] nq[b].v)
                        &&& final(model).neural_network.deltas@[last]@[action + 1].v as int
                            == fx_sub_sp(
                            final(model).neural_network.activations@[last]@[action + 1].v as int,
                            fx_add_sp(
                                reward.v as int,
                                fx_mul_sp(old(model).gamma.v as int, nq[b].v as int),
                            ),
                        )
                    })
            },
{
    let mut target = reward;
    let ghost mut nq_w: Seq<Fixed> = Seq::empty();
    let ghost mut b_w: int = 0;
    if !done {
        let next_q_values = predict(&model.neural_network, next_state);
        proof {
            nq_w = next_q_values@;
        }
        let mut wrapped: Vec<Option<Fixed>> = Vec::new();
        let n = next_q_values.len();
        let mut i: usize = 0;
        while i < n
            invariant
                n == next_q_values@.len(),
                i <= n,
                wrapped@.len() == i,
                forall|x: int| 0 <= x < i ==> (#[trigger] wrapped@[x]) == Some(next_q_values@[x]),
            decreases n - i,
        {
            wrapped.push(Some(next_q_values[i]));
            i += 1;
        }
        let best = argmax(&wrapped);
        proof {
            assert(wrapped@[0] is Some);
            if forall|x: int| 0 <= x < wrapped@.len() ==> (#[trigger] wrapped@[x]) is None {
                assert(wrapped@[0] is None);
            }
            b_w = best as int;
            assert forall|x: int| 0 <= x < nq_w.len() implies (#[trigger] nq_w[x]).v
                <= nq_w[b_w].v by {
                assert(wrapped@[x] == Some(next_q_values@[x]));
                assert(wrapped@[x] is Some);
            }
        }
        target = reward.add(model.gamma.mul(next_q_values[best]));
    }
    let mut current_q_values = predict(&model.neural_network, state);
    let ghost cur_w = current_q_values@;
    current_q_values[action] = target;
    one_step_train_pmc2(
        &mut model.neural_network,
        state,
        &current_q_values,
        model.learning_rate,
    );
    proof {
        let last = old(model).neural_network.num_layers - 1;
        assert(prediction_of(old(model).neural_network, state@, cur_w));
        assert forall|j: int|
            1 <= j < final(model).neural_network.deltas@[last]@.len() && j - 1 != action implies (
        #[trigger] final(model).neural_network.deltas@[last]@[j]).v as int == fx_sub_sp(
            final(model).neural_network.activations@[last]@[j].v as int,
            cur_w[j - 1].v as int,
        ) by {
            assert(current_q_values@[j - 1] == cur_w[j - 1]);
        }
        if !done {
            assert(prediction_of(old(model).neural_network, next_state@, nq_w));
        }
    }
}

} // verus!
