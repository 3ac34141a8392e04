use rustml::deep_q_learning::{choose_action, init_dql, learn_dql, update_epsilon};
use rustml::fixed::Fixed;
use rustml::neural_network::{init, one_step_train_pmc2, predict, propagate, train_pmc_model};

fn fx(units: i64) -> Fixed {
    Fixed { v: units }
}

fn setup_model() -> rustml::nn_struct::NeuralNetwork {
    init(&vec![3, 2, 1])
}

#[test]
fn init_pmc() {
    let model = setup_model();
    assert_eq!(model.neurons_per_layer, vec![3, 2, 1]);
}

#[test]
fn init_weight() {
    let model = setup_model();
    assert_eq!(model.num_layers, 3);
    assert!(model.weights[0].is_empty());
    assert_eq!(model.weights[1].len(), 4);
    for neuron_weights in &model.weights[1] {
        assert_eq!(neuron_weights.len(), 3);
        assert_eq!(neuron_weights[0].v, 0);
        for weight in &neuron_weights[1..] {
            assert!(weight.v >= -1_000_000 && weight.v <= 1_000_000);
        }
    }
    assert_eq!(model.weights[2].len(), 3);
    for neuron_weights in &model.weights[2] {
        assert_eq!(neuron_weights.len(), 2);
        assert_eq!(neuron_weights[0].v, 0);
        for weight in &neuron_weights[1..] {
            assert!(weight.v >= -1_000_000 && weight.v <= 1_000_000);
        }
    }
}

#[test]
fn init_neuron_data() {
    let model = setup_model();
    assert_eq!(model.activations.len(), 3);
    assert_eq!(model.activations[0], vec![fx(1_000_000), fx(0), fx(0), fx(0)]);
    assert_eq!(model.activations[1], vec![fx(1_000_000), fx(0), fx(0)]);
    assert_eq!(model.activations[2], vec![fx(1_000_000), fx(0)]);
}

#[test]
fn init_delta() {
    let model = setup_model();
    assert_eq!(model.deltas.len(), 3);
    assert_eq!(model.deltas[0], vec![fx(0), fx(0), fx(0), fx(0)]);
    assert_eq!(model.deltas[1], vec![fx(0), fx(0), fx(0)]);
    assert_eq!(model.deltas[2], vec![fx(0), fx(0)]);
}

#[test]
fn tester_init_pmc() {
    let model = init(&vec![10, 64, 64, 10]);
    assert_eq!(model.neurons_per_layer, vec![10, 64, 64, 10]);
}

#[test]
fn tester_init_weight() {
    let model = init(&vec![10, 64, 64, 10]);
    assert_eq!(model.num_layers, 4);
    assert!(model.weights[0].is_empty());
    assert_eq!(model.weights[1].len(), 11);
    for neuron_weights in &model.weights[1] {
        assert_eq!(neuron_weights.len(), 65);
        assert_eq!(neuron_weights[0].v, 0);
        for weight in &neuron_weights[1..] {
            assert!(weight.v >= -1_000_000 && weight.v <= 1_000_000);
        }
    }
    assert_eq!(model.weights[2].len(), 65);
    for neuron_weights in &model.weights[2] {
        assert_eq!(neuron_weights.len(), 65);
        assert_eq!(neuron_weights[0].v, 0);
        for weight in &neuron_weights[1..] {
            assert!(weight.v >= -1_000_000 && weight.v <= 1_000_000);
        }
    }
    assert_eq!(model.weights[3].len(), 65);
    for neuron_weights in &model.weights[3] {
        assert_eq!(neuron_weights.len(), 11);
        assert_eq!(neuron_weights[0].v, 0);
        for weight in &neuron_weights[1..] {
            assert!(weight.v >= -1_000_000 && weight.v <= 1_000_000);
        }
    }
}

#[test]
fn tester_init_neuron_data() {
    let model = init(&vec![10, 64, 64, 10]);
    assert_eq!(model.activations.len(), 4);
    let widths = [11usize, 65, 65, 11];
    for layer in 0..4 {
        assert_eq!(model.activations[layer].len(), widths[layer]);
        assert_eq!(model.activations[layer][0].v, 1_000_000);
        for i in 1..widths[layer] {
            assert_eq!(model.activations[layer][i].v, 0);
        }
    }
}

#[test]
fn tester_init_delta() {
    let model = init(&vec![10, 64, 64, 10]);
    assert_eq!(model.deltas.len(), 4);
    for layer in &model.deltas {
        for d in layer {
            assert_eq!(d.v, 0);
        }
    }
}

#[test]
fn propagate_computes_known_values() {
    // A 1-2-1 network with hand-set weights: hidden = relu(w * x),
    // output = linear combination of the hidden units.
    let mut model = init(&vec![1, 2, 1]);
    // weights[1]: rows (bias row 0, input 1), columns (bias col 0, h1, h2)
    model.weights[1][0] = vec![fx(0), fx(0), fx(0)];
    model.weights[1][1] = vec![fx(0), fx(500_000), fx(-500_000)];
    // weights[2]: rows (bias, h1, h2), columns (bias col 0, out)
    model.weights[2][0] = vec![fx(0), fx(250_000)];
    model.weights[2][1] = vec![fx(0), fx(1_000_000)];
    model.weights[2][2] = vec![fx(0), fx(1_000_000)];
    propagate(&mut model, &vec![fx(2_000_000)]);
    // h1 = relu(0.5 * 2) = 1.0, h2 = relu(-0.5 * 2) = 0
    assert_eq!(model.activations[1][1].v, 1_000_000);
    assert_eq!(model.activations[1][2].v, 0);
    // out = 0.25 * bias(1.0) + 1.0 * h1 + 1.0 * h2 = 1.25
    assert_eq!(model.activations[2][1].v, 1_250_000);
}

#[test]
fn predict_leaves_the_network_untouched() {
    let model = init(&vec![2, 2, 2]);
    let before = model.activations.clone();
    let out = predict(&model, &vec![fx(300_000), fx(-300_000)]);
    assert_eq!(out.len(), 2);
    assert_eq!(model.activations, before);
}

#[test]
fn one_step_train_sets_output_deltas_to_errors() {
    let mut model = init(&vec![1, 2, 1]);
    propagate(&mut model, &vec![fx(1_000_000)]);
    let predicted = model.activations[2][1];
    one_step_train_pmc2(&mut model, &vec![fx(1_000_000)], &vec![fx(2_000_000)], fx(10_000));
    let expected = predicted.v - 2_000_000;
    assert_eq!(model.deltas[2][1].v, expected);
}

#[test]
fn train_pmc_model_runs() {
    let mut model = init(&vec![2, 3, 1]);
    let inputs = vec![vec![fx(0), fx(0)], vec![fx(1_000_000), fx(1_000_000)]];
    let outputs = vec![vec![fx(0)], vec![fx(1_000_000)]];
    train_pmc_model(&mut model, &inputs, &outputs, &Vec::new(), &Vec::new(), fx(10_000), 20);
    assert_eq!(model.neurons_per_layer, vec![2, 3, 1]);
}

#[test]
fn is_init() {
    let agent = init_dql(4, 3, fx(10_000), fx(900_000), fx(1_000_000), fx(10_000), fx(995_000));
    assert_eq!(agent.state_size, 4);
    assert_eq!(agent.action_size, 3);
    assert_eq!(agent.neural_network.neurons_per_layer, vec![4, 64, 64, 3]);
}

#[test]
fn is_ca() {
    let mut agent = init_dql(2, 3, fx(10_000), fx(900_000), fx(0), fx(0), fx(995_000));
    let action = choose_action(&mut agent, &vec![fx(100_000), fx(-100_000)], &vec![0, 1, 2]);
    assert!(action < 3);
}

#[test]
fn is_update_epsi() {
    // From epsilon = 1.0 with floor 0.01 and decay 0.995 the rate
    // falls strictly until it pins at exactly 0.01.
    let mut agent = init_dql(2, 2, fx(10_000), fx(900_000), fx(1_000_000), fx(10_000), fx(995_000));
    update_epsilon(&mut agent);
    assert_eq!(agent.epsilon.v, 995_000);
    update_epsilon(&mut agent);
    assert_eq!(agent.epsilon.v, 990_025);
    let mut last = agent.epsilon.v;
    for _ in 0..2_000 {
        update_epsilon(&mut agent);
        assert!(agent.epsilon.v >= 10_000);
        assert!(agent.epsilon.v <= last);
        last = agent.epsilon.v;
    }
    assert_eq!(agent.epsilon.v, 10_000);
    update_epsilon(&mut agent);
    assert_eq!(agent.epsilon.v, 10_000);
}

#[test]
fn is_train() {
    let mut agent = init_dql(2, 2, fx(10_000), fx(900_000), fx(500_000), fx(10_000), fx(995_000));
    learn_dql(
        &mut agent,
        &vec![fx(100_000), fx(200_000)],
        1,
        fx(1_000_000),
        &vec![fx(150_000), fx(250_000)],
        false,
    );
    assert_eq!(agent.state_size, 2);
}

#[test]
fn is_prediction() {
    let agent = init_dql(2, 3, fx(10_000), fx(900_000), fx(500_000), fx(10_000), fx(995_000));
    let out = predict(&agent.neural_network, &vec![fx(100_000), fx(200_000)]);
    assert_eq!(out.len(), 3);
}
