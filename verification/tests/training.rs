//! Training: the driver, convergence scenarios, and a gradient check of
//! the convolutional backward pass.

use stacknet::activation::Act;
use stacknet::convolution::{ConvGeom, ConvolutionalLayer};
use stacknet::fixed::ONE;
use stacknet::layers::{InnerLayer, Layer, OutputLayer};

fn fx(x: f32) -> i64 {
    (x * 65536.0) as i64
}

fn to_f(v: i64) -> f64 {
    v as f64 / 65536.0
}

#[test]
fn teach_reports_one_average_loss_per_epoch() {
    let mut net = Layer::Output(OutputLayer::new(Act::Sigmoid, 2, 1));
    let lesson: Vec<(Vec<i64>, Vec<i64>)> = vec![
        (vec![0, 0], vec![0]),
        (vec![0, ONE], vec![ONE]),
    ];
    let losses = net.teach(&lesson, 50);
    assert_eq!(losses.len(), 50);
    for l in &losses {
        assert!(*l >= 0);
    }
}

#[test]
fn linear_mapping_is_learned_by_a_single_dense_layer() {
    let mut net = Layer::Output(OutputLayer::new(Act::ReLu, 1, 1));
    let lesson: Vec<(Vec<i64>, Vec<i64>)> = (1..5)
        .map(|i| {
            (
                vec![fx(i as f32 / 100.0)],
                vec![fx(2.0 * i as f32 / 100.0)],
            )
        })
        .collect();
    let losses = net.teach(&lesson, 4000);
    assert!(
        losses[losses.len() - 1] <= losses[0],
        "average loss must not grow over the run: {} -> {}",
        losses[0],
        losses[losses.len() - 1]
    );
    for (input, target) in &lesson {
        let out = net.calculate(input);
        let diff = (out[0] - target[0]).abs();
        assert!(
            diff < fx(0.02),
            "output {} too far from target {}",
            out[0],
            target[0]
        );
    }
}

#[test]
fn logical_or_is_learned_by_one_sigmoid_layer() {
    let mut net = Layer::Output(OutputLayer::new(Act::Sigmoid, 2, 1));
    let lesson: Vec<(Vec<i64>, Vec<i64>)> = vec![
        (vec![0, 0], vec![0]),
        (vec![0, ONE], vec![ONE]),
        (vec![ONE, 0], vec![ONE]),
        (vec![ONE, ONE], vec![ONE]),
    ];
    net.teach(&lesson, 1000);
    let half = ONE / 2;
    assert!(net.calculate(&vec![0, 0])[0] < half);
    assert!(net.calculate(&vec![0, ONE])[0] > half);
    assert!(net.calculate(&vec![ONE, 0])[0] > half);
    assert!(net.calculate(&vec![ONE, ONE])[0] > half);
}

#[test]
fn stacked_dense_layers_train_through_the_chain() {
    let terminal = OutputLayer::new(Act::Sigmoid, 3, 1);
    let inner = InnerLayer::push(Layer::Output(terminal), Act::ReLu, 2, 3).unwrap();
    let mut net = Layer::Inner(inner);
    let lesson: Vec<(Vec<i64>, Vec<i64>)> = vec![
        (vec![0, 0], vec![0]),
        (vec![0, ONE], vec![ONE]),
        (vec![ONE, 0], vec![ONE]),
        (vec![ONE, ONE], vec![ONE]),
    ];
    let losses = net.teach(&lesson, 500);
    assert_eq!(losses.len(), 500);
    assert!(
        losses[499] < losses[0],
        "training a stacked net must reduce the loss: {} -> {}",
        losses[0],
        losses[499]
    );
}

fn conv_net_with(w00: i64) -> Layer {
    let mut terminal = OutputLayer::new(Act::Sigmoid, 4, 1);
    terminal
        .set_params(
            vec![vec![fx(0.2), fx(-0.1), fx(0.15), fx(0.05)]],
            vec![fx(0.1)],
        )
        .unwrap();
    let geom = ConvGeom {
        width: 3,
        height: 3,
        depth: 1,
        filter_w: 2,
        filter_h: 2,
        filters: 1,
        stride: 1,
    };
    let mut cl =
        ConvolutionalLayer::push(Layer::Output(terminal), Act::Sigmoid, geom).unwrap();
    cl.filters = vec![vec![w00, fx(-0.25), fx(0.3), fx(0.1)]];
    cl.bias = vec![0, 0, 0, 0];
    Layer::Conv(cl)
}

fn conv_input() -> Vec<i64> {
    vec![
        fx(0.3),
        fx(0.8),
        fx(0.5),
        fx(0.6),
        fx(0.4),
        fx(0.9),
        fx(0.2),
        fx(0.7),
        fx(0.35),
    ]
}

fn half_squared_error(net: &Layer, input: &Vec<i64>, target: f64) -> f64 {
    let out = net.calculate(input);
    let o = to_f(out[0]);
    0.5 * (target - o) * (target - o)
}

#[test]
fn conv_filter_gradient_matches_numeric_derivative() {
    let base: i64 = fx(0.5);
    let input = conv_input();
    let target = 0.8f64;
    // Analytic gradient: one backprop step at unit rate; the filter
    // update is the accumulated delta-input correlation.
    let mut net = conv_net_with(base);
    net.backprop(&input, &vec![fx(target as f32)], ONE);
    let w_after = match &net {
        Layer::Conv(cl) => cl.filters[0][0],
        _ => unreachable!(),
    };
    let analytic = -to_f(w_after - base);
    // Numeric gradient: central difference of the loss.
    let h: i64 = fx(0.1);
    let e_plus = half_squared_error(&conv_net_with(base + h), &input, target);
    let e_minus = half_squared_error(&conv_net_with(base - h), &input, target);
    let numeric = (e_plus - e_minus) / (2.0 * to_f(h));
    let tolerance = 0.3 * analytic.abs().max(0.05);
    assert!(
        (numeric - analytic).abs() <= tolerance,
        "numeric {numeric} vs analytic {analytic}"
    );
}

#[test]
fn conv_backprop_reduces_the_error() {
    let mut net = conv_net_with(fx(0.5));
    let input = conv_input();
    let target: Vec<i64> = vec![fx(0.8)];
    let before = (net.calculate(&input)[0] - target[0]).abs();
    for _ in 0..300 {
        net.backprop(&input, &target, fx(0.8));
    }
    let after = (net.calculate(&input)[0] - target[0]).abs();
    assert!(after < before);
    assert!(after < fx(0.05));
}
