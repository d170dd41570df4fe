//! Properties of the softmax terminal layer's normalization step.

use stacknet::fixed::ONE;
use stacknet::prelude::SoftMaxLayer;

fn fx(x: f32) -> i64 {
    (x * 65536.0) as i64
}

#[test]
fn softmax_output_sums_to_one_within_tolerance() {
    let layer = SoftMaxLayer::new(3, 4);
    let cases: Vec<Vec<i64>> = vec![
        vec![fx(0.1), fx(-2.0), fx(3.5), fx(0.0)],
        vec![fx(1.0), fx(1.0), fx(1.0), fx(1.0)],
        vec![fx(-30.0), fx(0.0), fx(0.25), fx(40.0)],
        vec![0, 0, 0, 0],
    ];
    for pre in cases {
        let out = layer.step(&pre);
        let sum: i64 = out.iter().sum();
        let n = pre.len() as i64;
        assert!(ONE - n <= sum && sum <= ONE, "sum was {sum}");
    }
}

#[test]
fn softmax_is_invariant_to_a_constant_shift() {
    let layer = SoftMaxLayer::new(3, 4);
    let pre: Vec<i64> = vec![fx(0.3), fx(-1.2), fx(2.0), fx(0.75)];
    let c = fx(5.0);
    let shifted: Vec<i64> = pre.iter().map(|v| v + c).collect();
    assert_eq!(layer.step(&pre), layer.step(&shifted));
    let c2 = fx(-3.25);
    let shifted2: Vec<i64> = pre.iter().map(|v| v + c2).collect();
    assert_eq!(layer.step(&pre), layer.step(&shifted2));
}

#[test]
fn softmax_favors_the_largest_input() {
    let layer = SoftMaxLayer::new(2, 3);
    let out = layer.step(&vec![fx(0.0), fx(2.0), fx(-1.0)]);
    assert!(out[1] > out[0]);
    assert!(out[0] > out[2]);
}

#[test]
fn softmax_training_pulls_output_toward_the_target() {
    let mut layer = SoftMaxLayer::new(2, 2);
    layer
        .set_params(
            vec![vec![fx(0.5), fx(-0.5)], vec![fx(-0.25), fx(0.25)]],
            vec![0, 0],
        )
        .unwrap();
    let input: Vec<i64> = vec![fx(0.8), fx(0.2)];
    let target: Vec<i64> = vec![ONE, 0];
    let before = layer.calculate(&input);
    for _ in 0..200 {
        layer.backprop(&input, &target, fx(0.5));
    }
    let after = layer.calculate(&input);
    assert!(after[0] > before[0], "training must raise the target class");
    assert!(after[0] > after[1]);
}
