//! Network assembly, tensor widths, configuration errors, and the
//! initialization ranges.

use stacknet::activation::Act;
use stacknet::convolution::{ConvGeom, ConvolutionalLayer};
use stacknet::fixed::ONE;
use stacknet::layers::{loss, ConfigError, InnerLayer, Layer, OutputLayer};
use stacknet::loss::Linear;
use stacknet::prelude::SoftMaxLayer;

fn fx(x: f32) -> i64 {
    (x * 65536.0) as i64
}

#[test]
fn calculate_width_matches_declared_output() {
    let terminal = OutputLayer::new(Act::Sigmoid, 3, 2);
    let inner = InnerLayer::push(Layer::Output(terminal), Act::ReLu, 5, 3).unwrap();
    let net = Layer::Inner(inner);
    assert_eq!(net.in_width(), 5);
    assert_eq!(net.out_width(), 2);
    let out = net.calculate(&vec![fx(0.1), fx(0.2), fx(0.3), fx(0.4), fx(0.5)]);
    assert_eq!(out.len(), 2);
}

#[test]
fn mismatched_junction_is_rejected_before_any_computation() {
    let terminal = OutputLayer::new(Act::Sigmoid, 3, 2);
    let r = InnerLayer::push(Layer::Output(terminal), Act::ReLu, 5, 4);
    assert!(matches!(r, Err(ConfigError::JunctionMismatch)));
}

#[test]
fn conv_output_size_follows_the_window_formula() {
    // 4x4 input, 2x2 filter, stride 1: 3x3 positions per filter.
    let geom = ConvGeom {
        width: 4,
        height: 4,
        depth: 1,
        filter_w: 2,
        filter_h: 2,
        filters: 2,
        stride: 1,
    };
    let terminal = OutputLayer::new(Act::ReLu, 18, 1);
    let cl = ConvolutionalLayer::push(Layer::Output(terminal), Act::ReLu, geom).unwrap();
    let net = Layer::Conv(cl);
    assert_eq!(net.in_width(), 16);
    let input: Vec<i64> = (0..16).map(|i| fx(0.05 * i as f32)).collect();
    let out = net.calculate(&input);
    assert_eq!(out.len(), 1);
}

#[test]
fn conv_output_size_with_stride_two() {
    // 4x4 input, 2x2 filter, stride 2: 2x2 positions per filter.
    let geom = ConvGeom {
        width: 4,
        height: 4,
        depth: 1,
        filter_w: 2,
        filter_h: 2,
        filters: 2,
        stride: 2,
    };
    let terminal = OutputLayer::new(Act::ReLu, 8, 3);
    let cl = ConvolutionalLayer::push(Layer::Output(terminal), Act::ReLu, geom).unwrap();
    let net = Layer::Conv(cl);
    assert_eq!(net.in_width(), 16);
    assert_eq!(net.out_width(), 3);
}

#[test]
fn conv_filter_larger_than_input_is_rejected() {
    let geom = ConvGeom {
        width: 4,
        height: 4,
        depth: 1,
        filter_w: 5,
        filter_h: 5,
        filters: 1,
        stride: 1,
    };
    let terminal = OutputLayer::new(Act::ReLu, 1, 1);
    let r = ConvolutionalLayer::push(Layer::Output(terminal), Act::ReLu, geom);
    assert!(matches!(r, Err(ConfigError::BadGeometry)));
}

#[test]
fn conv_stride_that_does_not_tile_is_rejected() {
    let geom = ConvGeom {
        width: 4,
        height: 4,
        depth: 1,
        filter_w: 2,
        filter_h: 2,
        filters: 1,
        stride: 3,
    };
    let terminal = OutputLayer::new(Act::ReLu, 1, 1);
    let r = ConvolutionalLayer::push(Layer::Output(terminal), Act::ReLu, geom);
    assert!(matches!(r, Err(ConfigError::BadGeometry)));
}

#[test]
fn conv_junction_mismatch_is_rejected() {
    let geom = ConvGeom {
        width: 4,
        height: 4,
        depth: 1,
        filter_w: 2,
        filter_h: 2,
        filters: 2,
        stride: 1,
    };
    let terminal = OutputLayer::new(Act::ReLu, 17, 1);
    let r = ConvolutionalLayer::push(Layer::Output(terminal), Act::ReLu, geom);
    assert!(matches!(r, Err(ConfigError::JunctionMismatch)));
}

#[test]
fn conv_forward_windows_are_laid_out_row_major() {
    // 3x3 input, one 2x2 identity-diagonal filter, stride 1, zero bias:
    // each output position is the sum of the window's two diagonal cells.
    let geom = ConvGeom {
        width: 3,
        height: 3,
        depth: 1,
        filter_w: 2,
        filter_h: 2,
        filters: 1,
        stride: 1,
    };
    let terminal = OutputLayer::new(Act::ReLu, 4, 1);
    let mut cl = ConvolutionalLayer::push(Layer::Output(terminal), Act::ReLu, geom).unwrap();
    cl.filters = vec![vec![ONE, 0, 0, ONE]];
    cl.bias = vec![0, 0, 0, 0];
    let net = Layer::Conv(cl);
    let input: Vec<i64> = (1..=9).map(|i| fx(0.1) * i).collect();
    let pre = net.weight(&input);
    // Window at (r, c) covers inputs (r, c) and (r + 1, c + 1).
    let v = fx(0.1);
    assert_eq!(pre, vec![v * (1 + 5), v * (2 + 6), v * (4 + 8), v * (5 + 9)]);
}

#[test]
fn calculate_is_weight_then_step_for_a_terminal_layer() {
    let net = Layer::Output(OutputLayer::new(Act::Sigmoid, 3, 2));
    let input: Vec<i64> = vec![fx(0.25), fx(-0.5), fx(0.75)];
    let pre = net.weight(&input);
    assert_eq!(net.step(&pre), net.calculate(&input));
}

#[test]
fn dense_initialization_stays_in_documented_ranges() {
    let layer = OutputLayer::new(Act::Sigmoid, 7, 5);
    for row in layer.get_weights() {
        assert_eq!(row.len(), 7);
        for w in row {
            assert!(-ONE <= w && w <= ONE);
        }
    }
    for b in layer.get_bias() {
        assert!(-6553 <= b && b <= 6553);
    }
}

#[test]
fn softmax_initialization_stays_in_documented_ranges() {
    let layer = SoftMaxLayer::new(6, 4);
    for row in layer.get_weights() {
        assert_eq!(row.len(), 6);
        for w in row {
            assert!(-ONE <= w && w <= ONE);
        }
    }
    for b in layer.get_bias() {
        assert!(-6553 <= b && b <= 6553);
    }
}

#[test]
fn conv_initialization_stays_in_documented_ranges() {
    let geom = ConvGeom {
        width: 4,
        height: 4,
        depth: 2,
        filter_w: 2,
        filter_h: 2,
        filters: 3,
        stride: 1,
    };
    let terminal = OutputLayer::new(Act::ReLu, 27, 1);
    let cl = ConvolutionalLayer::push(Layer::Output(terminal), Act::ReLu, geom).unwrap();
    assert_eq!(cl.filters.len(), 3);
    for filt in &cl.filters {
        assert_eq!(filt.len(), 8);
        for &w in filt {
            assert!(-ONE <= w && w <= ONE);
        }
    }
    assert_eq!(cl.bias.len(), 27);
    for &b in &cl.bias {
        assert!(-32768 <= b && b <= 32768);
    }
}

#[test]
fn repeated_construction_draws_different_parameters() {
    let a = OutputLayer::new(Act::Sigmoid, 8, 8);
    let b = OutputLayer::new(Act::Sigmoid, 8, 8);
    assert_ne!(a.get_weights(), b.get_weights());
}

#[test]
fn terminal_error_is_target_minus_output() {
    let layer = OutputLayer::new(Act::ReLu, 1, 2);
    let output: Vec<i64> = vec![fx(0.5), fx(1.5)];
    let target: Vec<i64> = vec![fx(1.0), fx(1.0)];
    let (own, fin) = layer._get_error(&output, &target);
    assert_eq!(own, vec![fx(0.5), fx(-0.5)]);
    assert_eq!(fin, vec![fx(0.5), fx(-0.5)]);
}

#[test]
fn linear_loss_overwrites_prediction_with_error() {
    let mut prediction: Vec<i64> = vec![fx(1.0), fx(2.0)];
    let reality: Vec<i64> = vec![fx(3.0), fx(1.0)];
    Linear::loss(&mut prediction, &reality);
    assert_eq!(prediction, vec![fx(2.0), fx(-1.0)]);
}

#[test]
fn loss_is_the_euclidean_norm() {
    assert_eq!(loss(&vec![fx(3.0), fx(4.0)]), fx(5.0));
    assert_eq!(loss(&vec![0, 0, 0]), 0);
}

#[test]
fn set_params_restores_a_persisted_state() {
    let mut layer = OutputLayer::new(Act::ReLu, 2, 1);
    layer
        .set_params(vec![vec![fx(2.0), fx(-1.0)]], vec![fx(0.5)])
        .unwrap();
    assert_eq!(layer.get_weights(), vec![vec![fx(2.0), fx(-1.0)]]);
    assert_eq!(layer.get_bias(), vec![fx(0.5)]);
    // 2 * 1 - 1 * 2 + 0.5 = 0.5, through the rectifier.
    let out = layer.calculate(&vec![fx(1.0), fx(2.0)]);
    assert_eq!(out, vec![fx(0.5)]);
}

#[test]
fn set_params_rejects_a_malformed_state() {
    let mut layer = OutputLayer::new(Act::ReLu, 2, 1);
    let r = layer.set_params(vec![vec![fx(2.0)], vec![fx(1.0), fx(3.0)]], vec![0, 0]);
    assert!(matches!(r, Err(ConfigError::BadGeometry)));
    let r2 = layer.set_params(vec![], vec![]);
    assert!(matches!(r2, Err(ConfigError::BadGeometry)));
}
