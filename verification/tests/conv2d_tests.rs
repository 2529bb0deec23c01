use ternary_conv::{
    conv2d, conv2d_dilated, depthwise_separable_conv2d, kernel_blur, kernel_edge_detect,
    kernel_emboss, kernel_identity, kernel_sharpen, TernaryMatrix,
};

fn cells(m: &TernaryMatrix) -> Vec<i8> {
    let mut v = Vec::new();
    for r in 0..m.rows() {
        for c in 0..m.cols() {
            v.push(m.get(r, c));
        }
    }
    v
}

#[test]
fn test_conv2d_identity_kernel() {
    let input = TernaryMatrix::from_vec(3, 3, vec![
        1, -1, 0,
        0, 1, -1,
        -1, 0, 1,
    ]);
    let kernel = kernel_identity();
    let out = conv2d(&input, &kernel);
    assert_eq!(out, input, "1×1 identity kernel should preserve input");
}

#[test]
fn test_conv2d_edge_detection() {
    // Create a gradient image: top half -1, bottom half +1
    let input = TernaryMatrix::from_vec(5, 5, vec![
        -1, -1, -1, -1, -1,
        -1, -1, -1, -1, -1,
         0,  0,  0,  0,  0,
         1,  1,  1,  1,  1,
         1,  1,  1,  1,  1,
    ]);
    let edge = conv2d(&input, &kernel_edge_detect());
    assert_eq!(edge.get(0, 2), 1);
    assert_eq!(edge.get(2, 2), -1);
    assert_eq!(edge.get(4, 2), 1);
}

#[test]
fn test_conv2d_dilation_skips() {
    let input = TernaryMatrix::from_vec(5, 5, vec![
        1, 0, 0, 0, 1,
        0, 0, 0, 0, 0,
        0, 0, 1, 0, 0,
        0, 0, 0, 0, 0,
        1, 0, 0, 0, 1,
    ]);
    let kernel = kernel_identity();
    // Dilation 1 = standard
    let out1 = conv2d_dilated(&input, &kernel, 1);
    // With 1×1 kernel, dilation doesn't matter
    assert_eq!(out1, input);
}

#[test]
fn test_conv2d_dilation_2_differs_from_1() {
    let input = TernaryMatrix::from_vec(5, 5, vec![
        1, 0, -1, 0, 1,
        0, 1, 0, -1, 0,
       -1, 0, 1, 0, -1,
        0, -1, 0, 1, 0,
        1, 0, -1, 0, 1,
    ]);
    let kernel = TernaryMatrix::from_vec(3, 3, vec![
        1, 0, 1,
        0, 1, 0,
        1, 0, 1,
    ]);
    let out1 = conv2d_dilated(&input, &kernel, 1);
    let out2 = conv2d_dilated(&input, &kernel, 2);
    assert_ne!(out1, out2, "different dilations should produce different results");
}

#[test]
fn test_depthwise_separable_matches_standard() {
    let input = TernaryMatrix::from_vec(4, 4, vec![
        1, -1, 0, 1,
        0, 1, -1, 0,
        -1, 0, 1, -1,
        1, 1, 0, -1,
    ]);
    let depth_k = kernel_blur();
    let point_k = TernaryMatrix::from_vec(1, 1, vec![1]); // identity pointwise
    let sep = depthwise_separable_conv2d(&input, &depth_k, &point_k);
    let standard = conv2d(&input, &depth_k);
    assert_eq!(sep, standard, "depthwise separable with identity pointwise should match standard");
}

#[test]
fn test_kernel_application_correctness() {
    let input = TernaryMatrix::from_vec(3, 3, vec![
        1, 0, 0,
        0, 1, 0,
        0, 0, 1,
    ]);
    let blur = kernel_blur();
    let out = conv2d(&input, &blur);
    assert_eq!(out.get(1, 1), 0);
    assert_eq!(out.get(0, 0), 0);
}

#[test]
fn test_kernel_emboss() {
    let input = TernaryMatrix::from_vec(3, 3, vec![
        1, 1, 1,
        0, 0, 0,
       -1,-1,-1,
    ]);
    let emboss = kernel_emboss();
    let out = conv2d(&input, &emboss);
    for i in 0..3 {
        for j in 0..3 {
            let v = out.get(i, j);
            assert!(v >= -1 && v <= 1, "output should be ternary, got {v}");
        }
    }
}

#[test]
fn test_kernel_sharpen() {
    let input = TernaryMatrix::from_vec(3, 3, vec![
        0, 0, 0,
        0, 1, 0,
        0, 0, 0,
    ]);
    let sharpen = kernel_sharpen();
    let out = conv2d(&input, &sharpen);
    assert_eq!(out.get(1, 1), 1);
}

#[test]
fn test_all_kernels_are_ternary() {
    for k in [kernel_edge_detect(), kernel_blur(), kernel_sharpen(), kernel_emboss(), kernel_identity()] {
        for v in cells(&k) {
            assert!(v >= -1 && v <= 1, "kernel contains non-ternary value {v}");
        }
    }
}

#[test]
fn test_conv2d_uniform_input() {
    let input = TernaryMatrix::from_vec(3, 3, vec![
        1, 1, 1,
        1, 1, 1,
        1, 1, 1,
    ]);
    let blur = kernel_blur();
    let out = conv2d(&input, &blur);
    assert_eq!(out.get(1, 1), 1);
}

// ---------------------------------------------------------------------------

#[test]
fn predefined_kernels_hold_their_patterns() {
    assert_eq!(kernel_edge_detect(), TernaryMatrix::from_vec(3, 3, vec![1, 1, 1, 0, 0, 0, -1, -1, -1]));
    assert_eq!(kernel_blur(), TernaryMatrix::from_vec(3, 3, vec![0, 1, 0, 1, 0, 1, 0, 1, 0]));
    assert_eq!(kernel_sharpen(), TernaryMatrix::from_vec(3, 3, vec![0, -1, 0, -1, 1, -1, 0, -1, 0]));
    assert_eq!(kernel_emboss(), TernaryMatrix::from_vec(3, 3, vec![-1, -1, 0, -1, 0, 1, 0, 1, 1]));
    assert_eq!(kernel_identity(), TernaryMatrix::from_vec(1, 1, vec![1]));
}

#[test]
fn conv2d_edge_detect_every_cell() {
    let input = TernaryMatrix::from_vec(3, 3, vec![1, -1, 0, 0, 1, -1, -1, 0, 1]);
    let out = conv2d(&input, &kernel_edge_detect());
    assert_eq!(cells(&out), vec![-1, 0, 0, 1, 0, -1, 1, 0, 0]);
}

#[test]
fn conv2d_blur_every_cell_of_a_4x4() {
    let input = TernaryMatrix::from_vec(4, 4, vec![1, -1, 0, 1, 0, 1, -1, 0, -1, 0, 1, -1, 1, 1, 0, -1]);
    let out = conv2d(&input, &kernel_blur());
    assert_eq!(cells(&out), vec![-1, 1, -1, 0, 1, -1, 1, -1, 1, 1, -1, 0, 0, 1, 1, -1]);
}

#[test]
fn conv2d_keeps_a_non_square_shape() {
    let input = TernaryMatrix::from_vec(2, 3, vec![1, 0, -1, -1, 1, 1]);
    let kernel = TernaryMatrix::from_vec(1, 3, vec![1, 1, -1]);
    let out = conv2d(&input, &kernel);
    assert_eq!(out.rows(), 2);
    assert_eq!(out.cols(), 3);
    assert_eq!(cells(&out), vec![1, 1, -1, -1, -1, 1]);
}

#[test]
fn conv2d_of_an_empty_image_is_empty() {
    let input = TernaryMatrix::zeros(0, 0);
    let out = conv2d(&input, &kernel_blur());
    assert_eq!(out, input);
}

#[test]
fn conv2d_dilated_every_cell() {
    let input = TernaryMatrix::from_vec(5, 5, vec![
        1, 0, -1, 0, 1, 0, 1, 0, -1, 0, -1, 0, 1, 0, -1, 0, -1, 0, 1, 0, 1, 0, -1, 0, 1,
    ]);
    let kernel = TernaryMatrix::from_vec(3, 3, vec![1, 0, 1, 0, 1, 0, 1, 0, 1]);
    let out1 = conv2d_dilated(&input, &kernel, 1);
    assert_eq!(out1, conv2d(&input, &kernel));
    assert_eq!(cells(&out1), vec![
        1, 0, -1, 0, 0, 0, 1, 0, -1, 0, -1, 0, 1, 0, -1, 0, -1, 0, 1, 0, 0, 0, -1, 0, 1,
    ]);
    let out2 = conv2d_dilated(&input, &kernel, 2);
    assert_eq!(cells(&out2), vec![
        1, 0, -1, 0, 1, 0, 1, 0, -1, 0, -1, 0, 1, 0, -1, 0, -1, 0, 1, 0, 1, 0, -1, 0, 1,
    ]);
}

#[test]
fn dilated_identity_kernel_ignores_the_dilation() {
    let input = TernaryMatrix::from_vec(3, 3, vec![1, -1, 0, 0, 1, -1, -1, 0, 1]);
    for dilation in 1..5 {
        let out = conv2d_dilated(&input, &kernel_identity(), dilation);
        assert_eq!(out, input);
    }
    let corner = TernaryMatrix::from_vec(3, 3, vec![1, 0, 0, 0, 0, 0, 0, 0, 0]);
    assert_eq!(conv2d_dilated(&corner, &kernel_identity(), 2), corner);
}

#[test]
fn dilated_edge_detect_keeps_the_kernel_centred() {
    let input = TernaryMatrix::from_vec(5, 5, vec![
        -1, -1, -1, -1, -1,
        -1, -1, -1, -1, -1,
         0,  0,  0,  0,  0,
         1,  1,  1,  1,  1,
         1,  1,  1,  1,  1,
    ]);
    // with dilation 2 the kernel rows fall on input rows i - 2, i and i + 2
    let out = conv2d_dilated(&input, &kernel_edge_detect(), 2);
    assert_eq!(cells(&out), vec![
        0, 0, 0, 0, 0,
        -1, -1, -1, -1, -1,
        -1, -1, -1, -1, -1,
        -1, -1, -1, -1, -1,
        0, 0, 0, 0, 0,
    ]);
}

#[test]
fn depthwise_point_kernel_scales_every_cell() {
    let input = TernaryMatrix::from_vec(3, 3, vec![1, -1, 0, 0, 1, -1, -1, 0, 1]);
    let spatial = conv2d(&input, &kernel_edge_detect());
    let negate = TernaryMatrix::from_vec(1, 1, vec![-1]);
    let neg = depthwise_separable_conv2d(&input, &kernel_edge_detect(), &negate);
    let expected: Vec<i8> = cells(&spatial).iter().map(|v| -v).collect();
    assert_eq!(cells(&neg), expected);
    let zero = TernaryMatrix::from_vec(1, 1, vec![0]);
    let z = depthwise_separable_conv2d(&input, &kernel_edge_detect(), &zero);
    assert_eq!(z, TernaryMatrix::zeros(3, 3));
}

fn negated(m: &TernaryMatrix) -> TernaryMatrix {
    TernaryMatrix::from_vec(m.rows(), m.cols(), cells(m).iter().map(|v| -v).collect())
}

#[test]
fn conv2d_negating_input_or_kernel_negates_the_output() {
    let input = TernaryMatrix::from_vec(4, 4, vec![1, -1, 0, 1, 0, 1, -1, 0, -1, 0, 1, -1, 1, 1, 0, -1]);
    let kernel = kernel_emboss();
    let out = conv2d(&input, &kernel);
    assert_eq!(conv2d(&negated(&input), &kernel), negated(&out));
    assert_eq!(conv2d(&input, &negated(&kernel)), negated(&out));
    let dil = conv2d_dilated(&input, &kernel, 2);
    assert_eq!(conv2d_dilated(&negated(&input), &kernel, 2), negated(&dil));
}

#[test]
fn conv2d_on_one_row_is_conv1d() {
    let signal: Vec<i8> = vec![1, 1, -1, 0, 1, -1, 0];
    let kernel: Vec<i8> = vec![1, 0, -1, 1];
    let a = TernaryMatrix::from_vec(1, signal.len(), signal.clone());
    let b = TernaryMatrix::from_vec(1, kernel.len(), kernel.clone());
    let out = conv2d(&a, &b);
    assert_eq!(out.rows(), 1);
    assert_eq!(cells(&out), ternary_conv::conv1d(&signal, &kernel));
}

#[test]
fn clone_keeps_shape_and_cells() {
    let m = TernaryMatrix::from_vec(2, 3, vec![1, 0, -1, -1, 1, 0]);
    let c = m.clone();
    assert_eq!(c, m);
    assert_eq!(conv2d(&c, &kernel_blur()), conv2d(&m, &kernel_blur()));
}
