use ternary_conv::conv1d;

#[test]
fn test_conv1d_basic() {
    let signal = vec![1, 1, -1, 0, 1];
    let kernel = vec![1, 0, -1]; // simple diff
    let out = conv1d(&signal, &kernel);
    assert_eq!(out.len(), signal.len());
    // i=0: signal[-1]=0, signal[0]=1, signal[1]=1 → 0*1 + 1*0 + 1*(-1) = -1
    assert_eq!(out[0], -1);
}

#[test]
fn test_conv1d_identity() {
    let signal = vec![1, -1, 0, 1, -1];
    let kernel = vec![1]; // identity kernel
    let out = conv1d(&signal, &kernel);
    assert_eq!(out, signal);
}

#[test]
fn conv1d_difference_kernel_every_output() {
    let out = conv1d(&[1, 1, -1, 0, 1], &[1, 0, -1]);
    assert_eq!(out, vec![-1, 1, 1, -1, 0]);
}

#[test]
fn conv1d_empty_kernel_gives_zeros() {
    let out = conv1d(&[1, -1, 1, 1], &[]);
    assert_eq!(out, vec![0, 0, 0, 0]);
}

#[test]
fn conv1d_empty_signal_gives_empty_output() {
    let out = conv1d(&[], &[1, 0, -1]);
    assert!(out.is_empty());
}

#[test]
fn conv1d_even_kernel_is_centred_at_half_its_length() {
    let out = conv1d(&[1, 1, 1, 1, 1, 1], &[1, 1, 1, 1]);
    assert_eq!(out, vec![1, 1, 1, 1, 1, 1]);
    // pad = 1: out[i] = s[i - 1] + s[i] with the kernel [1, 1]
    let out = conv1d(&[1, -1, 0, 0], &[1, 1]);
    assert_eq!(out, vec![1, 0, -1, 0]);
}

#[test]
fn conv1d_kernel_element_that_never_meets_the_signal_is_not_read() {
    // signal of length 1, kernel of length 3: only the centre element meets it
    let out = conv1d(&[-1], &[5, 1, 0]);
    assert_eq!(out, vec![-1]);
}

#[test]
fn conv1d_negating_signal_or_kernel_negates_the_output() {
    let signal: Vec<i8> = vec![1, 1, -1, 0, 1, -1];
    let kernel: Vec<i8> = vec![1, 0, -1];
    let neg = |v: &Vec<i8>| v.iter().map(|x| -x).collect::<Vec<i8>>();
    let out = conv1d(&signal, &kernel);
    assert_eq!(conv1d(&neg(&signal), &kernel), neg(&out));
    assert_eq!(conv1d(&signal, &neg(&kernel)), neg(&out));
}
