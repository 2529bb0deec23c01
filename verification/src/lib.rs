//! Ternary convolution for signals and images whose elements are trits,
//! that is values in {-1, 0, +1}.

pub mod conv;
pub mod kernels;
pub mod laws;
pub mod matrix;
pub mod trit;

pub use conv::{conv1d, conv2d, conv2d_dilated, depthwise_separable_conv2d};
pub use kernels::{kernel_blur, kernel_edge_detect, kernel_emboss, kernel_identity, kernel_sharpen};
pub use matrix::TernaryMatrix;
pub use trit::trit_mul;
