//! The rendered kernels compile: wgpu's own WGSL front end parses and
//! validates every kernel the dispatcher can produce, so shader-module
//! creation never fails on them.

use naga::valid::{Capabilities, ValidationFlags, Validator};
use wgpu_array::dispatch::{
    elementwise_template, scalar_template, BinaryOperator, ScalarOperator,
};
use wgpu_array::kernel::{render_elementwise, render_scalar};

fn assert_valid_wgsl(source: &str) {
    let module = naga::front::wgsl::parse_str(source).expect("kernel source fails to parse");
    Validator::new(ValidationFlags::all(), Capabilities::empty())
        .validate(&module)
        .expect("kernel source fails validation");
}

#[test]
fn rendered_elementwise_kernels_validate() {
    let ops = [
        BinaryOperator::Add,
        BinaryOperator::Sub,
        BinaryOperator::Mul,
        BinaryOperator::Div,
    ];
    for op in ops {
        for rank in [1usize, 2, 3] {
            let source = render_elementwise(elementwise_template(), op.symbol(), rank, 0, 5);
            assert_valid_wgsl(&source);
        }
    }
}

#[test]
fn rendered_scalar_kernels_validate() {
    let ops = [
        ScalarOperator::Add,
        ScalarOperator::Sub,
        ScalarOperator::Mul,
        ScalarOperator::Div,
        ScalarOperator::Pow,
    ];
    for op in ops {
        for rank in [1usize, 2, 3] {
            let source =
                render_scalar(scalar_template(), op.operation(), op.symbol(), rank, 7);
            assert_valid_wgsl(&source);
        }
    }
}
