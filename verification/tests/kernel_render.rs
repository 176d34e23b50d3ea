//! The kernel template engine's textual substitution and the operator table.

use wgpu_array::dispatch::{BinaryOperator, ScalarOperator};
use wgpu_array::kernel::{decimal_text, render_elementwise, render_scalar, replace_text};

#[test]
fn render_elementwise_substitutes_all_markers() {
    let template = "out[i] = l[$lhs_offset + li] $op r[$rhs_offset + ri]; // rank-1 = $ndim";
    let source = render_elementwise(template, "+", 3, 5, 7);
    assert_eq!(source, "out[i] = l[5 + li] + r[7 + ri]; // rank-1 = 2");
}

#[test]
fn render_scalar_substitutes_operation_first() {
    // The operation statement is substituted before the other markers, so the
    // markers inside its own text are filled in too.
    let template = "fn main() { $operation } // rank-1 = $ndim";
    let operation = "result.data[id] = $op(lhs.data[$lhs_offset + lhs_id], scalar);";
    let source = render_scalar(template, operation, "pow", 2, 9);
    assert_eq!(source, "fn main() { result.data[id] = pow(lhs.data[9 + lhs_id], scalar); } // rank-1 = 1");
}

#[test]
fn replace_text_replaces_every_occurrence() {
    assert_eq!(replace_text("a$x b$x c", "$x", "1"), "a1 b1 c");
    assert_eq!(replace_text("no markers", "$x", "1"), "no markers");
}

#[test]
fn operator_symbols() {
    assert_eq!(BinaryOperator::Add.symbol(), "+");
    assert_eq!(BinaryOperator::Sub.symbol(), "-");
    assert_eq!(BinaryOperator::Mul.symbol(), "*");
    assert_eq!(BinaryOperator::Div.symbol(), "/");
    assert_eq!(ScalarOperator::Add.symbol(), "+");
    assert_eq!(ScalarOperator::Sub.symbol(), "-");
    assert_eq!(ScalarOperator::Mul.symbol(), "*");
    assert_eq!(ScalarOperator::Div.symbol(), "/");
    assert_eq!(ScalarOperator::Pow.symbol(), "pow");
}

#[test]
fn decimal_text_renders_digits() {
    assert_eq!(decimal_text(0), "0");
    assert_eq!(decimal_text(7), "7");
    assert_eq!(decimal_text(10), "10");
    assert_eq!(decimal_text(1234567890), "1234567890");
}
