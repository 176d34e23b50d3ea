//! The kernel template engine: turns a parameterized shader-source template
//! into concrete device-executable source by textual substitution.
//!
//! A template is plain shader text holding marker tokens for the operator
//! symbol (or named function), the operand rank minus one (the iteration
//! bound of the kernel's index-decomposition loop), and each operand's
//! integer element offset.  The engine substitutes text for each marker and
//! performs no compilation itself.

use vstd::prelude::*;

verus! {

/// The result of replacing every non-overlapping occurrence of `pat` in `s`
/// with `rep`, scanning left to right, for a non-empty pattern.
pub open spec fn replace_spec(s: Seq<char>, pat: Seq<char>, rep: Seq<char>) -> Seq<char>
    decreases s.len(),
{
    if pat.len() == 0 || s.len() < pat.len() {
        s
    } else if s.take(pat.len() as int) == pat {
        rep + replace_spec(s.skip(pat.len() as int), pat, rep)
    } else {
        seq![s[0]] + replace_spec(s.skip(1), pat, rep)
    }
}

/// Relies on `str::replace`: every non-overlapping occurrence of the pattern,
/// found left to right, is replaced by the replacement text.
#[verifier::external_body]
pub fn replace_text(s: &str, pat: &str, rep: &str) -> (r: String)
    requires
        pat@.len() >= 1,
    ensures
        r@ == replace_spec(s@, pat@, rep@),
{
    s.replace(pat, rep)
}

/// The decimal digit character for `d`.
pub open spec fn digit_char(d: int) -> char {
    if d == 0 {
        '0'
    } else if d == 1 {
        '1'
    } else if d == 2 {
        '2'
    } else if d == 3 {
        '3'
    } else if d == 4 {
        '4'
    } else if d == 5 {
        '5'
    } else if d == 6 {
        '6'
    } else if d == 7 {
        '7'
    } else if d == 8 {
        '8'
    } else {
        '9'
    }
}

/// The decimal rendering of a nonnegative integer, most significant digit
/// first, without sign or leading zeros.
pub open spec fn decimal_spec(n: int) -> Seq<char>
    decreases n,
{
    if n < 0 {
        Seq::empty()
    } else if n < 10 {
        seq![digit_char(n)]
    } else {
        decimal_spec(n / 10).push(digit_char(n % 10))
    }
}

/// The one-character text of a decimal digit.
fn digit_text(d: usize) -> (r: &'static str)
    requires
        d < 10,
    ensures
        r@ == seq![digit_char(d as int)],
{
    if d == 0 {
        proof { reveal_strlit("0"); }
        let r = "0";
        proof { assert(r@ =~= seq![digit_char(0)]); }
        r
    } else if d == 1 {
        proof { reveal_strlit("1"); }
        let r = "1";
        proof { assert(r@ =~= seq![digit_char(1)]); }
        r
    } else if d == 2 {
        proof { reveal_strlit("2"); }
        let r = "2";
        proof { assert(r@ =~= seq![digit_char(2)]); }
        r
    } else if d == 3 {
        proof { reveal_strlit("3"); }
        let r = "3";
        proof { assert(r@ =~= seq![digit_char(3)]); }
        r
    } else if d == 4 {
        proof { reveal_strlit("4"); }
        let r = "4";
        proof { assert(r@ =~= seq![digit_char(4)]); }
        r
    } else if d == 5 {
        proof { reveal_strlit("5"); }
        let r = "5";
        proof { assert(r@ =~= seq![digit_char(5)]); }
        r
    } else if d == 6 {
        proof { reveal_strlit("6"); }
        let r = "6";
        proof { assert(r@ =~= seq![digit_char(6)]); }
        r
    } else if d == 7 {
        proof { reveal_strlit("7"); }
        let r = "7";
        proof { assert(r@ =~= seq![digit_char(7)]); }
        r
    } else if d == 8 {
        proof { reveal_strlit("8"); }
        let r = "8";
        proof { assert(r@ =~= seq![digit_char(8)]); }
        r
    } else {
        proof { reveal_strlit("9"); }
        let r = "9";
        proof { assert(r@ =~= seq![digit_char(9)]); }
        r
    }
}

/// The decimal text of `n`.
pub fn decimal_text(n: usize) -> (r: String)
    ensures
        r@ == decimal_spec(n as int),
    decreases n,
{
    let mut r: String;
    if n >= 10 {
        proof {
            vstd::arithmetic::div_mod::lemma_div_is_strictly_smaller(n as int, 10);
        }
        r = decimal_text(n / 10);
    } else {
        r = String::new();
    }
    let digit = digit_text(n % 10);
    r.append(digit);
    proof {
        if n >= 10 {
            assert(r@ =~= decimal_spec((n as int) / 10).push(digit_char((n as int) % 10)));
        } else {
            assert(r@ =~= seq![digit_char(n as int)]);
        }
    }
    r
}

/// Render a binary elementwise kernel: substitute the operator symbol, the
/// rank minus one, and both operands' element offsets into the template.
pub fn render_elementwise(
    template: &str,
    operator: &str,
    rank: usize,
    lhs_offset: usize,
    rhs_offset: usize,
) -> (r: String)
    requires
        rank >= 1,
    ensures
        r@ == replace_spec(
            replace_spec(
                replace_spec(
                    replace_spec(template@, "$op"@, operator@),
                    "$ndim"@,
                    decimal_spec(rank - 1),
                ),
                "$lhs_offset"@,
                decimal_spec(lhs_offset as int),
            ),
            "$rhs_offset"@,
            decimal_spec(rhs_offset as int),
        ),
{
    proof {
        reveal_strlit("$op");
        reveal_strlit("$ndim");
        reveal_strlit("$lhs_offset");
        reveal_strlit("$rhs_offset");
    }
    let s1 = replace_text(template, "$op", operator);
    let ndim = decimal_text(rank - 1);
    let s2 = replace_text(s1.as_str(), "$ndim", ndim.as_str());
    let lhs = decimal_text(lhs_offset);
    let s3 = replace_text(s2.as_str(), "$lhs_offset", lhs.as_str());
    let rhs = decimal_text(rhs_offset);
    replace_text(s3.as_str(), "$rhs_offset", rhs.as_str())
}

/// Render a binary scalar kernel: substitute the operation statement first
/// (its text may itself hold markers), then the operator symbol, the rank
/// minus one, and the left operand's element offset.
pub fn render_scalar(
    template: &str,
    operation: &str,
    operator: &str,
    rank: usize,
    lhs_offset: usize,
) -> (r: String)
    requires
        rank >= 1,
    ensures
        r@ == replace_spec(
            replace_spec(
                replace_spec(
                    replace_spec(template@, "$operation"@, operation@),
                    "$op"@,
                    operator@,
                ),
                "$ndim"@,
                decimal_spec(rank - 1),
            ),
            "$lhs_offset"@,
            decimal_spec(lhs_offset as int),
        ),
{
    proof {
        reveal_strlit("$operation");
        reveal_strlit("$op");
        reveal_strlit("$ndim");
        reveal_strlit("$lhs_offset");
    }
    let s1 = replace_text(template, "$operation", operation);
    let s2 = replace_text(s1.as_str(), "$op", operator);
    let ndim = decimal_text(rank - 1);
    let s3 = replace_text(s2.as_str(), "$ndim", ndim.as_str());
    let lhs = decimal_text(lhs_offset);
    replace_text(s3.as_str(), "$lhs_offset", lhs.as_str())
}

} // verus!
