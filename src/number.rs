use vstd::prelude::*;

use crate::host::Host;
use crate::runtime::RuntimeError;

verus! {

/// A number: a 64-bit signed integer, or a binary64 float held as its bit
/// pattern.
#[derive(Debug, Clone, Copy, PartialEq, Eq, Structural)]
pub enum AsonNumber {
    Integer(i64),
    Float(u64),
}

/// The four arithmetic operations.
#[derive(Debug, Clone, Copy, PartialEq, Eq, Structural)]
pub enum ArithOp {
    Add,
    Sub,
    Mul,
    Div,
}

/// The exact integer result of `a op b` for `+`, `-` and `*`.
pub open spec fn int_op(op: ArithOp, a: int, b: int) -> int {
    match op {
        ArithOp::Add => a + b,
        ArithOp::Sub => a - b,
        ArithOp::Mul => a * b,
        ArithOp::Div => 0,
    }
}

pub open spec fn fits_i64(x: int) -> bool {
    i64::MIN <= x <= i64::MAX
}

/// The result of `lhs op rhs` up to the binary64 payload: integer operands
/// give an integer (or overflow) except under division; a float operand, or
/// division, gives a float.
pub enum NumOutcome {
    Int(int),
    Float,
    Overflow,
}

pub open spec fn combine_spec(op: ArithOp, lhs: AsonNumber, rhs: AsonNumber) -> NumOutcome {
    match (lhs, rhs) {
        (AsonNumber::Integer(a), AsonNumber::Integer(b)) => if op == ArithOp::Div {
            NumOutcome::Float
        } else if fits_i64(int_op(op, a as int, b as int)) {
            NumOutcome::Int(int_op(op, a as int, b as int))
        } else {
            NumOutcome::Overflow
        },
        _ => NumOutcome::Float,
    }
}

/// Whether `r` is what `combine_spec` describes.
pub open spec fn matches_outcome(o: NumOutcome, r: Result<AsonNumber, RuntimeError>) -> bool {
    match o {
        NumOutcome::Int(v) => r == Ok::<AsonNumber, RuntimeError>(AsonNumber::Integer(v as i64)),
        NumOutcome::Float => r is Ok && r->Ok_0 is Float,
        NumOutcome::Overflow => r == Err::<AsonNumber, RuntimeError>(RuntimeError::IntegerOverflow),
    }
}

/// The decimal digits of `n`.
pub open spec fn digits(n: nat) -> Seq<char>
    decreases n,
{
    if n < 10 {
        seq![digit_char(n)]
    } else {
        digits(n / 10).push(digit_char(n % 10))
    }
}

pub open spec fn digit_char(d: nat) -> char {
    ((d + ('0' as nat)) as u32) as char
}

/// The decimal text of an integer, with a leading `-` when negative.
pub open spec fn decimal(i: int) -> Seq<char> {
    if i < 0 {
        seq!['-'] + digits((-i) as nat)
    } else {
        digits(i as nat)
    }
}

pub(crate) fn digit_to_char(d: u64) -> (c: char)
    requires
        d < 10,
    ensures
        c == digit_char(d as nat),
{
    if d == 0 {
        '0'
    } else if d == 1 {
        '1'
    } else if d == 2 {
        '2'
    } else if d == 3 {
        '3'
    } else if d == 4 {
        '4'
    } else if d == 5 {
        '5'
    } else if d == 6 {
        '6'
    } else if d == 7 {
        '7'
    } else if d == 8 {
        '8'
    } else {
        '9'
    }
}

/// Appends the decimal digits of `n`.
pub fn push_digits(n: u64, out: &mut Vec<char>)
    ensures
        final(out)@ == old(out)@ + digits(n as nat),
    decreases n,
{
    if n >= 10 {
        push_digits(n / 10, out);
    }
    let c = digit_to_char(n % 10);
    out.push(c);
    proof {
        assert(old(out)@ + digits(n as nat) =~= final(out)@);
    }
}

/// Appends the decimal text of `i`.
pub fn push_decimal(i: i64, out: &mut Vec<char>)
    ensures
        final(out)@ == old(out)@ + decimal(i as int),
{
    if i < 0 {
        out.push('-');
        let m: u64 = if i == i64::MIN {
            9223372036854775808u64
        } else {
            (-i) as u64
        };
        push_digits(m, out);
        proof {
            assert(final(out)@ =~= old(out)@ + decimal(i as int));
        }
    } else {
        push_digits(i as u64, out);
    }
}

/// How `lhs op rhs` is computed: exactly, here, or as the binary64
/// operation that the host carries out on these operands.
#[derive(Debug, Clone, Copy, PartialEq, Eq)]
pub enum ArithStep {
    Exact(Result<AsonNumber, RuntimeError>),
    OnHost(ArithOp, AsonNumber, AsonNumber),
}

pub open spec fn arith_step_spec(op: ArithOp, lhs: AsonNumber, rhs: AsonNumber) -> ArithStep {
    match (lhs, rhs) {
        (AsonNumber::Integer(a), AsonNumber::Integer(b)) => if op == ArithOp::Div {
            ArithStep::OnHost(op, lhs, rhs)
        } else if fits_i64(int_op(op, a as int, b as int)) {
            ArithStep::Exact(Ok(AsonNumber::Integer(int_op(op, a as int, b as int) as i64)))
        } else {
            ArithStep::Exact(Err(RuntimeError::IntegerOverflow))
        },
        _ => ArithStep::OnHost(op, lhs, rhs),
    }
}

/// Decides how `lhs op rhs` is computed: two integers under `+`, `-`, `*`
/// exactly (overflow is an error); anything else by the host, with the same
/// operation and the same operands.
pub fn arith_step(op: ArithOp, lhs: AsonNumber, rhs: AsonNumber) -> (r: ArithStep)
    ensures
        r == arith_step_spec(op, lhs, rhs),
{
    match (lhs, rhs) {
        (AsonNumber::Integer(a), AsonNumber::Integer(b)) => {
            let checked = match op {
                ArithOp::Add => a.checked_add(b),
                ArithOp::Sub => a.checked_sub(b),
                ArithOp::Mul => a.checked_mul(b),
                ArithOp::Div => {
                    return ArithStep::OnHost(op, lhs, rhs);
                },
            };
            match checked {
                Some(v) => ArithStep::Exact(Ok(AsonNumber::Integer(v))),
                None => ArithStep::Exact(Err(RuntimeError::IntegerOverflow)),
            }
        },
        _ => ArithStep::OnHost(op, lhs, rhs),
    }
}

/// A binary64 operation asked of the host, with the answer it gave.
#[derive(Debug, Clone, Copy, PartialEq, Eq, Structural)]
pub struct FloatRequest {
    pub op: ArithOp,
    pub lhs: AsonNumber,
    pub rhs: AsonNumber,
    pub answer: u64,
}

impl AsonNumber {
    /// `self op rhs`, following the numeric tower: two integers give an
    /// integer under `+`, `-`, `*` (an overflow is an error), and a float
    /// otherwise; division always gives a float.
    /// Each request handed to the host is appended to `requests` with its
    /// answer.
    pub fn combine<H: Host>(
        self,
        op: ArithOp,
        rhs: AsonNumber,
        host: &mut H,
        requests: &mut Ghost<Seq<FloatRequest>>,
    ) -> (r: Result<AsonNumber, RuntimeError>)
        ensures
            matches_outcome(combine_spec(op, self, rhs), r),
            match arith_step_spec(op, self, rhs) {
                ArithStep::Exact(e) => r == e && final(requests)@ == old(requests)@,
                ArithStep::OnHost(o, a, b) => {
                    &&& final(requests)@.len() == old(requests)@.len() + 1
                    &&& final(requests)@.drop_last() == old(requests)@
                    &&& final(requests)@.last().op == o
                    &&& final(requests)@.last().lhs == a
                    &&& final(requests)@.last().rhs == b
                    &&& r == Ok::<AsonNumber, RuntimeError>(AsonNumber::Float(final(requests)@.last().answer))
                },
            },
    {
        match arith_step(op, self, rhs) {
            ArithStep::Exact(result) => result,
            ArithStep::OnHost(o, a, b) => {
                let answer = host.float_arith(o, a, b);
                proof {
                    requests@ = requests@.push(FloatRequest { op: o, lhs: a, rhs: b, answer });
                    assert(requests@.drop_last() =~= old(requests)@);
                }
                Ok(AsonNumber::Float(answer))
            },
        }
    }

    /// The decimal text of the number; an integer's is exact, a float's is
    /// the host's.
    pub fn to_string<H: Host>(&self, host: &H) -> (r: String)
        ensures
            self matches AsonNumber::Integer(i) ==> r@ == decimal(i as int),
    {
        match self {
            AsonNumber::Integer(i) => {
                let mut out: Vec<char> = Vec::new();
                push_decimal(*i, &mut out);
                proof {
                    assert(out@ =~= decimal(*i as int));
                }
                crate::text::string_of(out.as_slice())
            },
            AsonNumber::Float(bits) => host.format_float(*bits),
        }
    }
}

} // verus!
