use vstd::prelude::*;

use crate::environment::Environment;
use crate::host::Host;
use crate::number::{
    arith_step_spec, fits_i64, int_op, ArithOp, ArithStep, AsonNumber, FloatRequest, NumOutcome,
};
use crate::value::{
    same_value, assoc_insert, collect_float_texts, items_float_count, items_model,
    lemma_items_float_count_prefix, lemma_items_model, model, number_model, render, texts_view,
    write_value, AsonValue, ValueModel,
};

verus! {

/// Errors raised while dispatching a call.
#[derive(Debug, PartialEq, Eq, Clone, Copy, Structural)]
pub enum RuntimeError {
    NotEnoughArgument { given: u16, expected: u16 },
    TooMuchArgument { given: u16, expected: u16 },
    UndefinedSymbol,
    NotAFunction,
    /// A built-in was given an argument of the wrong kind.
    TypeMismatch,
    /// Integer arithmetic left the range of `i64`.
    IntegerOverflow,
    /// A file could not be opened or read.
    ReadFailed,
}

/// How many arguments a built-in accepts.
#[derive(Debug, PartialEq, Eq, Clone, Copy, Structural)]
pub enum AsonExpectedArgs {
    AtLeast(u16),
    Exact(u16),
    NoArgs,
}

/// What the arity check says about `n` arguments under `expected`.
pub open spec fn arity_check(expected: AsonExpectedArgs, n: nat) -> Result<(), RuntimeError> {
    match expected {
        AsonExpectedArgs::AtLeast(k) => if n < k {
            Err(RuntimeError::NotEnoughArgument { given: n as u16, expected: k })
        } else {
            Ok(())
        },
        AsonExpectedArgs::Exact(k) => if n > k {
            Err(RuntimeError::TooMuchArgument { given: n as u16, expected: k })
        } else if n < k {
            Err(RuntimeError::NotEnoughArgument { given: n as u16, expected: k })
        } else {
            Ok(())
        },
        AsonExpectedArgs::NoArgs => if n > 0 {
            Err(RuntimeError::TooMuchArgument { given: n as u16, expected: 0 })
        } else {
            Ok(())
        },
    }
}

/// Checks `n` arguments against an arity contract.
pub fn check_arity(expected: AsonExpectedArgs, n: usize) -> (r: Result<(), RuntimeError>)
    ensures
        r == arity_check(expected, n as nat),
{
    let given = n as u16;
    match expected {
        AsonExpectedArgs::AtLeast(k) => {
            if n < k as usize {
                return Err(RuntimeError::NotEnoughArgument { given, expected: k });
            }
        },
        AsonExpectedArgs::Exact(k) => {
            if n > k as usize {
                return Err(RuntimeError::TooMuchArgument { given, expected: k });
            }
            if n < k as usize {
                return Err(RuntimeError::NotEnoughArgument { given, expected: k });
            }
        },
        AsonExpectedArgs::NoArgs => {
            if n > 0 {
                return Err(RuntimeError::TooMuchArgument { given, expected: 0 });
            }
        },
    }
    Ok(())
}

/// The built-in functions that an environment starts with.
#[derive(Debug, PartialEq, Eq, Clone, Copy, Structural)]
pub enum Builtin {
    Add,
    Sub,
    Mul,
    Div,
    WriteLine,
    ReadFileToString,
    DefineVar,
}

/// A callable value: a built-in together with its arity contract.
#[derive(Debug, PartialEq, Eq, Clone, Copy, Structural)]
pub struct AsonFunction {
    pub fun: Builtin,
    pub expected_args: AsonExpectedArgs,
}

impl AsonFunction {
    pub fn new(fun: Builtin, expected_args: AsonExpectedArgs) -> (r: Self)
        ensures
            r.fun == fun,
            r.expected_args == expected_args,
    {
        AsonFunction { fun, expected_args }
    }
}

/// The environment as a mathematical object: its bindings in order.
pub type EnvModel = Seq<(Seq<char>, ValueModel)>;

/// The arity that a built-in needs whatever contract it was registered with.
pub open spec fn builtin_arity(b: Builtin) -> AsonExpectedArgs {
    match b {
        Builtin::Add | Builtin::Sub | Builtin::Mul | Builtin::Div => AsonExpectedArgs::AtLeast(2),
        Builtin::WriteLine => AsonExpectedArgs::AtLeast(1),
        Builtin::ReadFileToString => AsonExpectedArgs::Exact(1),
        Builtin::DefineVar => AsonExpectedArgs::Exact(2),
    }
}

pub open spec fn result_model(r: Result<AsonValue, RuntimeError>) -> Result<ValueModel, RuntimeError> {
    match r {
        Ok(v) => Ok(model(v)),
        Err(e) => Err(e),
    }
}

pub open spec fn all_numbers(xs: Seq<ValueModel>) -> bool {
    forall|i: int| 0 <= i < xs.len() ==> (#[trigger] xs[i] is Integer || xs[i] is Float)
}

/// One step of a fold: the running result combined with the next operand.
pub open spec fn fold_step(op: ArithOp, acc: NumOutcome, x: ValueModel) -> NumOutcome {
    match acc {
        NumOutcome::Int(a) => match x {
            ValueModel::Integer(b) => if op == ArithOp::Div {
                NumOutcome::Float
            } else if fits_i64(int_op(op, a, b)) {
                NumOutcome::Int(int_op(op, a, b))
            } else {
                NumOutcome::Overflow
            },
            _ => NumOutcome::Float,
        },
        NumOutcome::Float => NumOutcome::Float,
        NumOutcome::Overflow => NumOutcome::Overflow,
    }
}

/// Folds the operands into `acc`, left to right.
pub open spec fn fold_spec(op: ArithOp, acc: NumOutcome, xs: Seq<ValueModel>) -> NumOutcome
    decreases xs.len(),
{
    if xs.len() == 0 {
        acc
    } else {
        fold_step(op, fold_spec(op, acc, xs.drop_last()), xs.last())
    }
}

pub open spec fn outcome_model(o: NumOutcome) -> Result<ValueModel, RuntimeError> {
    match o {
        NumOutcome::Int(v) => Ok(ValueModel::Integer(v)),
        NumOutcome::Float => Ok(ValueModel::Float),
        NumOutcome::Overflow => Err(RuntimeError::IntegerOverflow),
    }
}

pub open spec fn arith_op(b: Builtin) -> ArithOp {
    match b {
        Builtin::Sub => ArithOp::Sub,
        Builtin::Mul => ArithOp::Mul,
        Builtin::Div => ArithOp::Div,
        _ => ArithOp::Add,
    }
}

/// The neutral element that `+`, `-` and `*` fold from.
pub open spec fn identity(b: Builtin) -> int {
    if b == Builtin::Mul {
        1
    } else {
        0
    }
}

/// The result of a built-in on arguments that meet its arity, and the
/// environment after it; `None` where the host decides (a file read).
pub open spec fn builtin_spec(b: Builtin, args: Seq<ValueModel>, env: EnvModel) -> Option<
    (Result<ValueModel, RuntimeError>, EnvModel),
> {
    match b {
        Builtin::Add | Builtin::Sub | Builtin::Mul => if !all_numbers(args) {
            Some((Err(RuntimeError::TypeMismatch), env))
        } else {
            Some((outcome_model(fold_spec(arith_op(b), NumOutcome::Int(identity(b)), args)), env))
        },
        Builtin::Div => if !all_numbers(args) {
            Some((Err(RuntimeError::TypeMismatch), env))
        } else {
            Some((Ok(ValueModel::Float), env))
        },
        Builtin::WriteLine => Some((Ok(ValueModel::Null), env)),
        Builtin::ReadFileToString => if !(args[0] is Str) {
            Some((Err(RuntimeError::TypeMismatch), env))
        } else {
            None
        },
        Builtin::DefineVar => if !(args[1] is Str) {
            Some((Err(RuntimeError::TypeMismatch), env))
        } else {
            Some((Ok(args[0]), assoc_insert(env, args[1]->Str_0, args[0])))
        },
    }
}

/// A call of `f` on `args`: the arity contract first, then the built-in's own.
pub open spec fn call_spec(f: AsonFunction, args: Seq<ValueModel>, env: EnvModel) -> Option<
    (Result<ValueModel, RuntimeError>, EnvModel),
> {
    match arity_check(f.expected_args, args.len()) {
        Err(e) => Some((Err(e), env)),
        Ok(_) => match arity_check(builtin_arity(f.fun), args.len()) {
            Err(e) => Some((Err(e), env)),
            Ok(_) => builtin_spec(f.fun, args, env),
        },
    }
}

/// `r` and the environment after the call agree with `o`; where the host
/// decides, the environment is kept and the result is a string or a failed
/// read.
pub open spec fn fulfils(
    o: Option<(Result<ValueModel, RuntimeError>, EnvModel)>,
    env0: EnvModel,
    env1: EnvModel,
    r: Result<AsonValue, RuntimeError>,
) -> bool {
    match o {
        Some((res, e)) => result_model(r) == res && env1 == e,
        None => env1 == env0 && match r {
            Ok(v) => model(v) is Str,
            Err(e) => e == RuntimeError::ReadFailed,
        },
    }
}

pub proof fn lemma_fold_overflow(op: ArithOp, acc: NumOutcome, xs: Seq<ValueModel>, n: int)
    requires
        0 <= n <= xs.len(),
        fold_spec(op, acc, xs.subrange(0, n)) == NumOutcome::Overflow,
    ensures
        fold_spec(op, acc, xs) == NumOutcome::Overflow,
    decreases xs.len() - n,
{
    if n < xs.len() {
        assert(xs.subrange(0, n + 1).drop_last() =~= xs.subrange(0, n));
        lemma_fold_overflow(op, acc, xs, n + 1);
    } else {
        assert(xs.subrange(0, n) =~= xs);
    }
}

pub open spec fn number_outcome(n: AsonNumber) -> NumOutcome {
    match n {
        AsonNumber::Integer(i) => NumOutcome::Int(i as int),
        AsonNumber::Float(_) => NumOutcome::Float,
    }
}

/// The fold of the numbers `args[i..]` into `acc`, left to right, one
/// `arith_step` at a time, where `e` lists the requests made of the host:
/// `Some(result)` exactly when `e` is the sequence of requests this fold
/// makes (each with the answer recorded for it).
pub open spec fn fold_log(op: ArithOp, acc: AsonNumber, args: Seq<AsonValue>, i: int, e: Seq<FloatRequest>) -> Option<
    Result<AsonNumber, RuntimeError>,
>
    decreases args.len() - i,
{
    if i < 0 || i >= args.len() {
        if e.len() == 0 {
            Some(Ok(acc))
        } else {
            None
        }
    } else {
        match arith_step_spec(op, acc, args[i]->Number_0) {
            ArithStep::Exact(Err(er)) => if e.len() == 0 {
                Some(Err(er))
            } else {
                None
            },
            ArithStep::Exact(Ok(n)) => fold_log(op, n, args, i + 1, e),
            ArithStep::OnHost(o, a, b) => if e.len() > 0 && e[0].op == o && e[0].lhs == a && e[0].rhs == b {
                fold_log(op, AsonNumber::Float(e[0].answer), args, i + 1, e.drop_first())
            } else {
                None
            },
        }
    }
}

/// The requests appended to `log` after its first `n` entries.
pub open spec fn appended(log: Seq<FloatRequest>, n: int) -> Seq<FloatRequest> {
    log.subrange(n, log.len() as int)
}

/// Folds numeric arguments `args[from..]` into `init` with `op`.
fn fold_numbers<H: Host>(
    op: ArithOp,
    init: AsonNumber,
    args: &Vec<AsonValue>,
    from: usize,
    host: &mut H,
    requests: &mut Ghost<Seq<FloatRequest>>,
) -> (r: Result<AsonNumber, RuntimeError>)
    requires
        from <= args@.len(),
        all_numbers(items_model(args@)),
    ensures
        final(requests)@.len() >= old(requests)@.len(),
        final(requests)@.subrange(0, old(requests)@.len() as int) == old(requests)@,
        fold_log(op, init, args@, from as int, appended(final(requests)@, old(requests)@.len() as int)) == Some(r),
        match fold_spec(op, number_outcome(init), items_model(args@).subrange(from as int, args@.len() as int)) {
            NumOutcome::Int(v) => r == Ok::<AsonNumber, RuntimeError>(AsonNumber::Integer(v as i64)),
            NumOutcome::Float => r is Ok && r->Ok_0 is Float,
            NumOutcome::Overflow => r == Err::<AsonNumber, RuntimeError>(RuntimeError::IntegerOverflow),
        },
{
    let ghost xs = items_model(args@);
    proof {
        lemma_items_model(args@);
        assert(xs.subrange(from as int, from as int) =~= Seq::<ValueModel>::empty());
    }
    let mut acc = init;
    let mut i: usize = from;
    let ghost l0 = requests@.len() as int;
    proof {
        assert(requests@.subrange(0, l0) =~= requests@);
        assert forall|fut: Seq<FloatRequest>| #[trigger] fold_log(op, init, args@, from as int, appended(requests@, l0) + fut)
            == fold_log(op, acc, args@, i as int, fut) by {
            assert(appended(requests@, l0) + fut =~= fut);
        }
    }
    while i < args.len()
        invariant
            from <= i <= args@.len(),
            requests@.len() >= l0,
            l0 == old(requests)@.len(),
            requests@.subrange(0, l0) == old(requests)@,
            forall|fut: Seq<FloatRequest>| #[trigger] fold_log(op, init, args@, from as int, appended(requests@, l0) + fut)
                == fold_log(op, acc, args@, i as int, fut),
            xs == items_model(args@),
            xs.len() == args@.len(),
            forall|j: int| 0 <= j < xs.len() ==> #[trigger] xs[j] == model(args@[j]),
            all_numbers(xs),
            number_outcome(acc) == fold_spec(op, number_outcome(init), xs.subrange(from as int, i as int)),
        decreases args@.len() - i,
    {
        let ghost sub = xs.subrange(from as int, i + 1);
        proof {
            assert(sub.drop_last() =~= xs.subrange(from as int, i as int));
            assert(sub.last() == xs[i as int]);
            assert(xs[i as int] is Integer || xs[i as int] is Float);
        }
        let x = match args[i].as_number() {
            Some(n) => n,
            None => {
                return Err(RuntimeError::TypeMismatch);
            },
        };
        let ghost before = requests@;
        let ghost acc0 = acc;
        proof {
            assert(args@[i as int]->Number_0 == x);
        }
        let step = acc.combine(op, x, host, requests);
        proof {
            assert(requests@.subrange(0, l0) =~= old(requests)@) by {
                assert(before.subrange(0, l0) == old(requests)@);
            }
            match arith_step_spec(op, acc0, x) {
                ArithStep::OnHost(o, a, b) => {
                    let req = requests@.last();
                    assert(appended(requests@, l0) =~= appended(before, l0).push(req));
                    assert forall|fut: Seq<FloatRequest>| #[trigger] fold_log(op, init, args@, from as int, appended(requests@, l0) + fut)
                        == fold_log(op, AsonNumber::Float(req.answer), args@, i + 1, fut) by {
                        let tail = seq![req] + fut;
                        assert(appended(requests@, l0) + fut =~= appended(before, l0) + tail);
                        assert(tail[0] == req);
                        assert(tail.drop_first() =~= fut);
                    }
                },
                ArithStep::Exact(Ok(n)) => {
                    assert forall|fut: Seq<FloatRequest>| #[trigger] fold_log(op, init, args@, from as int, appended(requests@, l0) + fut)
                        == fold_log(op, n, args@, i + 1, fut) by {
                        assert(appended(requests@, l0) =~= appended(before, l0));
                    }
                },
                ArithStep::Exact(Err(_)) => {
                    assert(appended(requests@, l0) =~= appended(before, l0));
                    assert(appended(requests@, l0) + Seq::<FloatRequest>::empty() =~= appended(requests@, l0));
                },
            }
        }
        match step {
            Ok(n) => {
                acc = n;
            },
            Err(e) => {
                proof {
                    assert(xs[i as int] == number_model(x));
                    assert(fold_spec(op, number_outcome(init), sub) == fold_step(op, number_outcome(acc), xs[i as int]));
                    assert(fold_spec(op, number_outcome(init), sub) == NumOutcome::Overflow);
                    assert(xs.subrange(from as int, args@.len() as int).subrange(0, i + 1 - from) =~= sub);
                    lemma_fold_overflow(op, number_outcome(init), xs.subrange(from as int, args@.len() as int), i + 1 - from);
                }
                return Err(e);
            },
        }
        i = i + 1;
    }
    proof {
        assert(appended(requests@, l0) + Seq::<FloatRequest>::empty() =~= appended(requests@, l0));
    }
    Ok(acc)
}

fn check_numbers(args: &Vec<AsonValue>) -> (r: bool)
    ensures
        r == all_numbers(items_model(args@)),
{
    proof {
        lemma_items_model(args@);
    }
    let mut i: usize = 0;
    while i < args.len()
        invariant
            i <= args@.len(),
            items_model(args@).len() == args@.len(),
            forall|j: int| 0 <= j < args@.len() ==> #[trigger] items_model(args@)[j] == model(args@[j]),
            forall|j: int| 0 <= j < i ==> (#[trigger] items_model(args@)[j] is Integer || items_model(args@)[j] is Float),
        decreases args@.len() - i,
    {
        if !args[i].is_number() {
            assert(!(items_model(args@)[i as int] is Integer || items_model(args@)[i as int] is Float));
            return false;
        }
        i = i + 1;
    }
    true
}

/// The line that `write-line` emits: the arguments' display texts separated
/// by single spaces, their floats shown by `texts` in order.
pub fn write_line_text_with(args: &Vec<AsonValue>, texts: &Vec<String>) -> (r: String)
    requires
        items_float_count(items_model(args@)) <= texts@.len(),
    ensures
        r@ == joined(items_model(args@), texts_view(texts@), 0),
{
    let ghost xs = items_model(args@);
    let ghost tv = texts_view(texts@);
    proof {
        lemma_items_model(args@);
        assert(xs.subrange(0, 0) =~= Seq::<ValueModel>::empty());
    }
    let mut out: Vec<char> = Vec::new();
    let mut cursor: usize = 0;
    let mut i: usize = 0;
    while i < args.len()
        invariant
            i <= args@.len(),
            xs == items_model(args@),
            xs.len() == args@.len(),
            forall|j: int| 0 <= j < args@.len() ==> #[trigger] xs[j] == model(args@[j]),
            tv == texts_view(texts@),
            items_float_count(xs) <= texts@.len(),
            cursor == items_float_count(xs.subrange(0, i as int)),
            out@ == joined(xs.subrange(0, i as int), tv, 0),
        decreases args@.len() - i,
    {
        let ghost sub = xs.subrange(0, i + 1);
        proof {
            assert(sub.drop_last() =~= xs.subrange(0, i as int));
            assert(sub.last() == xs[i as int]);
            lemma_items_float_count_prefix(xs, i + 1);
        }
        if i > 0 {
            out.push(' ');
        }
        write_value(&args[i], texts, true, &mut cursor, &mut out);
        proof {
            assert(out@ =~= joined(sub, tv, 0));
        }
        i = i + 1;
    }
    proof {
        assert(xs.subrange(0, args@.len() as int) =~= xs);
    }
    crate::text::string_of(out.as_slice())
}

/// The line that `write-line` emits, each float shown as the host formats
/// it.
pub fn write_line_text<H: Host>(args: &Vec<AsonValue>, host: &H) -> (r: String)
    ensures
        exists|ts: Seq<Seq<char>>|
            ts.len() == items_float_count(items_model(args@)) && r@ == #[trigger] joined(items_model(args@), ts, 0),
{
    let ghost xs = items_model(args@);
    proof {
        lemma_items_model(args@);
        assert(xs.subrange(0, 0) =~= Seq::<ValueModel>::empty());
    }
    let mut texts: Vec<String> = Vec::new();
    let mut i: usize = 0;
    while i < args.len()
        invariant
            i <= args@.len(),
            xs == items_model(args@),
            xs.len() == args@.len(),
            forall|j: int| 0 <= j < args@.len() ==> #[trigger] xs[j] == model(args@[j]),
            texts@.len() == items_float_count(xs.subrange(0, i as int)),
        decreases args@.len() - i,
    {
        proof {
            assert(xs.subrange(0, i + 1).drop_last() =~= xs.subrange(0, i as int));
        }
        collect_float_texts(&args[i], host, &mut texts);
        i = i + 1;
    }
    proof {
        assert(xs.subrange(0, args@.len() as int) =~= xs);
    }
    write_line_text_with(args, &texts)
}

/// Display texts separated by single spaces, floats shown by `ts` from the
/// `k`-th on.
pub open spec fn joined(xs: Seq<ValueModel>, ts: Seq<Seq<char>>, k: int) -> Seq<char>
    decreases xs.len(),
{
    if xs.len() == 0 {
        Seq::empty()
    } else if xs.len() == 1 {
        render(xs[0], true, ts, k)
    } else {
        joined(xs.drop_last(), ts, k) + seq![' '] + render(xs.last(), true, ts, k + items_float_count(xs.drop_last()))
    }
}

/// What `read-file-to-string` gives for what the host read: the content as
/// a string, or a failed read.
pub fn read_outcome(content: Option<String>) -> (r: Result<AsonValue, RuntimeError>)
    ensures
        match content {
            Some(s) => r is Ok && model(r->Ok_0) == ValueModel::Str(s@),
            None => r == Err::<AsonValue, RuntimeError>(RuntimeError::ReadFailed),
        },
{
    match content {
        Some(s) => Ok(AsonValue::String(s)),
        None => Err(RuntimeError::ReadFailed),
    }
}

/// Where an arithmetic built-in starts its fold: `/` from its first
/// operand, the others from their neutral element.
pub open spec fn fold_start(b: Builtin, args: Seq<AsonValue>) -> AsonNumber {
    if b == Builtin::Div {
        args[0]->Number_0
    } else {
        AsonNumber::Integer(identity(b) as i64)
    }
}

/// The first operand folded in: `/` starts after its first operand.
pub open spec fn fold_from(b: Builtin) -> int {
    if b == Builtin::Div {
        1
    } else {
        0
    }
}

pub open spec fn number_result(r: Result<AsonValue, RuntimeError>) -> Result<AsonNumber, RuntimeError> {
    match r {
        Ok(v) => Ok(v->Number_0),
        Err(e) => Err(e),
    }
}

/// For an arithmetic built-in on numbers: the requests appended to the log
/// are exactly those of its fold, and `r` is the fold's result.
pub open spec fn arith_logged(
    b: Builtin,
    args: Seq<AsonValue>,
    before: Seq<FloatRequest>,
    after: Seq<FloatRequest>,
    r: Result<AsonValue, RuntimeError>,
) -> bool {
    is_arithmetic(b) && all_numbers(items_model(args)) ==> {
        &&& after.len() >= before.len()
        &&& after.subrange(0, before.len() as int) == before
        &&& r is Ok ==> r->Ok_0 is Number
        &&& fold_log(arith_op(b), fold_start(b, args), args, fold_from(b), appended(after, before.len() as int))
            == Some(number_result(r))
    }
}

/// Runs a built-in on arguments that meet its own arity.
pub fn run_builtin<H: Host>(b: Builtin, args: &Vec<AsonValue>, env: &mut Environment, host: &mut H) -> (r: Result<
    AsonValue,
    RuntimeError,
>)
    requires
        arity_check(builtin_arity(b), args@.len()) is Ok,
    ensures
        fulfils(builtin_spec(b, items_model(args@), old(env)@), old(env)@, final(env)@, r),
        arith_logged(b, args@, old(env).float_requests@, final(env).float_requests@, r),
        !is_arithmetic(b) ==> final(env).float_requests == old(env).float_requests,
        b == Builtin::DefineVar && args@[1] is String ==> ({
            let name = args@[1]->String_0@;
            &&& r is Ok
            &&& same_value(r->Ok_0, args@[0])
            &&& final(env).binding(name) is Some
            &&& same_value(final(env).binding(name)->Some_0, args@[0])
        }),
{
    proof {
        lemma_items_model(args@);
    }
    match b {
        Builtin::Add | Builtin::Sub | Builtin::Mul => {
            if !check_numbers(args) {
                return Err(RuntimeError::TypeMismatch);
            }
            let (op, init) = match b {
                Builtin::Add => (ArithOp::Add, 0i64),
                Builtin::Sub => (ArithOp::Sub, 0i64),
                _ => (ArithOp::Mul, 1i64),
            };
            proof {
                assert(items_model(args@).subrange(0, args@.len() as int) =~= items_model(args@));
            }
            match fold_numbers(op, AsonNumber::Integer(init), args, 0, host, &mut env.float_requests) {
                Ok(n) => Ok(AsonValue::Number(n)),
                Err(e) => Err(e),
            }
        },
        Builtin::Div => {
            if !check_numbers(args) {
                return Err(RuntimeError::TypeMismatch);
            }
            let first = match args[0].as_number() {
                Some(n) => n,
                None => {
                    return Err(RuntimeError::TypeMismatch);
                },
            };
            let ghost xs = items_model(args@).subrange(1, args@.len() as int);
            proof {
                lemma_fold_div(number_outcome(first), xs);
            }
            match fold_numbers(ArithOp::Div, first, args, 1, host, &mut env.float_requests) {
                Ok(n) => Ok(AsonValue::Number(n)),
                Err(e) => Err(e),
            }
        },
        Builtin::WriteLine => {
            let line = write_line_text(args, host);
            host.write_line(line.as_str());
            Ok(AsonValue::Null)
        },
        Builtin::ReadFileToString => {
            match &args[0] {
                AsonValue::String(path) => read_outcome(host.read_file_to_string(path.as_str())),
                _ => Err(RuntimeError::TypeMismatch),
            }
        },
        Builtin::DefineVar => {
            match &args[1] {
                AsonValue::String(name) => {
                    let value = args[0].deep_clone();
                    let bound = args[0].deep_clone();
                    env.add_constant(name.clone(), bound);
                    Ok(value)
                },
                _ => Err(RuntimeError::TypeMismatch),
            }
        },
    }
}

/// Dividing by at least one number gives a float.
pub proof fn lemma_fold_div(acc: NumOutcome, xs: Seq<ValueModel>)
    requires
        xs.len() >= 1,
        acc !is Overflow,
    ensures
        fold_spec(ArithOp::Div, acc, xs) == NumOutcome::Float,
    decreases xs.len(),
{
    if xs.len() > 1 {
        lemma_fold_div(acc, xs.drop_last());
    } else {
        assert(fold_spec(ArithOp::Div, acc, xs.drop_last()) == acc);
    }
}

impl AsonFunction {
    /// Calls the function: the arity contract is checked first, then the
    /// built-in runs with access to the environment.
    pub fn call<H: Host>(&self, args: &Vec<AsonValue>, env: &mut Environment, host: &mut H) -> (r: Result<
        AsonValue,
        RuntimeError,
    >)
        ensures
            fulfils(call_spec(*self, items_model(args@), old(env)@), old(env)@, final(env)@, r),
            arity_check(self.expected_args, args@.len()) is Ok && arity_check(builtin_arity(self.fun), args@.len()) is Ok
                ==> arith_logged(self.fun, args@, old(env).float_requests@, final(env).float_requests@, r),
    {
        proof {
            lemma_items_model(args@);
        }
        match check_arity(self.expected_args, args.len()) {
            Err(e) => {
                return Err(e);
            },
            Ok(()) => {},
        }
        let own = match self.fun {
            Builtin::Add | Builtin::Sub | Builtin::Mul | Builtin::Div => AsonExpectedArgs::AtLeast(2),
            Builtin::WriteLine => AsonExpectedArgs::AtLeast(1),
            Builtin::ReadFileToString => AsonExpectedArgs::Exact(1),
            Builtin::DefineVar => AsonExpectedArgs::Exact(2),
        };
        match check_arity(own, args.len()) {
            Err(e) => {
                return Err(e);
            },
            Ok(()) => {},
        }
        run_builtin(self.fun, args, env, host)
    }
}

pub open spec fn is_arithmetic(b: Builtin) -> bool {
    b == Builtin::Add || b == Builtin::Sub || b == Builtin::Mul || b == Builtin::Div
}

proof fn lemma_fold_with_float(op: ArithOp, acc: NumOutcome, xs: Seq<ValueModel>, i: int)
    requires
        0 <= i < xs.len(),
        xs[i] is Float,
    ensures
        fold_spec(op, acc, xs) is Float || fold_spec(op, acc, xs) is Overflow,
    decreases xs.len(),
{
    if i < xs.len() - 1 {
        lemma_fold_with_float(op, acc, xs.drop_last(), i);
    }
}

proof fn lemma_fold_integers(op: ArithOp, acc: NumOutcome, xs: Seq<ValueModel>)
    requires
        op != ArithOp::Div,
        acc is Int,
        forall|i: int| 0 <= i < xs.len() ==> #[trigger] xs[i] is Integer,
    ensures
        fold_spec(op, acc, xs) is Int || fold_spec(op, acc, xs) is Overflow,
    decreases xs.len(),
{
    if xs.len() > 0 {
        lemma_fold_integers(op, acc, xs.drop_last());
        assert(xs.last() is Integer);
    }
}

/// Numeric promotion, the same for `+`, `-`, `*` and `/`: integer operands
/// of `+`, `-` and `*` give an integer, unless the running result leaves
/// `i64`; a float operand anywhere, or division, never gives an integer.
pub proof fn lemma_numeric_promotion(b: Builtin, args: Seq<ValueModel>, env: EnvModel)
    requires
        is_arithmetic(b),
        all_numbers(args),
    ensures
        ({
            let r = builtin_spec(b, args, env)->Some_0.0;
            &&& builtin_spec(b, args, env) is Some
            &&& r is Err ==> r->Err_0 == RuntimeError::IntegerOverflow
            &&& (b != Builtin::Div && forall|i: int| 0 <= i < args.len() ==> #[trigger] args[i] is Integer)
                ==> (r is Ok ==> r->Ok_0 is Integer)
            &&& (b == Builtin::Div || exists|i: int| 0 <= i < args.len() && #[trigger] args[i] is Float)
                ==> (r is Ok ==> r->Ok_0 is Float)
        }),
{
    if b != Builtin::Div {
        let op = arith_op(b);
        let acc = NumOutcome::Int(identity(b));
        if exists|i: int| 0 <= i < args.len() && #[trigger] args[i] is Float {
            let i = choose|i: int| 0 <= i < args.len() && #[trigger] args[i] is Float;
            lemma_fold_with_float(op, acc, args, i);
        }
        if forall|i: int| 0 <= i < args.len() ==> #[trigger] args[i] is Integer {
            lemma_fold_integers(op, acc, args);
        }
    }
}

/// An arithmetic built-in given a non-numeric operand fails with a type
/// error, whatever the other operands are.
pub proof fn lemma_non_number_operand(f: AsonFunction, args: Seq<ValueModel>, env: EnvModel, i: int)
    requires
        is_arithmetic(f.fun),
        arity_check(f.expected_args, args.len()) is Ok,
        args.len() >= 2,
        0 <= i < args.len(),
        !(args[i] is Integer || args[i] is Float),
    ensures
        call_spec(f, args, env) == Some::<(Result<ValueModel, RuntimeError>, EnvModel)>(
            (Err(RuntimeError::TypeMismatch), env),
        ),
{
}

/// Too few arguments for an `AtLeast` or `Exact` contract fail with the
/// number given and the number expected, before the built-in runs.
pub proof fn lemma_too_few_arguments(f: AsonFunction, args: Seq<ValueModel>, env: EnvModel, n: u16)
    requires
        f.expected_args == AsonExpectedArgs::AtLeast(n) || f.expected_args == AsonExpectedArgs::Exact(n),
        args.len() < n,
    ensures
        call_spec(f, args, env) == Some::<(Result<ValueModel, RuntimeError>, EnvModel)>(
            (Err(RuntimeError::NotEnoughArgument { given: args.len() as u16, expected: n }), env),
        ),
{
}

} // verus!
