use vstd::prelude::*;

use crate::host::Host;
use crate::number::FloatRequest;
use crate::runtime::{
    arith_logged, arity_check, builtin_arity, call_spec, fulfils, AsonExpectedArgs, AsonFunction, Builtin, EnvModel, RuntimeError,
};
use crate::value::{
    member_value, assoc_get, assoc_insert, entries_model, find_key, insert_member, items_model,
    lemma_entries_model, model, AsonValue, ValueModel,
};

verus! {

/// The symbol table of one parse: names bound to values, the built-ins
/// first.
pub struct Environment {
    pub symbols: Vec<(String, AsonValue)>,
    /// The binary64 operations asked of the host so far, with their answers.
    pub float_requests: Ghost<Seq<FloatRequest>>,
}

impl Environment {
    /// The value bound to `name`, as it is stored.
    pub open spec fn binding(&self, name: Seq<char>) -> Option<AsonValue> {
        member_value(self.symbols@, name)
    }
}

impl View for Environment {
    type V = EnvModel;

    open spec fn view(&self) -> EnvModel {
        entries_model(self.symbols@)
    }
}

pub open spec fn function_model(fun: Builtin, expected_args: AsonExpectedArgs) -> ValueModel {
    ValueModel::Function(AsonFunction { fun, expected_args })
}

/// The bindings an environment starts with.
pub open spec fn builtins() -> EnvModel {
    seq![
        ("+"@, function_model(Builtin::Add, AsonExpectedArgs::AtLeast(2))),
        ("-"@, function_model(Builtin::Sub, AsonExpectedArgs::AtLeast(2))),
        ("*"@, function_model(Builtin::Mul, AsonExpectedArgs::AtLeast(2))),
        ("/"@, function_model(Builtin::Div, AsonExpectedArgs::AtLeast(2))),
        ("write-line"@, function_model(Builtin::WriteLine, AsonExpectedArgs::AtLeast(1))),
        ("read-file-to-string"@, function_model(Builtin::ReadFileToString, AsonExpectedArgs::Exact(1))),
        ("defvar"@, function_model(Builtin::DefineVar, AsonExpectedArgs::Exact(2))),
    ]
}

/// Calling the value bound to `name`: an unbound name and a value that is
/// not a function are errors.
pub open spec fn call_name_spec(name: Seq<char>, args: Seq<ValueModel>, env: EnvModel) -> Option<
    (Result<ValueModel, RuntimeError>, EnvModel),
> {
    match assoc_get(env, name) {
        None => Some((Err(RuntimeError::UndefinedSymbol), env)),
        Some(ValueModel::Function(f)) => call_spec(f, args, env),
        Some(_) => Some((Err(RuntimeError::NotAFunction), env)),
    }
}

fn builtin_value(fun: Builtin, expected_args: AsonExpectedArgs) -> (r: AsonValue)
    ensures
        model(r) == function_model(fun, expected_args),
{
    AsonValue::Function(AsonFunction::new(fun, expected_args))
}

impl Environment {
    /// A fresh environment holding the built-ins `+ - * /`, `write-line`,
    /// `read-file-to-string` and `defvar`.
    pub fn new() -> (r: Self)
        ensures
            r@ == builtins(),
    {
        let mut symbols: Vec<(String, AsonValue)> = Vec::new();
        symbols.push(("+".to_owned(), builtin_value(Builtin::Add, AsonExpectedArgs::AtLeast(2))));
        symbols.push(("-".to_owned(), builtin_value(Builtin::Sub, AsonExpectedArgs::AtLeast(2))));
        symbols.push(("*".to_owned(), builtin_value(Builtin::Mul, AsonExpectedArgs::AtLeast(2))));
        symbols.push(("/".to_owned(), builtin_value(Builtin::Div, AsonExpectedArgs::AtLeast(2))));
        symbols.push(
            ("write-line".to_owned(), builtin_value(Builtin::WriteLine, AsonExpectedArgs::AtLeast(1))),
        );
        symbols.push(
            (
                "read-file-to-string".to_owned(),
                builtin_value(Builtin::ReadFileToString, AsonExpectedArgs::Exact(1)),
            ),
        );
        symbols.push(
            ("defvar".to_owned(), builtin_value(Builtin::DefineVar, AsonExpectedArgs::Exact(2))),
        );
        let result = Environment { symbols, float_requests: Ghost(Seq::empty()) };
        proof {
            lemma_entries_model(result.symbols@);
            assert(result@ =~= builtins());
        }
        result
    }

    /// Binds `name` to `value`, replacing an earlier binding.
    pub fn add_constant(&mut self, name: String, value: AsonValue)
        ensures
            final(self)@ == assoc_insert(old(self)@, name@, model(value)),
            final(self).binding(name@) == Some(value),
            final(self).float_requests == old(self).float_requests,
    {
        insert_member(&mut self.symbols, name, value);
    }

    /// Binds `name` to a built-in with the given arity contract.
    pub fn define_function(&mut self, name: String, callback: Builtin, expected_args: AsonExpectedArgs)
        ensures
            final(self)@ == assoc_insert(old(self)@, name@, function_model(callback, expected_args)),
    {
        self.add_constant(name, AsonValue::Function(AsonFunction::new(callback, expected_args)));
    }

    /// The value bound to `name`.
    pub fn lookup(&self, name: &str) -> (r: Option<&AsonValue>)
        ensures
            match assoc_get(self@, name@) {
                Some(v) => r is Some && model(*r->Some_0) == v,
                None => r is None,
            },
            match self.binding(name@) {
                Some(v) => r == Some(&v),
                None => r is None,
            },
    {
        proof {
            lemma_entries_model(self.symbols@);
        }
        match find_key(&self.symbols, name) {
            Some(i) => Some(&self.symbols[i].1),
            None => None,
        }
    }

    /// Calls the function bound to `name` on `args`.
    pub fn call_fn<H: Host>(&mut self, name: &str, args: Vec<AsonValue>, host: &mut H) -> (r: Result<
        AsonValue,
        RuntimeError,
    >)
        ensures
            fulfils(call_name_spec(name@, items_model(args@), old(self)@), old(self)@, final(self)@, r),
            match old(self).binding(name@) {
                Some(AsonValue::Function(f)) => arity_check(f.expected_args, args@.len()) is Ok && arity_check(
                    builtin_arity(f.fun),
                    args@.len(),
                ) is Ok ==> arith_logged(f.fun, args@, old(self).float_requests@, final(self).float_requests@, r),
                _ => r is Err,
            },
    {
        let f = match self.lookup(name) {
            None => {
                return Err(RuntimeError::UndefinedSymbol);
            },
            Some(AsonValue::Function(f)) => *f,
            Some(_) => {
                return Err(RuntimeError::NotAFunction);
            },
        };
        f.call(&args, self, host)
    }
}

} // verus!
