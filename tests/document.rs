use ason::environment::Environment;
use ason::host::Host;
use ason::lexer::{tokenize, LexErrorKind, Lexer};
use ason::number::{arith_step, ArithOp, ArithStep, AsonNumber};
use ason::parser::{ParseErrorKind, ParserError};
use ason::runtime::{check_arity, write_line_text_with, AsonExpectedArgs, RuntimeError};
use ason::token::TokenKind;
use ason::value::AsonValue;

struct TestHost {
    lines: Vec<String>,
    files: Vec<(String, String)>,
}

impl TestHost {
    fn new() -> Self {
        TestHost { lines: Vec::new(), files: Vec::new() }
    }
}

fn as_f64(n: AsonNumber) -> f64 {
    match n {
        AsonNumber::Integer(i) => i as f64,
        AsonNumber::Float(bits) => f64::from_bits(bits),
    }
}

impl Host for TestHost {
    fn float_from_decimal(&mut self, text: &str) -> u64 {
        text.parse::<f64>().unwrap().to_bits()
    }

    fn float_arith(&mut self, op: ArithOp, lhs: AsonNumber, rhs: AsonNumber) -> u64 {
        let (a, b) = (as_f64(lhs), as_f64(rhs));
        let r = match op {
            ArithOp::Add => a + b,
            ArithOp::Sub => a - b,
            ArithOp::Mul => a * b,
            ArithOp::Div => a / b,
        };
        r.to_bits()
    }

    fn format_float(&self, bits: u64) -> String {
        f64::from_bits(bits).to_string()
    }

    fn write_line(&mut self, line: &str) {
        self.lines.push(line.to_string());
    }

    fn read_file_to_string(&mut self, path: &str) -> Option<String> {
        self.files.iter().find(|(p, _)| p == path).map(|(_, c)| c.clone())
    }
}

fn run(src: &str) -> Result<AsonValue, ParserError> {
    let mut host = TestHost::new();
    AsonValue::from_ason_string(src, "test.ason", &mut host)
}

fn integer(v: &AsonValue) -> i64 {
    match v {
        AsonValue::Number(AsonNumber::Integer(i)) => *i,
        _ => panic!("not an integer"),
    }
}

fn float(v: &AsonValue) -> f64 {
    match v {
        AsonValue::Number(AsonNumber::Float(bits)) => f64::from_bits(*bits),
        _ => panic!("not a float"),
    }
}

fn error_kind(src: &str) -> ParseErrorKind {
    match run(src) {
        Ok(_) => panic!("expected an error"),
        Err(e) => e.kind,
    }
}

#[test]
fn addition_of_integers_is_integer() {
    assert_eq!(integer(&run(")2 3 +(").unwrap()), 5);
}

#[test]
fn subtraction_folds_from_zero() {
    assert_eq!(integer(&run(")2 3 -(").unwrap()), -5);
}

#[test]
fn division_always_gives_float() {
    let v = run(")10 2 /(").unwrap();
    assert!(v.is_float());
    assert_eq!(float(&v), 5.0);
}

#[test]
fn multiplication_folds_from_one() {
    assert_eq!(integer(&run(")2 3 4 *(").unwrap()), 24);
}

#[test]
fn float_operand_promotes_to_float() {
    let v = run(")1.5 2 +(").unwrap();
    assert!(v.is_float());
    assert_eq!(float(&v), 3.5);
    let w = run(")2 1.5 *(").unwrap();
    assert_eq!(float(&w), 3.0);
}

#[test]
fn string_operand_is_a_type_error() {
    assert_eq!(error_kind(")2 \"x\" +("), ParseErrorKind::Runtime(RuntimeError::TypeMismatch));
}

#[test]
fn missing_file_is_a_read_error() {
    assert_eq!(
        error_kind(")\"hello.txt\" read-file-to-string("),
        ParseErrorKind::Runtime(RuntimeError::ReadFailed)
    );
}

#[test]
fn present_file_is_read_whole() {
    let mut host = TestHost::new();
    host.files.push(("notes.txt".to_string(), "line one\nline two".to_string()));
    let v = AsonValue::from_ason_string(")\"notes.txt\" read-file-to-string(", "t", &mut host).unwrap();
    match v {
        AsonValue::String(s) => assert_eq!(s, "line one\nline two"),
        _ => panic!("not a string"),
    }
}

#[test]
fn too_few_arguments_reports_counts() {
    assert_eq!(
        error_kind(")5 +("),
        ParseErrorKind::Runtime(RuntimeError::NotEnoughArgument { given: 1, expected: 2 })
    );
}

#[test]
fn too_many_arguments_reports_counts() {
    assert_eq!(
        error_kind(")1 2 3 defvar("),
        ParseErrorKind::Runtime(RuntimeError::TooMuchArgument { given: 3, expected: 2 })
    );
}

#[test]
fn duplicate_key_last_write_wins() {
    let mut host = TestHost::new();
    let v = AsonValue::from_ason_string("}\"a\": )1 2 +(, \"a\": 9{", "t", &mut host).unwrap();
    assert_eq!(v.as_object().unwrap().len(), 1);
    assert_eq!(integer(v.get("a").unwrap()), 9);
    assert_eq!(v.to_json(&host), "{\"a\":9}");
}

#[test]
fn unterminated_string_is_located() {
    let e = run("\"abc").unwrap_err();
    assert_eq!(e.kind, ParseErrorKind::Lex(LexErrorKind::UnterminatedString));
    assert_eq!(e.line, 1);
    assert_eq!(e.column, 1);
    assert_eq!(e.render(), "Error ./test.ason:1:1: Unterminated string literal");
}

#[test]
fn nested_forms_evaluate_inner_first() {
    assert_eq!(integer(&run("))2 3 +( 4 *(").unwrap()), 20);
}

#[test]
fn plain_document_serializes_to_json() {
    let mut host = TestHost::new();
    let src = "}\"a\": 1, \"b\": ]true, null, \"x\"[, \"c\": }{{";
    let v = AsonValue::from_ason_string(src, "t", &mut host).unwrap();
    assert_eq!(v.to_json(&host), "{\"a\":1,\"b\":[true,null,\"x\"],\"c\":{}}");
}

#[test]
fn array_elements_may_omit_commas() {
    let mut host = TestHost::new();
    let v = AsonValue::from_ason_string("]1 2, 3[", "t", &mut host).unwrap();
    assert_eq!(v.to_json(&host), "[1,2,3]");
    assert_eq!(integer(v.at(2).unwrap()), 3);
    assert!(v.at(3).is_none());
}

#[test]
fn defvar_binds_and_returns_value() {
    let v = run("]) 5 \"x\" defvar(, x[").unwrap();
    assert_eq!(integer(v.at(0).unwrap()), 5);
    assert_eq!(integer(v.at(1).unwrap()), 5);
}

#[test]
fn defvar_needs_a_string_name() {
    assert_eq!(error_kind(")5 6 defvar("), ParseErrorKind::Runtime(RuntimeError::TypeMismatch));
}

#[test]
fn calling_a_non_function_fails() {
    assert_eq!(
        error_kind("])5 \"v\" defvar(, )1 2 v([")
        , ParseErrorKind::Runtime(RuntimeError::NotAFunction)
    );
}

#[test]
fn undefined_symbol_in_value_position() {
    assert_eq!(error_kind("foo"), ParseErrorKind::UndefinedSymbol);
}

#[test]
fn undefined_symbol_as_argument() {
    assert_eq!(error_kind(")foo 1 +("), ParseErrorKind::Runtime(RuntimeError::UndefinedSymbol));
}

#[test]
fn undefined_callee() {
    assert_eq!(error_kind(")1 2 nope("), ParseErrorKind::Runtime(RuntimeError::UndefinedSymbol));
}

#[test]
fn callee_must_be_a_symbol() {
    assert_eq!(error_kind(")1 2("), ParseErrorKind::MissingCallee);
}

#[test]
fn empty_form_is_null() {
    assert!(run(")(").unwrap().is_null());
}

#[test]
fn write_line_emits_display_forms() {
    let mut host = TestHost::new();
    let v = AsonValue::from_ason_string(")1 \"a\" true write-line(", "t", &mut host).unwrap();
    assert!(v.is_null());
    assert_eq!(host.lines, vec!["1 \"a\" true".to_string()]);
}

#[test]
fn integer_overflow_is_an_error() {
    assert_eq!(
        error_kind(")9223372036854775807 1 +("),
        ParseErrorKind::Runtime(RuntimeError::IntegerOverflow)
    );
}

#[test]
fn integer_literal_too_large() {
    assert_eq!(error_kind("99999999999999999999"), ParseErrorKind::Lex(LexErrorKind::InvalidInteger));
}

#[test]
fn largest_integer_literal() {
    assert_eq!(integer(&run("9223372036854775807").unwrap()), i64::MAX);
}

#[test]
fn second_decimal_point_is_an_error() {
    assert_eq!(error_kind("1.2.3"), ParseErrorKind::Lex(LexErrorKind::MultipleDecimalPoints));
}

#[test]
fn comment_runs_to_end_of_line() {
    assert_eq!(integer(&run("\\\\ a note\n 7").unwrap()), 7);
}

#[test]
fn lone_comment_marker_is_an_error() {
    assert_eq!(error_kind("\\x"), ParseErrorKind::Lex(LexErrorKind::UnexpectedCharacter('x')));
    assert_eq!(error_kind("\\"), ParseErrorKind::Lex(LexErrorKind::UnexpectedEndOfInput));
}

#[test]
fn unknown_character_is_an_error() {
    assert_eq!(error_kind("#"), ParseErrorKind::Lex(LexErrorKind::UnexpectedCharacter('#')));
}

#[test]
fn dangling_escape_is_an_error() {
    assert_eq!(error_kind("\"ab/"), ParseErrorKind::Lex(LexErrorKind::DanglingEscape));
}

#[test]
fn escapes_are_resolved() {
    match run("\"a/nb/\"c//d/x\"").unwrap() {
        AsonValue::String(s) => assert_eq!(s, "a\nb\"c/dx"),
        _ => panic!("not a string"),
    }
}

#[test]
fn trailing_tokens_are_rejected() {
    assert_eq!(error_kind("1 2"), ParseErrorKind::UnexpectedToken);
}

#[test]
fn unclosed_array_is_rejected() {
    assert_eq!(error_kind("]1 2"), ParseErrorKind::MissingClose);
}

#[test]
fn empty_input_is_rejected() {
    assert_eq!(error_kind("  "), ParseErrorKind::UnexpectedEnd);
}

#[test]
fn tokenizer_reads_mirrored_brackets() {
    let tokens = tokenize("}\"k\":-12 3{ true").unwrap();
    let kinds: Vec<&TokenKind> = tokens.iter().map(|t| &t.kind).collect();
    assert_eq!(kinds.len(), 7);
    assert_eq!(*kinds[0], TokenKind::OpenObject);
    assert_eq!(*kinds[1], TokenKind::StringLiteral("k".to_string()));
    assert_eq!(*kinds[2], TokenKind::Colon);
    assert_eq!(*kinds[3], TokenKind::Symbol("-12".to_string()));
    assert_eq!(*kinds[4], TokenKind::IntegerLiteral(3));
    assert_eq!(*kinds[5], TokenKind::CloseObject);
    assert_eq!(*kinds[6], TokenKind::True);
    assert_eq!(tokens[1].lexem, "\"k\"");
    assert_eq!(tokens[6].column, 13);
}

#[test]
fn tokens_track_lines_and_bytes() {
    let tokens = tokenize("é\n  x1").unwrap_err();
    assert_eq!(tokens.kind, LexErrorKind::UnexpectedCharacter('é'));
    let tokens = tokenize("\"é\"\n  x1 2.50").unwrap();
    assert_eq!(tokens[1].line, 2);
    assert_eq!(tokens[1].column, 3);
    assert_eq!(tokens[1].index, 7);
    assert_eq!(tokens[1].kind, TokenKind::Symbol("x1".to_string()));
    assert_eq!(tokens[2].kind, TokenKind::FloatLiteral("2.50".to_string()));
}

#[test]
fn arity_contracts() {
    assert_eq!(check_arity(AsonExpectedArgs::AtLeast(2), 1), Err(RuntimeError::NotEnoughArgument { given: 1, expected: 2 }));
    assert_eq!(check_arity(AsonExpectedArgs::AtLeast(2), 5), Ok(()));
    assert_eq!(check_arity(AsonExpectedArgs::Exact(1), 0), Err(RuntimeError::NotEnoughArgument { given: 0, expected: 1 }));
    assert_eq!(check_arity(AsonExpectedArgs::NoArgs, 2), Err(RuntimeError::TooMuchArgument { given: 2, expected: 0 }));
    assert_eq!(check_arity(AsonExpectedArgs::NoArgs, 0), Ok(()));
}

#[test]
fn environment_starts_with_builtins() {
    let env = Environment::new();
    for name in ["+", "-", "*", "/", "write-line", "read-file-to-string", "defvar"] {
        match env.lookup(name) {
            Some(AsonValue::Function(_)) => {}
            _ => panic!("missing built-in {}", name),
        }
    }
    assert!(env.lookup("nothing").is_none());
}

#[test]
fn environment_constants_replace() {
    let mut env = Environment::new();
    env.add_constant("k".to_string(), AsonValue::Boolean(true));
    env.add_constant("k".to_string(), AsonValue::Null);
    assert!(env.lookup("k").unwrap().is_null());
    assert_eq!(env.symbols.len(), 8);
}

#[test]
fn value_predicates_and_display() {
    let host = TestHost::new();
    let v = run("]1 2.5 \"s\" false null }{ ][ +[").unwrap();
    assert!(v.is_array());
    assert!(v.at(0).unwrap().is_integer());
    assert!(v.at(1).unwrap().is_float());
    assert!(v.at(1).unwrap().is_number());
    assert!(v.at(2).unwrap().is_string());
    assert!(v.at(3).unwrap().is_boolean());
    assert!(v.at(4).unwrap().is_null());
    assert!(v.at(5).unwrap().is_object());
    assert!(v.get("x").is_none());
    assert_eq!(v.to_json(&host), "[1,2.5,\"s\",false,null,{},[],]");
    assert_eq!(v.to_display_string(&host), "[1,2.5,\"s\",false,null,{},[],Function]");
    let c = v.deep_clone();
    assert_eq!(c.to_json(&host), v.to_json(&host));
}

#[test]
fn negative_numbers_print_in_decimal() {
    let host = TestHost::new();
    let v = run(")0 9223372036854775807 -(").unwrap();
    assert_eq!(v.to_json(&host), "-9223372036854775807");
    assert_eq!(AsonNumber::Integer(i64::MIN).to_string(&host), "-9223372036854775808");
}

#[test]
fn json_escapes_quotes_backslashes_and_controls() {
    let host = TestHost::new();
    let v = run("]\"a/\",/\"b\" \"x\\y\" \"t/tu/n\u{1}\"[").unwrap();
    assert_eq!(v.to_json(&host), "[\"a\\\",\\\"b\",\"x\\\\y\",\"t\\tu\\n\\u0001\"]");
    let k = run("}\"q/\"\": 1{").unwrap();
    assert_eq!(k.to_json(&host), "{\"q\\\"\":1}");
}

#[test]
fn json_with_given_float_texts() {
    let v = run("]1 2.5 \"a\" 0.5[").unwrap();
    let texts = vec!["F1".to_string(), "F2".to_string()];
    assert_eq!(v.to_json_with(&texts), "[1,F1,\"a\",F2]");
    assert_eq!(v.to_display_string_with(&texts), "[1,F1,\"a\",F2]");
    let host = TestHost::new();
    assert_eq!(v.float_texts(&host), vec!["2.5".to_string(), "0.5".to_string()]);
}

#[test]
fn arithmetic_steps_name_the_host_operation() {
    assert_eq!(
        arith_step(ArithOp::Mul, AsonNumber::Float(2.0f64.to_bits()), AsonNumber::Integer(3)),
        ArithStep::OnHost(ArithOp::Mul, AsonNumber::Float(2.0f64.to_bits()), AsonNumber::Integer(3))
    );
    assert_eq!(
        arith_step(ArithOp::Div, AsonNumber::Integer(10), AsonNumber::Integer(2)),
        ArithStep::OnHost(ArithOp::Div, AsonNumber::Integer(10), AsonNumber::Integer(2))
    );
    assert_eq!(
        arith_step(ArithOp::Sub, AsonNumber::Integer(2), AsonNumber::Integer(3)),
        ArithStep::Exact(Ok(AsonNumber::Integer(-1)))
    );
}

#[test]
fn scan_keeps_tokens_before_an_error() {
    let mut lex = Lexer::new("1 # 2");
    let e = lex.scan().unwrap_err();
    assert_eq!(e.kind, LexErrorKind::UnexpectedCharacter('#'));
    assert_eq!((e.line, e.column), (1, 3));
    assert_eq!(lex.tokens().len(), 1);
    let mut lex = Lexer::new("\"abc");
    assert!(lex.scan().is_err());
    assert!(lex.tokens().is_empty());
}

#[test]
fn parse_errors_name_file_and_message() {
    let e = run(")5 +(").unwrap_err();
    assert_eq!(e.file, "test.ason");
    assert_eq!(e.msg, "Not Enough Arguments given, got 1 expected 2.");
    let e = run("]1\n  nope[").unwrap_err();
    assert_eq!(e.msg, "Undefined symbol: nope");
    assert_eq!((e.line, e.column), (2, 3));
}

#[test]
fn write_line_text_with_float_texts() {
    let args = vec![AsonValue::Number(AsonNumber::Float(0)), AsonValue::Null];
    assert_eq!(write_line_text_with(&args, &vec!["X".to_string()]), "X null");
}

#[test]
fn bound_float_keeps_its_value() {
    let v = run("])1.5 \"x\" defvar(, x[").unwrap();
    assert_eq!(float(v.at(0).unwrap()), 1.5);
    assert_eq!(float(v.at(1).unwrap()), 1.5);
}

#[test]
fn unterminated_string_after_newline_points_at_quote() {
    let e = run("]1\n  \"abc").unwrap_err();
    assert_eq!(e.kind, ParseErrorKind::Lex(LexErrorKind::UnterminatedString));
    assert_eq!((e.line, e.column), (2, 3));
}

#[test]
fn values_from_plain_rust_values() {
    assert_eq!(integer(&AsonValue::from(7i64)), 7);
    assert!(AsonValue::from(true).is_boolean());
    assert!(AsonValue::from("s".to_string()).is_string());
}
