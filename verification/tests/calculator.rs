use rcalc::ast::Expr;
use rcalc::bytecode::{EPSILON_BITS, ONE_BITS};
use rcalc::emit::compile;
use rcalc::parser::{parse, parse_bytes, ParseError, ParseErrorKind, MAX_NESTING};
use rcalc::render::render;
use rcalc::vm::{evaluate_jit, extract_result, is_entry_sig, VmError, WasmTy, WasmVal};
use wasm_encoder::{
    CodeSection, ExportKind, ExportSection, Function, FunctionSection, Instruction, Module,
    TypeSection, ValType,
};

/// The decimal text of a leaf, parsed into 64-bit float bits.
fn lit_bits(text: &[u8]) -> u64 {
    std::str::from_utf8(text).unwrap().parse::<f64>().unwrap().to_bits()
}

/// Replace literal-text leaves by the bit patterns of their values.
fn to_bits_expr(e: &Expr<Vec<u8>>) -> Expr<u64> {
    match e {
        Expr::Number(t) => Expr::Number(lit_bits(t)),
        Expr::Negated(x) => Expr::Negated(Box::new(to_bits_expr(x))),
        Expr::Reciprocal(x) => Expr::Reciprocal(Box::new(to_bits_expr(x))),
        Expr::Add(l, r) => Expr::Add(Box::new(to_bits_expr(l)), Box::new(to_bits_expr(r))),
        Expr::Multiply(l, r) => {
            Expr::Multiply(Box::new(to_bits_expr(l)), Box::new(to_bits_expr(r)))
        }
    }
}

/// The reference tree-walking interpreter.
fn interp(e: &Expr<u64>) -> f64 {
    match e {
        Expr::Number(b) => f64::from_bits(*b),
        Expr::Negated(x) => -interp(x),
        Expr::Reciprocal(x) => 1.0 / (interp(x) + f64::from_bits(EPSILON_BITS)),
        Expr::Add(l, r) => interp(l) + interp(r),
        Expr::Multiply(l, r) => interp(l) * interp(r),
    }
}

fn parse_ok(input: &str) -> Expr<Vec<u8>> {
    let (expr, errs) = parse(input);
    assert!(errs.is_empty(), "unexpected parse errors for {:?}: {:?}", input, errs);
    expr.expect("expected a successful parse")
}

fn jit(e: &Expr<u64>) -> f64 {
    f64::from_bits(evaluate_jit(e).expect("the virtual machine should run the module"))
}

fn eval_both(input: &str) -> (f64, f64) {
    let bits = to_bits_expr(&parse_ok(input));
    (interp(&bits), jit(&bits))
}

fn assert_evaluates_to(input: &str, expected: f64) {
    let (i, j) = eval_both(input);
    assert_eq!(i, expected, "interpreter result for {:?}", input);
    assert_eq!(j, expected, "virtual machine result for {:?}", input);
}

fn assert_rejected(input: &str) {
    let (expr, errs) = parse(input);
    assert!(expr.is_none(), "input {:?} should not parse", input);
    assert!(errs.len() >= 1, "input {:?} should report an error", input);
    for e in &errs {
        assert!(e.start <= e.end && e.end <= input.len(), "span out of range for {:?}", input);
        assert!(!e.message().is_empty());
    }
}

#[test]
fn precedence_product_binds_tighter() {
    assert_evaluates_to("2+3*4", 14.0);
}

#[test]
fn precedence_parentheses_reset() {
    assert_evaluates_to("(2+3)*4", 20.0);
}

#[test]
fn left_associative_subtraction() {
    assert_evaluates_to("10-3-2", 5.0);
}

#[test]
fn unary_negation_of_number() {
    assert_evaluates_to("-5+3", -2.0);
}

#[test]
fn unary_negation_of_parenthesized() {
    assert_evaluates_to("-(2*3)", -6.0);
}

#[test]
fn multiplication_alias_token() {
    assert_evaluates_to("2x3", 6.0);
    assert_evaluates_to("2x3+1", 7.0);
}

#[test]
fn decimal_literals() {
    assert_evaluates_to("1.5+2.25", 3.75);
    assert_evaluates_to("0.5*2", 1.0);
}

#[test]
fn epsilon_biased_division_never_fails() {
    let (i, j) = eval_both("1/0");
    for v in [i, j] {
        assert!(v.is_finite(), "division by zero must stay finite");
        assert!(!v.is_nan());
        let expected = 1.0 / 1e-5;
        assert!((v - expected).abs() <= 1e-9 * expected, "got {}", v);
    }
}

#[test]
fn epsilon_bias_applies_to_every_reciprocal() {
    let (i, j) = eval_both("1/4");
    let expected = 1.0 / (4.0 + 1e-5);
    assert_eq!(i, expected);
    assert_eq!(j, expected);
}

#[test]
fn whitespace_is_ignored() {
    let a = eval_both("1+2");
    let b = eval_both("1 + 2");
    let c = eval_both("  1\t+ 2 \n");
    assert_eq!(a.0, b.0);
    assert_eq!(a.1, b.1);
    assert_eq!(a.0, c.0);
    assert_eq!(a.0, 3.0);
}

#[test]
fn float_constants_match_their_bits() {
    assert_eq!(f64::from_bits(ONE_BITS), 1.0);
    assert_eq!(f64::from_bits(EPSILON_BITS), 1e-5);
}

#[test]
fn malformed_unmatched_parenthesis() {
    assert_rejected("(1+2");
    assert_rejected("1+2)");
}

#[test]
fn malformed_trailing_operator() {
    assert_rejected("1+");
    assert_rejected("2*");
}

#[test]
fn malformed_empty_and_stray_input() {
    assert_rejected("");
    assert_rejected("   ");
    assert_rejected("1 2");
    assert_rejected("--1");
    assert_rejected(".5");
    assert_rejected("5.");
    assert_rejected("a+1");
}

#[test]
fn error_kinds_and_spans() {
    let (_, errs) = parse("(1");
    assert_eq!(errs[0].kind, ParseErrorKind::ExpectedClosing);
    let (_, errs) = parse("");
    assert_eq!(errs[0].kind, ParseErrorKind::ExpectedOperand);
    let (_, errs) = parse("1 2");
    assert_eq!(errs[0].kind, ParseErrorKind::TrailingInput);
    assert_eq!(errs[0].start, 2);
    assert_eq!(errs[0].end, 3);
}

#[test]
fn deep_nesting_within_bound_evaluates() {
    let depth = 50;
    let input = format!("{}{}{}", "(".repeat(depth), "7", ")".repeat(depth));
    assert_evaluates_to(&input, 7.0);
}

#[test]
fn deep_nesting_beyond_bound_reports_error() {
    let depth = MAX_NESTING + 10;
    let input = format!("{}{}{}", "(".repeat(depth), "1", ")".repeat(depth));
    let (expr, errs) = parse(&input);
    assert!(expr.is_none());
    assert_eq!(errs[0].kind, ParseErrorKind::TooDeep);
}

#[test]
fn backend_parity_on_assorted_expressions() {
    let inputs = [
        "1",
        "2+3*4",
        "10-3-2",
        "-(2*3)",
        "1/0",
        "1/3+1/7",
        "2.5*(1.25+3.75)-10/4",
        "-(1/(2+3))*4x5",
        "0.001*1000",
    ];
    for input in inputs {
        let bits = to_bits_expr(&parse_ok(input));
        let i = interp(&bits);
        let j = jit(&bits);
        let tolerance = 1e-9 * i.abs().max(1.0);
        assert!((i - j).abs() <= tolerance, "{}: interpreter {} vs machine {}", input, i, j);
    }
}

#[test]
fn render_is_fully_parenthesized() {
    let tree = parse_ok("2+3*4");
    assert_eq!(render(&tree), b"(2+(3*4))".to_vec());
}

#[test]
fn round_trip_preserves_tree_without_reciprocal() {
    for input in ["2+3*4", "10-3-2", "-(2*3)", "1.5+2.25"] {
        let tree = parse_ok(input);
        let text = render(&tree);
        let (again, errs) = parse_bytes(&text);
        assert!(errs.is_empty(), "re-parse of {:?} failed", text);
        assert_eq!(again.unwrap(), tree);
    }
}

#[test]
fn round_trip_preserves_value_with_reciprocal() {
    let tree: Expr<Vec<u8>> = Expr::Add(
        Box::new(Expr::Reciprocal(Box::new(Expr::Number(b"4".to_vec())))),
        Box::new(Expr::Number(b"2.5".to_vec())),
    );
    let text = render(&tree);
    let (again, errs) = parse_bytes(&text);
    assert!(errs.is_empty());
    let original = interp(&to_bits_expr(&tree));
    let reparsed = interp(&to_bits_expr(&again.unwrap()));
    let tolerance = 1e-9 * original.abs().max(1.0);
    assert!((original - reparsed).abs() <= tolerance);
}

#[test]
fn compiled_bytes_match_reference_encoder() {
    let inputs = ["1", "2+3*4", "-(2*3)", "1/0", "2.5*(1.25+3.75)-10/4"];
    for input in inputs {
        let bits = to_bits_expr(&parse_ok(input));
        let ours = compile(&bits);
        let reference = encode_with_reference(&bits);
        assert_eq!(ours, reference, "module bytes differ for {:?}", input);
    }
}

/// Build the same module with the reference encoder crate.
fn encode_with_reference(e: &Expr<u64>) -> Vec<u8> {
    let mut module = Module::new();
    let mut types = TypeSection::new();
    types.ty().function(vec![], vec![ValType::F64]);
    module.section(&types);
    let mut functions = FunctionSection::new();
    functions.function(0);
    module.section(&functions);
    let mut exports = ExportSection::new();
    exports.export("run", ExportKind::Func, 0);
    module.section(&exports);
    let mut codes = CodeSection::new();
    let mut run = Function::new(vec![]);
    reference_codegen(&mut run, e);
    run.instruction(&Instruction::End);
    codes.function(&run);
    module.section(&codes);
    module.finish()
}

fn reference_codegen(func: &mut Function, e: &Expr<u64>) {
    match e {
        Expr::Number(b) => {
            func.instruction(&Instruction::F64Const(f64::from_bits(*b).into()));
        }
        Expr::Negated(x) => {
            reference_codegen(func, x);
            func.instruction(&Instruction::F64Neg);
        }
        Expr::Reciprocal(x) => {
            func.instruction(&Instruction::F64Const(1.0.into()));
            reference_codegen(func, x);
            func.instruction(&Instruction::F64Const(f64::from_bits(EPSILON_BITS).into()));
            func.instruction(&Instruction::F64Add);
            func.instruction(&Instruction::F64Div);
        }
        Expr::Add(l, r) => {
            reference_codegen(func, l);
            reference_codegen(func, r);
            func.instruction(&Instruction::F64Add);
        }
        Expr::Multiply(l, r) => {
            reference_codegen(func, l);
            reference_codegen(func, r);
            func.instruction(&Instruction::F64Mul);
        }
    }
}

#[test]
fn extract_result_accepts_exactly_one_float() {
    let bits = 2.5f64.to_bits();
    assert_eq!(extract_result(&vec![WasmVal::F64(bits)]).unwrap(), bits);
    assert!(matches!(extract_result(&vec![]), Err(VmError::Invocation(_))));
    assert!(matches!(extract_result(&vec![WasmVal::I32(1)]), Err(VmError::Invocation(_))));
    assert!(matches!(
        extract_result(&vec![WasmVal::F64(bits), WasmVal::F64(bits)]),
        Err(VmError::Invocation(_))
    ));
}

#[test]
fn parse_error_message_is_stable() {
    let e = ParseError { start: 0, end: 0, kind: ParseErrorKind::TooDeep };
    assert_eq!(e.message(), "expression is nested too deeply");
}

#[test]
fn parse_bytes_agrees_with_parse() {
    let (a, ea) = parse("2+3*4");
    let (b, eb) = parse_bytes(b"2+3*4");
    assert_eq!(a, b);
    assert_eq!(ea.len(), eb.len());
}

#[test]
fn entry_signature_decision_is_exact() {
    assert!(is_entry_sig(0, 1, Some(WasmTy::F64)));
    assert!(!is_entry_sig(1, 1, Some(WasmTy::F64)));
    assert!(!is_entry_sig(0, 2, Some(WasmTy::F64)));
    assert!(!is_entry_sig(0, 1, Some(WasmTy::F32)));
    assert!(!is_entry_sig(0, 1, Some(WasmTy::I64)));
    assert!(!is_entry_sig(0, 1, None));
}
