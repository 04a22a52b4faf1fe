use graph_calc::Evaluator;
use graph_calc::EvaluatorResponse;
use graph_calc::Instr;

// ---------------------------------------------------------------------------
// a small floating-point stack machine for the engine's closed programs,
// with the numeric-calculus helpers the engine's host is expected to run
// ---------------------------------------------------------------------------

fn literal_value(cs: &[char]) -> f64 {
    let s: String = cs.iter().collect();
    s.parse().expect("literal out of a lexed program always parses")
}

fn run_program(prog: &[Instr], x: Option<f64>) -> f64 {
    let mut stack: Vec<f64> = Vec::new();
    for ins in prog {
        match ins {
            Instr::PushNum(cs) => stack.push(literal_value(cs)),
            Instr::PushX => stack.push(x.expect("free variable unbound")),
            Instr::Add => {
                let b = stack.pop().unwrap();
                let a = stack.pop().unwrap();
                stack.push(a + b);
            },
            Instr::Sub => {
                let b = stack.pop().unwrap();
                let a = stack.pop().unwrap();
                stack.push(a - b);
            },
            Instr::Mul => {
                let b = stack.pop().unwrap();
                let a = stack.pop().unwrap();
                stack.push(a * b);
            },
            Instr::Div => {
                let b = stack.pop().unwrap();
                let a = stack.pop().unwrap();
                stack.push(a / b);
            },
            Instr::Ln => {
                let v = stack.pop().unwrap();
                stack.push(v.ln());
            },
            Instr::Log10 => {
                let v = stack.pop().unwrap();
                stack.push(v.log(10.0));
            },
            Instr::LogBase => {
                let base = stack.pop().unwrap();
                let v = stack.pop().unwrap();
                stack.push(v.log(base));
            },
            Instr::Sin => {
                let v = stack.pop().unwrap();
                stack.push(v.sin());
            },
            Instr::Cos => {
                let v = stack.pop().unwrap();
                stack.push(v.cos());
            },
            Instr::Tan => {
                let v = stack.pop().unwrap();
                stack.push(v.tan());
            },
            Instr::Sqrt => {
                let v = stack.pop().unwrap();
                stack.push(v.sqrt());
            },
            Instr::Integrate(body) => {
                let end = stack.pop().unwrap();
                let start = stack.pop().unwrap();
                let r = integrate(|xv| run_program(body, Some(xv)), start, end, 10000);
                stack.push(r);
            },
        }
    }
    stack.pop().unwrap()
}

fn differentiate(f: Box<dyn Fn(f64) -> f64>, amount: usize) -> Box<dyn Fn(f64) -> f64> {
    let mut out = f;
    let h = 0.0001;
    for _ in 0..amount {
        let prev = out;
        out = Box::new(move |x: f64| (prev(x + h) - prev(x)) / h);
    }
    out
}

fn integrate<F>(f: F, start: f64, end: f64, squares_amt: usize) -> f64
where
    F: Fn(f64) -> f64,
{
    let square_width: f64 = (end - start) / squares_amt as f64;
    let left_estimate: f64 = (0..=squares_amt - 1)
        .map(|k| f(start + k as f64 * square_width))
        .sum::<f64>() * square_width;
    let right_estimate: f64 = (1..=squares_amt)
        .map(|k| f(start + k as f64 * square_width))
        .sum::<f64>() * square_width;
    (left_estimate + right_estimate) / 2.0
}

fn find_roots<F>(f: F, start: f64, stop: f64, step: f64, epsilon: f64) -> Vec<f64>
where
    F: Fn(f64) -> f64,
{
    let mut ret = vec![];
    let mut current = start;
    while current < stop {
        if f(current).abs() < epsilon {
            ret.push(current);
        }
        current = current + step;
    }
    ret
}

fn scalar(session: &mut Evaluator, line: &str) -> f64 {
    match session.evaluate(line) {
        Some(EvaluatorResponse::Value { program, .. }) => run_program(&program, None),
        other => panic!("expected a scalar answer for {:?}, got {:?}", line, other),
    }
}

// ---------------------------------------------------------------------------
// arithmetic: precedence and associativity
// ---------------------------------------------------------------------------

#[test]
fn evaluates_with_standard_precedence() {
    let mut session = Evaluator::new();
    assert_eq!(scalar(&mut session, "2+3*4"), 14.0);
    assert_eq!(scalar(&mut session, "(2+3)*4"), 20.0);
    assert_eq!(scalar(&mut session, "2*3+4"), 10.0);
    assert_eq!(scalar(&mut session, "10-2*3"), 4.0);
    assert_eq!(scalar(&mut session, "8/2+2"), 6.0);
}

#[test]
fn evaluates_left_to_right_within_class() {
    let mut session = Evaluator::new();
    assert_eq!(scalar(&mut session, "1-2-3"), -4.0);
    assert_eq!(scalar(&mut session, "8/4/2"), 1.0);
    assert_eq!(scalar(&mut session, "10-4+1"), 7.0);
    assert_eq!(scalar(&mut session, "2*6/4"), 3.0);
}

#[test]
fn evaluates_nested_brackets() {
    let mut session = Evaluator::new();
    assert_eq!(scalar(&mut session, "((1+2)*(3+4))"), 21.0);
    assert_eq!(scalar(&mut session, "2*(3+(4-1))"), 12.0);
}

#[test]
fn evaluates_decimal_literals() {
    let mut session = Evaluator::new();
    assert_eq!(scalar(&mut session, "1.5+2.25"), 3.75);
    assert_eq!(scalar(&mut session, ".5*4"), 2.0);
}

// ---------------------------------------------------------------------------
// built-in functions
// ---------------------------------------------------------------------------

#[test]
fn evaluates_sqrt_and_ln() {
    let mut session = Evaluator::new();
    assert!((scalar(&mut session, "sqrt(16)") - 4.0).abs() < 1e-12);
    assert!(scalar(&mut session, "ln(1)").abs() < 1e-12);
}

#[test]
fn evaluates_logarithms() {
    let mut session = Evaluator::new();
    assert!((scalar(&mut session, "log(100)") - 2.0).abs() < 1e-12);
    assert!((scalar(&mut session, "log(8,2)") - 3.0).abs() < 1e-12);
}

#[test]
fn evaluates_trigonometry() {
    let mut session = Evaluator::new();
    assert!(scalar(&mut session, "sin(0)").abs() < 1e-12);
    assert!((scalar(&mut session, "cos(0)") - 1.0).abs() < 1e-12);
    assert!(scalar(&mut session, "tan(0)").abs() < 1e-12);
    assert!((scalar(&mut session, "sin(2+1)") - (3.0f64).sin()).abs() < 1e-12);
}

#[test]
fn function_applies_before_multiplication() {
    let mut session = Evaluator::new();
    assert!((scalar(&mut session, "2*sqrt(16)") - 8.0).abs() < 1e-12);
}

// ---------------------------------------------------------------------------
// numeric calculus
// ---------------------------------------------------------------------------

#[test]
fn trapezoid_integration_of_identity() {
    let approx = integrate(|x: f64| x, 0.0, 1.0, 10000);
    assert!((approx - 0.5).abs() < 1e-6);
}

#[test]
fn integral_command_uses_trapezoid_rule() {
    let mut session = Evaluator::new();
    assert!((scalar(&mut session, "int(x,0,1)") - 0.5).abs() < 1e-6);
    assert!((scalar(&mut session, "int(x*x,0,3)") - 9.0).abs() < 1e-4);
}

#[test]
fn integral_command_accepts_named_curve() {
    let mut session = Evaluator::new();
    assert!(session.evaluate("f(x) = x").is_some());
    assert!((scalar(&mut session, "int(f(x),0,1)") - 0.5).abs() < 1e-6);
}

#[test]
fn root_scan_finds_a_root_near_three() {
    let roots = find_roots(|x: f64| x - 3.0, 0.0, 20.0, 0.001, 0.001);
    assert!(!roots.is_empty());
    assert!(roots.iter().any(|r| (r - 3.0).abs() < 0.001));
}

#[test]
fn derivative_request_samples_the_slope() {
    let mut session = Evaluator::new();
    assert!(session.evaluate("f(x) = x*x").is_some());
    match session.evaluate("f'(x)") {
        Some(EvaluatorResponse::Graph { program, derivative_order }) => {
            assert_eq!(derivative_order, 1);
            let f = Box::new(move |x: f64| run_program(&program, Some(x)));
            let fp = differentiate(f, derivative_order);
            assert!((fp(2.0) - 4.0).abs() < 1e-3);
        },
        other => panic!("expected a graph answer, got {:?}", other),
    }
}

#[test]
fn second_derivative_request_counts_apostrophes() {
    let mut session = Evaluator::new();
    assert!(session.evaluate("g(x) = x*x*x").is_some());
    match session.evaluate("g''(x)") {
        Some(EvaluatorResponse::Graph { derivative_order, .. }) => {
            assert_eq!(derivative_order, 2);
        },
        other => panic!("expected a graph answer, got {:?}", other),
    }
}

// ---------------------------------------------------------------------------
// the session
// ---------------------------------------------------------------------------

#[test]
fn assignment_answers_value_and_name() {
    let mut session = Evaluator::new();
    match session.evaluate("a = 2*5") {
        Some(EvaluatorResponse::Value { program, var_name }) => {
            assert_eq!(var_name, Some('a'));
            assert_eq!(run_program(&program, None), 10.0);
        },
        other => panic!("expected a value answer, got {:?}", other),
    }
    assert_eq!(scalar(&mut session, "a + 1"), 11.0);
}

#[test]
fn reassignment_overwrites_the_stored_value() {
    let mut session = Evaluator::new();
    assert_eq!(scalar(&mut session, "a=2"), 2.0);
    assert_eq!(scalar(&mut session, "a=3"), 3.0);
    assert_eq!(scalar(&mut session, "a"), 3.0);
    assert_eq!(scalar(&mut session, "a*a"), 9.0);
}

#[test]
fn assignment_fixes_the_value_at_definition_time() {
    let mut session = Evaluator::new();
    assert_eq!(scalar(&mut session, "a=2"), 2.0);
    assert_eq!(scalar(&mut session, "b=a+1"), 3.0);
    assert_eq!(scalar(&mut session, "a=5"), 5.0);
    assert_eq!(scalar(&mut session, "b"), 3.0);
}

#[test]
fn undefined_variable_answers_nothing() {
    let mut session = Evaluator::new();
    assert!(session.evaluate("q+1").is_none());
    assert!(session.evaluate("q").is_none());
}

#[test]
fn failed_assignment_mutates_nothing() {
    let mut session = Evaluator::new();
    assert!(session.evaluate("b = q+1").is_none());
    assert!(session.evaluate("b").is_none());
}

#[test]
fn two_equals_is_invalid() {
    let mut session = Evaluator::new();
    assert!(session.evaluate("a=b=2").is_none());
    assert!(session.evaluate("a").is_none());
}

#[test]
fn malformed_expression_answers_nothing() {
    let mut session = Evaluator::new();
    assert!(session.evaluate("2 3").is_none());
    assert!(session.evaluate("(2+3").is_none());
    assert!(session.evaluate("2+").is_none());
}

#[test]
fn curve_definition_answers_its_samples_program() {
    let mut session = Evaluator::new();
    match session.evaluate("f(x) = x*x") {
        Some(EvaluatorResponse::Graph { program, derivative_order }) => {
            assert_eq!(derivative_order, 0);
            assert_eq!(run_program(&program, Some(3.0)), 9.0);
            assert_eq!(run_program(&program, Some(-10.0)), 100.0);
        },
        other => panic!("expected a graph answer, got {:?}", other),
    }
}

#[test]
fn curve_uses_variables_fixed_per_command() {
    let mut session = Evaluator::new();
    assert_eq!(scalar(&mut session, "a=2"), 2.0);
    match session.evaluate("f(x) = a*x") {
        Some(EvaluatorResponse::Graph { program, .. }) => {
            assert_eq!(run_program(&program, Some(3.0)), 6.0);
        },
        other => panic!("expected a graph answer, got {:?}", other),
    }
}

#[test]
fn curve_with_free_variable_needs_curve_header() {
    // without the f(x)= header the x on the right has no binding
    let mut session = Evaluator::new();
    assert!(session.evaluate("a = x*x").is_none());
    assert!(session.evaluate("x*x").is_none());
}

#[test]
fn derivative_of_missing_curve_answers_nothing() {
    let mut session = Evaluator::new();
    assert!(session.evaluate("z'(x)").is_none());
}

#[test]
fn find_intercepts_scans_the_difference() {
    let mut session = Evaluator::new();
    assert!(session.evaluate("f(x) = 2*x + 1").is_some());
    assert!(session.evaluate("g(x) = 3*x").is_some());
    let prog = session.find_intercepts('f', 'g').expect("both curves are defined");
    let roots = find_roots(|x| run_program(&prog, Some(x)), 0.0, 20.0, 0.001, 0.001);
    assert!(!roots.is_empty());
    assert!(roots.iter().any(|r| (r - 1.0).abs() < 0.001));
}

#[test]
fn assignment_uses_first_character_of_left_side() {
    // the left side of an assignment names the variable by its first
    // character, whatever else stands there
    let mut session = Evaluator::new();
    match session.evaluate("ab = 7") {
        Some(EvaluatorResponse::Value { var_name, .. }) => assert_eq!(var_name, Some('a')),
        other => panic!("expected a value answer, got {:?}", other),
    }
    assert_eq!(scalar(&mut session, "a"), 7.0);
}

#[test]
fn curve_header_tolerates_spaces() {
    // command sides are stripped of spaces before the header is matched
    let mut session = Evaluator::new();
    assert!(session.evaluate("f (x) = x * x").is_some());
    assert_eq!(scalar(&mut session, "int(f(x),0,3)").round(), 9.0);
}

#[test]
fn derivative_request_matches_the_whole_line() {
    // the derivative pattern is matched against the raw line, so a
    // trailing space turns it into an (unparseable) expression
    let mut session = Evaluator::new();
    assert!(session.evaluate("f(x) = x*x").is_some());
    assert!(session.evaluate("f'(x) ").is_none());
}

#[test]
fn find_intercepts_needs_both_curves() {
    let mut session = Evaluator::new();
    assert!(session.evaluate("f(x) = x").is_some());
    assert!(session.find_intercepts('f', 'g').is_none());
    assert!(session.find_intercepts('h', 'f').is_none());
}
