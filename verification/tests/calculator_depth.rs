use strata::tools::calculator::{compile, Op};

fn only_number(ops: &[Op], text: &str) -> bool {
    matches!(ops, [Op::Number(n)] if n == text)
}

#[test]
fn deeply_nested_parentheses_compile() {
    let depth = 200_000;
    let expr = format!("{}7{}", "(".repeat(depth), ")".repeat(depth));
    let program = compile(&expr);
    assert!(program.error.is_none());
    assert!(only_number(&program.ops, "7"));
}

#[test]
fn long_chains_of_signs_compile() {
    let depth = 200_000;
    let expr = format!("{}5", "-".repeat(depth));
    let program = compile(&expr);
    assert!(program.error.is_none());
    assert_eq!(program.ops.len(), depth + 1);
    assert!(matches!(program.ops.last(), Some(Op::Neg)));
}

#[test]
fn an_unclosed_deep_nest_reports_the_missing_parenthesis() {
    let expr = format!("{}1", "(".repeat(50_000));
    let program = compile(&expr);
    assert_eq!(
        program.error.map(|e| e.to_string()),
        Some("invalid arguments: missing closing parenthesis".to_string())
    );
}

#[test]
fn precedence_and_signs_still_compile_in_postfix_order() {
    let program = compile("1 + 2 * -(3 - 4)");
    assert!(program.error.is_none());
    let names: Vec<String> = program
        .ops
        .iter()
        .map(|op| match op {
            Op::Number(n) => n.clone(),
            Op::Neg => "neg".into(),
            Op::Add => "+".into(),
            Op::Sub => "-".into(),
            Op::Mul => "*".into(),
            Op::Div => "/".into(),
        })
        .collect();
    assert_eq!(names, vec!["1", "2", "3", "4", "-", "neg", "*", "+"]);
}
