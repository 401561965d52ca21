use expr_parser::repl::{
    format_answer, gather_reports, is_builtin_symbol, promote_expr_to_module, report_problems, starts_with,
    ReplOutput, ToAstProblem, FUNCTION_PLACEHOLDER, MODULE_HEADER,
};

fn by_lines(src: &str) -> String {
    let mut buffer = String::from(MODULE_HEADER);
    for line in src.lines() {
        buffer.push_str("    ");
        buffer.push_str(line);
        buffer.push('\n');
    }
    buffer
}

#[test]
fn module_header_text() {
    assert_eq!(
        MODULE_HEADER,
        "app \"app\" provides [ replOutput ] to \"./platform\"\n\nreplOutput =\n"
    );
}

#[test]
fn module_of_one_line() {
    assert_eq!(
        promote_expr_to_module("1 + 1"),
        "app \"app\" provides [ replOutput ] to \"./platform\"\n\nreplOutput =\n    1 + 1\n"
    );
}

#[test]
fn module_of_nothing_is_the_header() {
    assert_eq!(promote_expr_to_module(""), MODULE_HEADER);
}

#[test]
fn module_lines_are_the_lines_of_the_text() {
    let inputs = [
        "",
        "1",
        "a\nb",
        "a\n",
        "a\n\n",
        "\n",
        "\n\n",
        "\na",
        "a\r\nb\r\n",
        "a\r",
        "a\rb\n",
        "\r\n",
        "\r\r\n",
        "\r",
        "x =\n    5\nx",
        "caf\u{e9}\n\u{1F600}",
        "  lead\n\ttab  \n",
    ];
    for src in inputs {
        assert_eq!(promote_expr_to_module(src), by_lines(src), "for {:?}", src);
    }
}

#[test]
fn answer_with_a_value() {
    assert_eq!(
        format_answer(Ok("42".to_string()), "Num *".to_string()),
        ReplOutput::NoProblems { expr: "42".to_string(), expr_type: "Num *".to_string() }
    );
}

#[test]
fn answer_for_a_function() {
    assert_eq!(FUNCTION_PLACEHOLDER, "<function>");
    assert_eq!(
        format_answer(Err(ToAstProblem::FunctionLayout), "a -> a".to_string()),
        ReplOutput::NoProblems { expr: "<function>".to_string(), expr_type: "a -> a".to_string() }
    );
}

#[test]
fn problems_are_reported_only_if_there_are_any() {
    assert_eq!(report_problems(Vec::new()), None);
    assert_eq!(
        report_problems(vec!["first".to_string(), "second".to_string()]),
        Some(ReplOutput::Problems(vec!["first".to_string(), "second".to_string()]))
    );
}

#[test]
fn builtin_symbols() {
    assert!(is_builtin_symbol("roc_builtins.num.pow"));
    assert!(is_builtin_symbol("roc_builtins"));
    assert!(!is_builtin_symbol("roc_builtin"));
    assert!(!is_builtin_symbol("my_roc_builtins"));
    assert!(!is_builtin_symbol(""));
    assert!(starts_with("abc", ""));
    assert!(starts_with("abc", "ab"));
    assert!(!starts_with("ab", "abc"));
    assert!(!starts_with("abc", "ac"));
}

#[test]
fn reports_come_in_the_order_of_the_phases() {
    assert_eq!(
        gather_reports(
            vec!["c1".to_string(), "c2".to_string()],
            vec![None, Some("t1".to_string()), None, Some("t2".to_string())],
            vec!["m1".to_string()]
        ),
        vec!["c1", "c2", "t1", "t2", "m1"]
    );
    assert_eq!(gather_reports(Vec::new(), vec![None, None], Vec::new()), Vec::<String>::new());
}
