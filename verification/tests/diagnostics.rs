use icelang_ls::ast::NodeType;
use icelang_ls::builtins::{builtin_functions, is_keyword, keywords, BuiltinFn};
use icelang_ls::diagnostic::{
    error, hint, warn, DiagnosticTag, ErrorKind, HintKind, Severity, WarnKind,
};
use icelang_ls::position::{Position, Range};

fn rng(sl: u32, sc: u32, el: u32, ec: u32) -> Range {
    Range::new(Position::new(sl, sc), Position::new(el, ec))
}

#[test]
fn classifier_maps_known_kinds() {
    assert_eq!(NodeType::from_kind(&"stmt_block".to_string()), NodeType::StmtBlock);
    assert_eq!(NodeType::from_kind(&"stmt_var_decl".to_string()), NodeType::StmtVarDecl);
    assert_eq!(NodeType::from_kind(&"stmt_func_decl".to_string()), NodeType::StmtFuncDecl);
    assert_eq!(NodeType::from_kind(&"stmt_expression".to_string()), NodeType::StmtExpression);
    assert_eq!(NodeType::from_kind(&"expr_lambda".to_string()), NodeType::ExprLambda);
    assert_eq!(NodeType::from_kind(&"args".to_string()), NodeType::Args);
    assert_eq!(NodeType::from_kind(&"iterator".to_string()), NodeType::Iterator);
    assert_eq!(NodeType::from_kind(&"ERROR".to_string()), NodeType::Error);
}

#[test]
fn classifier_is_total() {
    assert_eq!(NodeType::from_kind(&"no_such_kind".to_string()), NodeType::Unnamed);
    assert_eq!(NodeType::from_kind(&"".to_string()), NodeType::Unnamed);
    assert_eq!(NodeType::from_kind(&"error".to_string()), NodeType::Unnamed);
}

#[test]
fn loop_and_function_categories() {
    assert!(NodeType::StmtFor.is_loop());
    assert!(NodeType::StmtWhile.is_loop());
    assert!(NodeType::StmtLoop.is_loop());
    assert!(!NodeType::StmtFuncDecl.is_loop());
    assert!(NodeType::StmtFuncDecl.is_function_like());
    assert!(NodeType::ExprLambda.is_function_like());
    assert!(!NodeType::StmtBlock.is_function_like());
}

#[test]
fn error_messages_render_exactly() {
    assert_eq!(ErrorKind::SyntaxError.message(), "Syntax error");
    assert_eq!(ErrorKind::Unexpected.message(), "Unexpected token");
    assert_eq!(ErrorKind::ExpectedExpr.message(), "Expected expression");
    assert_eq!(ErrorKind::ExpectedField.message(), "Expected field name");
    assert_eq!(ErrorKind::UndelimitedStr.message(), "Undelimited string");
    assert_eq!(ErrorKind::Missing("}".to_string()).message(), "Missing '}'");
    assert_eq!(
        ErrorKind::Redeclaration("x".to_string()).message(),
        "Redeclaring existing identifier 'x'"
    );
    assert_eq!(ErrorKind::InvalidName.message(), "Invalid identifier name");
    assert_eq!(ErrorKind::Undeclared("foo".to_string()).message(), "Undeclared identifier 'foo'");
    assert_eq!(ErrorKind::ContinueOutside.message(), "continue outside of a loop");
    assert_eq!(ErrorKind::BreakOutside.message(), "break outside of a loop");
    assert_eq!(ErrorKind::ReturnOutside.message(), "return outside of a function");
}

#[test]
fn warn_and_hint_messages_render_exactly() {
    assert_eq!(WarnKind::UnusedResult.message(), "Unused result");
    assert_eq!(HintKind::Unreachable.message(), "Unreachable code");
    assert_eq!(HintKind::EmptyMatch.message(), "Empty match expression");
    assert_eq!(HintKind::Unused("n".to_string()).message(), "'n' is never used");
    assert_eq!(HintKind::Assign.message(), "Consider assigning the resulting value");
}

#[test]
fn error_constructor_sets_all_fields() {
    let d = error(ErrorKind::SyntaxError, rng(1, 2, 3, 4));
    assert_eq!(d.severity, Severity::Error);
    assert_eq!(d.message, "Syntax error");
    assert_eq!(d.range, rng(1, 2, 3, 4));
    assert_eq!(d.source, "icelang_ls");
    assert!(d.tags.is_none());
}

#[test]
fn warn_constructor_sets_all_fields() {
    let d = warn(WarnKind::UnusedResult, rng(0, 0, 0, 5));
    assert_eq!(d.severity, Severity::Warning);
    assert_eq!(d.message, "Unused result");
    assert!(d.tags.is_none());
}

#[test]
fn hint_constructor_tags_unnecessary() {
    let d = hint(HintKind::Unreachable, rng(0, 0, 0, 5));
    assert_eq!(d.severity, Severity::Hint);
    assert_eq!(d.message, "Unreachable code");
    assert_eq!(d.tags, Some(vec![DiagnosticTag::Unnecessary]));
}

#[test]
fn keywords_are_recognized() {
    let kws = keywords();
    assert_eq!(kws.len(), 14);
    assert_eq!(kws[0], "null");
    assert_eq!(kws[13], "match");
    for kw in &kws {
        assert!(is_keyword(kw));
    }
    assert!(!is_keyword(&"print".to_string()));
    assert!(!is_keyword(&"x".to_string()));
    assert!(!is_keyword(&"".to_string()));
}

#[test]
fn builtin_catalog_contents() {
    let fns = builtin_functions();
    assert_eq!(fns.len(), 12);
    let names: Vec<&str> = fns.iter().map(|f| f.name.as_str()).collect();
    assert_eq!(
        names,
        vec![
            "print",
            "readline",
            "import",
            "export",
            "type_of",
            "length",
            "parse_number",
            "sqrt",
            "floor",
            "round",
            "ceil",
            "pow"
        ]
    );
    assert_eq!(fns[0].args, vec!["args".to_string()]);
    assert!(fns[1].args.is_empty());
    assert_eq!(fns[11].args, vec!["number".to_string(), "exp".to_string()]);
    assert!(fns[0].doc.contains("standard output"));
}

#[test]
fn builtin_fn_new_owns_parts() {
    let b = BuiltinFn::new("sum", vec!["a", "b"], "Adds two numbers");
    assert_eq!(b.name, "sum");
    assert_eq!(b.args, vec!["a".to_string(), "b".to_string()]);
    assert_eq!(b.doc, "Adds two numbers");
}

#[test]
fn position_order_is_lexicographic() {
    let a = Position::new(1, 9);
    let b = Position::new(2, 0);
    let c = Position::new(2, 3);
    assert!(a.before(&b));
    assert!(b.before(&c));
    assert!(c.after(&a));
    assert!(!a.before(&a));
    assert!(!a.after(&a));
}
