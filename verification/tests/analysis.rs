use icelang_ls::analyzer::{analyze, AnalyzeResult, Identifier};
use icelang_ls::diagnostic::{Diagnostic, DiagnosticTag, Severity};
use icelang_ls::position::{Position, Range};
use icelang_ls::tree::{NodeData, SyntaxTree, TreeBuilder};

fn rng(sl: u32, sc: u32, el: u32, ec: u32) -> Range {
    Range::new(Position::new(sl, sc), Position::new(el, ec))
}

fn node(kind: &str, text: &str, r: Range) -> NodeData {
    NodeData {
        kind: kind.to_string(),
        text: text.to_string(),
        start: r.start,
        end: r.end,
        is_named: true,
        is_error: false,
        is_missing: false,
        field: None,
        parent: None,
        children: Vec::new(),
    }
}

fn field_node(kind: &str, text: &str, r: Range, field: &str) -> NodeData {
    let mut n = node(kind, text, r);
    n.field = Some(field.to_string());
    n
}

fn root(width: u32) -> TreeBuilder {
    TreeBuilder::new(node("source_file", "", rng(0, 0, 0, width)))
}

/// `set <name> = <literal>;` under `parent`; returns the declaration node.
fn add_var_decl(b: &mut TreeBuilder, parent: usize, name: &str, r: Range, name_r: Range) -> usize {
    let decl = b.add_child(parent, node("stmt_var_decl", "", r));
    b.add_child(decl, field_node("expr_identifier", name, name_r, "name"));
    let vr = rng(r.end.line, r.end.character - 2, r.end.line, r.end.character - 1);
    b.add_child(decl, field_node("expr_literal", "1", vr, "value"));
    decl
}

fn check(d: &Diagnostic, severity: Severity, message: &str, r: Range) {
    assert_eq!(d.severity, severity, "severity of {:?}", d.message);
    assert_eq!(d.message, message);
    assert_eq!(d.range, r);
    assert_eq!(d.source, "icelang_ls");
}

// Redeclaring a name in the same scope fails the second insert and yields
// exactly one redeclaration error at the second name's range.
#[test]
fn redeclaration_reported_once() {
    let mut b = root(22);
    add_var_decl(&mut b, 0, "x", rng(0, 0, 0, 10), rng(0, 4, 0, 5));
    add_var_decl(&mut b, 0, "x", rng(0, 11, 0, 21), rng(0, 15, 0, 16));
    let result = analyze(&b.build());
    assert_eq!(result.diagnostics.len(), 2);
    check(
        &result.diagnostics[0],
        Severity::Error,
        "Redeclaring existing identifier 'x'",
        rng(0, 15, 0, 16),
    );
    check(&result.diagnostics[1], Severity::Hint, "'x' is never used", rng(0, 4, 0, 5));
}

// `function f() { return g(); } function g() { return 1; }`: the call to
// `g` inside `f` resolves although `g` is declared later (hoisting).
#[test]
fn hoisting_resolves_forward_call() {
    let mut b = root(56);
    let f = b.add_child(0, node("stmt_func_decl", "", rng(0, 0, 0, 28)));
    b.add_child(f, field_node("expr_identifier", "f", rng(0, 9, 0, 10), "name"));
    b.add_child(f, field_node("args", "()", rng(0, 10, 0, 12), "args"));
    let f_body = b.add_child(f, field_node("stmt_block", "", rng(0, 13, 0, 28), "body"));
    let ret = b.add_child(f_body, node("stmt_return", "", rng(0, 15, 0, 26)));
    let call = b.add_child(ret, node("expr_call", "g()", rng(0, 22, 0, 25)));
    b.add_child(call, node("expr_identifier", "g", rng(0, 22, 0, 23)));
    b.add_child(call, field_node("args", "()", rng(0, 23, 0, 25), "args"));
    let g = b.add_child(0, node("stmt_func_decl", "", rng(0, 29, 0, 55)));
    b.add_child(g, field_node("expr_identifier", "g", rng(0, 38, 0, 39), "name"));
    b.add_child(g, field_node("args", "()", rng(0, 39, 0, 41), "args"));
    let g_body = b.add_child(g, field_node("stmt_block", "", rng(0, 42, 0, 55), "body"));
    let ret2 = b.add_child(g_body, node("stmt_return", "", rng(0, 44, 0, 53)));
    b.add_child(ret2, node("expr_literal", "1", rng(0, 51, 0, 52)));
    let result = analyze(&b.build());
    assert!(
        !result.diagnostics.iter().any(|d| d.message.starts_with("Undeclared")),
        "the forward call to g must resolve"
    );
    assert_eq!(result.diagnostics.len(), 1);
    check(&result.diagnostics[0], Severity::Hint, "'f' is never used", rng(0, 9, 0, 10));
}

// `set x = x;`: the right-hand `x` is undeclared — a variable is not
// visible inside its own initializer.
#[test]
fn variable_invisible_in_own_initializer() {
    let mut b = root(10);
    let decl = b.add_child(0, node("stmt_var_decl", "", rng(0, 0, 0, 10)));
    b.add_child(decl, field_node("expr_identifier", "x", rng(0, 4, 0, 5), "name"));
    b.add_child(decl, field_node("expr_identifier", "x", rng(0, 8, 0, 9), "value"));
    let result = analyze(&b.build());
    assert_eq!(result.diagnostics.len(), 2);
    check(
        &result.diagnostics[0],
        Severity::Error,
        "Undeclared identifier 'x'",
        rng(0, 8, 0, 9),
    );
    check(&result.diagnostics[1], Severity::Hint, "'x' is never used", rng(0, 4, 0, 5));
}

fn scope_leak_tree() -> SyntaxTree {
    let mut b = root(30);
    let block = b.add_child(0, node("stmt_block", "", rng(0, 0, 0, 14)));
    add_var_decl(&mut b, block, "y", rng(0, 2, 0, 12), rng(0, 6, 0, 7));
    let stmt = b.add_child(0, node("stmt_expression", "", rng(0, 15, 0, 17)));
    b.add_child(stmt, node("expr_identifier", "y", rng(0, 15, 0, 16)));
    add_var_decl(&mut b, 0, "y", rng(0, 18, 0, 28), rng(0, 22, 0, 23));
    b.build()
}

// A variable declared inside a block is undeclared outside that block,
// even though a module-level declaration of the same name comes later.
#[test]
fn block_scope_does_not_leak() {
    let result = analyze(&scope_leak_tree());
    assert_eq!(result.diagnostics.len(), 5);
    check(&result.diagnostics[0], Severity::Warning, "Unused result", rng(0, 15, 0, 17));
    check(
        &result.diagnostics[1],
        Severity::Hint,
        "Consider assigning the resulting value",
        rng(0, 15, 0, 17),
    );
    check(
        &result.diagnostics[2],
        Severity::Error,
        "Undeclared identifier 'y'",
        rng(0, 15, 0, 16),
    );
    check(&result.diagnostics[3], Severity::Hint, "'y' is never used", rng(0, 6, 0, 7));
    check(&result.diagnostics[4], Severity::Hint, "'y' is never used", rng(0, 22, 0, 23));
}

// `loop { break; print(1); }` yields exactly one unreachable-code hint
// spanning `print(1);`.
#[test]
fn break_marks_following_unreachable() {
    let mut b = root(25);
    let lp = b.add_child(0, node("stmt_loop", "", rng(0, 0, 0, 25)));
    let block = b.add_child(lp, node("stmt_block", "", rng(0, 5, 0, 25)));
    b.add_child(block, node("stmt_break", "break;", rng(0, 7, 0, 13)));
    let stmt = b.add_child(block, node("stmt_expression", "", rng(0, 14, 0, 23)));
    let call = b.add_child(stmt, node("expr_call", "print(1)", rng(0, 14, 0, 22)));
    b.add_child(call, node("expr_identifier", "print", rng(0, 14, 0, 19)));
    let args = b.add_child(call, field_node("args", "(1)", rng(0, 19, 0, 22), "args"));
    b.add_child(args, node("expr_literal", "1", rng(0, 20, 0, 21)));
    let result = analyze(&b.build());
    assert_eq!(result.diagnostics.len(), 1);
    check(&result.diagnostics[0], Severity::Hint, "Unreachable code", rng(0, 14, 0, 23));
    assert_eq!(result.diagnostics[0].tags, Some(vec![DiagnosticTag::Unnecessary]));
}

// A declared, never-referenced variable yields exactly one unused hint.
#[test]
fn unused_variable_hinted_once() {
    let mut b = root(10);
    add_var_decl(&mut b, 0, "a", rng(0, 0, 0, 10), rng(0, 4, 0, 5));
    let result = analyze(&b.build());
    assert_eq!(result.diagnostics.len(), 1);
    check(&result.diagnostics[0], Severity::Hint, "'a' is never used", rng(0, 4, 0, 5));
}

// Referencing the variable once suppresses the unused hint.
#[test]
fn referenced_variable_not_hinted() {
    let mut b = root(14);
    add_var_decl(&mut b, 0, "a", rng(0, 0, 0, 10), rng(0, 4, 0, 5));
    let stmt = b.add_child(0, node("stmt_expression", "", rng(0, 11, 0, 13)));
    b.add_child(stmt, node("expr_identifier", "a", rng(0, 11, 0, 12)));
    let result = analyze(&b.build());
    assert!(!result.diagnostics.iter().any(|d| d.message.contains("is never used")));
    assert!(!result.diagnostics.iter().any(|d| d.message.starts_with("Undeclared")));
}

fn same_diagnostics(a: &[Diagnostic], b: &[Diagnostic]) -> bool {
    a.len() == b.len()
        && a.iter().zip(b.iter()).all(|(x, y)| {
            x.message == y.message && x.severity == y.severity && x.range == y.range
                && x.source == y.source && x.tags == y.tags
        })
}

// Analyzing the same tree twice produces identical diagnostics and a
// symbol table that answers every query identically.
#[test]
fn analysis_is_idempotent() {
    let tree = scope_leak_tree();
    let first: AnalyzeResult = analyze(&tree);
    let second: AnalyzeResult = analyze(&tree);
    assert!(same_diagnostics(&first.diagnostics, &second.diagnostics));
    let at = Position::new(0, 29);
    let c1 = first.declarations.get_declared_at(at);
    let c2 = second.declarations.get_declared_at(at);
    assert_eq!(c1.len(), c2.len());
    for (d1, d2) in c1.iter().zip(c2.iter()) {
        assert_eq!(d1.name, d2.name);
        assert_eq!(d1.range, d2.range);
        assert_eq!(d1.name_range, d2.name_range);
        assert_eq!(d1.used, d2.used);
    }
    let u1: Vec<String> = first.declarations.get_unused().into_iter().map(|d| d.name).collect();
    let u2: Vec<String> = second.declarations.get_unused().into_iter().map(|d| d.name).collect();
    assert_eq!(u1, u2);
}

// Two declarations of `x` in nested scopes: completion inside the inner
// scope returns the inner declaration, not the outer one.
#[test]
fn completion_prefers_inner_declaration() {
    let mut b = root(42);
    let outer = b.add_child(0, node("stmt_block", "", rng(0, 0, 0, 40)));
    add_var_decl(&mut b, outer, "x", rng(0, 2, 0, 12), rng(0, 6, 0, 7));
    let inner = b.add_child(outer, node("stmt_block", "", rng(0, 13, 0, 38)));
    add_var_decl(&mut b, inner, "x", rng(0, 15, 0, 25), rng(0, 19, 0, 20));
    let result = analyze(&b.build());
    let completions = result.declarations.get_declared_at(Position::new(0, 27));
    let xs: Vec<_> = completions.iter().filter(|d| d.name == "x").collect();
    assert_eq!(xs.len(), 1);
    assert_eq!(xs[0].range, rng(0, 15, 0, 25));
    assert_eq!(xs[0].name_range, rng(0, 19, 0, 20));
}

// A reserved keyword used as a declaration name is rejected.
#[test]
fn keyword_declaration_name_rejected() {
    let mut b = root(17);
    add_var_decl(&mut b, 0, "function", rng(0, 0, 0, 17), rng(0, 4, 0, 12));
    let result = analyze(&b.build());
    check(
        &result.diagnostics[0],
        Severity::Error,
        "Invalid identifier name",
        rng(0, 4, 0, 12),
    );
}

#[test]
fn continue_outside_loop_is_error() {
    let mut b = root(9);
    b.add_child(0, node("stmt_continue", "continue;", rng(0, 0, 0, 9)));
    let result = analyze(&b.build());
    assert_eq!(result.diagnostics.len(), 1);
    check(
        &result.diagnostics[0],
        Severity::Error,
        "continue outside of a loop",
        rng(0, 0, 0, 9),
    );
}

#[test]
fn break_outside_loop_is_error() {
    let mut b = root(6);
    b.add_child(0, node("stmt_break", "break;", rng(0, 0, 0, 6)));
    let result = analyze(&b.build());
    assert_eq!(result.diagnostics.len(), 1);
    check(&result.diagnostics[0], Severity::Error, "break outside of a loop", rng(0, 0, 0, 6));
}

#[test]
fn return_outside_function_is_error() {
    let mut b = root(7);
    b.add_child(0, node("stmt_return", "return;", rng(0, 0, 0, 7)));
    let result = analyze(&b.build());
    assert_eq!(result.diagnostics.len(), 1);
    check(
        &result.diagnostics[0],
        Severity::Error,
        "return outside of a function",
        rng(0, 0, 0, 7),
    );
}

#[test]
fn empty_match_is_hinted() {
    let mut b = root(10);
    let m = b.add_child(0, node("expr_match", "", rng(0, 0, 0, 10)));
    b.add_child(m, field_node("match_body", "{}", rng(0, 8, 0, 10), "body"));
    let result = analyze(&b.build());
    assert_eq!(result.diagnostics.len(), 1);
    check(&result.diagnostics[0], Severity::Hint, "Empty match expression", rng(0, 0, 0, 10));
}

#[test]
fn multiline_string_reported_at_both_ends() {
    let mut b = root(20);
    let lit = b.add_child(0, node("expr_literal", "", rng(0, 0, 1, 5)));
    b.add_child(lit, node("string", "'a\nb'", rng(0, 0, 1, 5)));
    let result = analyze(&b.build());
    assert_eq!(result.diagnostics.len(), 2);
    check(&result.diagnostics[0], Severity::Error, "Undelimited string", rng(0, 0, 0, 0));
    check(&result.diagnostics[1], Severity::Error, "Undelimited string", rng(1, 5, 1, 5));
}

// A discarded expression value is warned about, except in the final
// (implicitly returned) statement of a block.
#[test]
fn discarded_value_warned_except_last_in_block() {
    let mut b = root(20);
    let block = b.add_child(0, node("stmt_block", "", rng(0, 0, 0, 20)));
    let s1 = b.add_child(block, node("stmt_expression", "", rng(0, 2, 0, 4)));
    b.add_child(s1, node("expr_literal", "1", rng(0, 2, 0, 3)));
    let s2 = b.add_child(block, node("stmt_expression", "", rng(0, 5, 0, 7)));
    b.add_child(s2, node("expr_literal", "2", rng(0, 5, 0, 6)));
    let result = analyze(&b.build());
    assert_eq!(result.diagnostics.len(), 2);
    check(&result.diagnostics[0], Severity::Warning, "Unused result", rng(0, 2, 0, 4));
    check(
        &result.diagnostics[1],
        Severity::Hint,
        "Consider assigning the resulting value",
        rng(0, 2, 0, 4),
    );
}

// An assignment is not a discarded value; any other binary operator is.
#[test]
fn assignment_not_warned_other_binary_warned() {
    let mut b = root(20);
    let s1 = b.add_child(0, node("stmt_expression", "", rng(0, 0, 0, 6)));
    let bin1 = b.add_child(s1, node("expr_binary", "x = 1", rng(0, 0, 0, 5)));
    b.add_child(bin1, field_node("operator", "=", rng(0, 2, 0, 3), "operator"));
    let s2 = b.add_child(0, node("stmt_expression", "", rng(0, 7, 0, 13)));
    let bin2 = b.add_child(s2, node("expr_binary", "1 + 2", rng(0, 7, 0, 12)));
    b.add_child(bin2, field_node("operator", "+", rng(0, 9, 0, 10), "operator"));
    let result = analyze(&b.build());
    assert_eq!(result.diagnostics.len(), 2);
    check(&result.diagnostics[0], Severity::Warning, "Unused result", rng(0, 7, 0, 13));
    check(
        &result.diagnostics[1],
        Severity::Hint,
        "Consider assigning the resulting value",
        rng(0, 7, 0, 13),
    );
}

#[test]
fn missing_identifier_after_dot_expects_field() {
    let mut b = root(5);
    let fld = b.add_child(0, node("expr_field", ".", rng(0, 1, 0, 2)));
    let mut missing = field_node("expr_identifier", "", rng(0, 2, 0, 2), "field");
    missing.is_missing = true;
    b.add_child(fld, missing);
    let result = analyze(&b.build());
    assert_eq!(result.diagnostics.len(), 1);
    check(&result.diagnostics[0], Severity::Error, "Expected field name", rng(0, 2, 0, 2));
}

#[test]
fn missing_token_reported_with_kind() {
    let mut b = root(10);
    let block = b.add_child(0, node("stmt_block", "", rng(0, 0, 1, 0)));
    let mut missing = node("}", "", rng(1, 0, 1, 0));
    missing.is_missing = true;
    missing.is_named = false;
    b.add_child(block, missing);
    let result = analyze(&b.build());
    assert_eq!(result.diagnostics.len(), 1);
    check(&result.diagnostics[0], Severity::Error, "Missing '}'", rng(1, 0, 1, 0));
}

#[test]
fn error_node_reports_syntax_error() {
    let mut b = root(6);
    let mut err = node("ERROR", "x", rng(0, 0, 0, 5));
    err.is_error = true;
    let e = b.add_child(0, err);
    b.add_child(e, node("expr_identifier", "x", rng(0, 0, 0, 1)));
    let result = analyze(&b.build());
    assert_eq!(result.diagnostics.len(), 2);
    check(&result.diagnostics[0], Severity::Error, "Syntax error", rng(0, 0, 0, 1));
    check(
        &result.diagnostics[1],
        Severity::Error,
        "Undeclared identifier 'x'",
        rng(0, 0, 0, 1),
    );
}

// A plain (non-error) first named child of an error node is still a
// syntax error, reported at the child's range.
#[test]
fn error_node_with_plain_child_is_syntax_error() {
    let mut b = root(6);
    let mut err = node("ERROR", "+", rng(0, 0, 0, 5));
    err.is_error = true;
    let e = b.add_child(0, err);
    b.add_child(e, node("expr_binary", "+", rng(0, 2, 0, 3)));
    let result = analyze(&b.build());
    assert_eq!(result.diagnostics.len(), 1);
    check(&result.diagnostics[0], Severity::Error, "Syntax error", rng(0, 2, 0, 3));
}

// Only when the first named child is itself an error cluster does the
// outer error node report an unexpected token.
#[test]
fn error_node_with_error_child_is_unexpected() {
    let mut b = root(8);
    let mut err = node("ERROR", "@ #", rng(0, 0, 0, 5));
    err.is_error = true;
    let e = b.add_child(0, err);
    let mut cluster = node("ERROR", "#", rng(0, 2, 0, 3));
    cluster.is_error = true;
    b.add_child(e, cluster);
    let result = analyze(&b.build());
    // The outer node reports the cluster as unexpected; the cluster, being
    // an error node without named children, then reports itself.
    assert_eq!(result.diagnostics.len(), 2);
    check(&result.diagnostics[0], Severity::Error, "Unexpected token", rng(0, 2, 0, 3));
    check(&result.diagnostics[1], Severity::Error, "Syntax error", rng(0, 2, 0, 3));
}

// Resolution picks the innermost of two applicable declarations: the
// shadowed outer variable stays unused, the inner one is marked used.
#[test]
fn resolution_marks_innermost_declaration() {
    let mut b = root(42);
    let outer = b.add_child(0, node("stmt_block", "", rng(0, 0, 0, 40)));
    add_var_decl(&mut b, outer, "x", rng(0, 2, 0, 12), rng(0, 6, 0, 7));
    let inner = b.add_child(outer, node("stmt_block", "", rng(0, 13, 0, 38)));
    add_var_decl(&mut b, inner, "x", rng(0, 15, 0, 25), rng(0, 19, 0, 20));
    let stmt = b.add_child(inner, node("stmt_expression", "", rng(0, 26, 0, 28)));
    b.add_child(stmt, node("expr_identifier", "x", rng(0, 26, 0, 27)));
    let result = analyze(&b.build());
    assert_eq!(result.diagnostics.len(), 1);
    check(&result.diagnostics[0], Severity::Hint, "'x' is never used", rng(0, 6, 0, 7));
}

// Function parameters are registered, usable in the body, and reported
// unused when never referenced; the synthetic receiver is never reported.
#[test]
fn function_parameters_scoped_to_body() {
    let mut b = root(30);
    let f = b.add_child(0, node("stmt_func_decl", "", rng(0, 0, 0, 30)));
    b.add_child(f, field_node("expr_identifier", "h", rng(0, 9, 0, 10), "name"));
    let args = b.add_child(f, field_node("args", "(a, b)", rng(0, 10, 0, 15), "args"));
    b.add_child(args, node("expr_identifier", "a", rng(0, 11, 0, 12)));
    b.add_child(args, node("expr_identifier", "b", rng(0, 13, 0, 14)));
    let body = b.add_child(f, field_node("stmt_block", "", rng(0, 16, 0, 30), "body"));
    let stmt = b.add_child(body, node("stmt_expression", "", rng(0, 18, 0, 20)));
    b.add_child(stmt, node("expr_identifier", "a", rng(0, 18, 0, 19)));
    let result = analyze(&b.build());
    assert_eq!(result.diagnostics.len(), 2);
    check(&result.diagnostics[0], Severity::Hint, "'b' is never used", rng(0, 13, 0, 14));
    check(&result.diagnostics[1], Severity::Hint, "'h' is never used", rng(0, 9, 0, 10));
    let h = result
        .declarations
        .get(&Identifier { name: "h".to_string(), range: rng(1, 0, 1, 1) })
        .expect("h visible after its declaration");
    assert_eq!(h.get_details(), "function h(a, b) {}");
}

// For-loop iterator bindings are registered, scoped to the loop body, and
// resolvable from inside it.
#[test]
fn for_loop_bindings_resolve_in_body() {
    let mut b = root(30);
    let f = b.add_child(0, node("stmt_for", "", rng(0, 0, 0, 30)));
    let it = b.add_child(f, field_node("iterator", "i", rng(0, 4, 0, 9), "iterator"));
    b.add_child(it, node("expr_identifier", "i", rng(0, 4, 0, 5)));
    let body = b.add_child(f, field_node("stmt_block", "", rng(0, 12, 0, 30), "body"));
    let stmt = b.add_child(body, node("stmt_expression", "", rng(0, 14, 0, 28)));
    let call = b.add_child(stmt, node("expr_call", "print(i)", rng(0, 14, 0, 27)));
    b.add_child(call, node("expr_identifier", "print", rng(0, 14, 0, 19)));
    let args = b.add_child(call, field_node("args", "(i)", rng(0, 19, 0, 27), "args"));
    b.add_child(args, node("expr_identifier", "i", rng(0, 20, 0, 21)));
    let result = analyze(&b.build());
    assert!(result.diagnostics.is_empty(), "got: {:?}", result.diagnostics);
}

// A lambda-valued variable becomes visible at the lambda's body start, and
// the lambda's parameters resolve inside its body.
#[test]
fn lambda_value_visibility_and_params() {
    let mut b = root(24);
    let decl = b.add_child(0, node("stmt_var_decl", "", rng(0, 0, 0, 24)));
    b.add_child(decl, field_node("expr_identifier", "f", rng(0, 4, 0, 5), "name"));
    let lam = b.add_child(decl, field_node("expr_lambda", "", rng(0, 8, 0, 24), "value"));
    let args = b.add_child(lam, field_node("args", "(x)", rng(0, 14, 0, 17), "args"));
    b.add_child(args, node("expr_identifier", "x", rng(0, 15, 0, 16)));
    let body = b.add_child(lam, field_node("stmt_block", "", rng(0, 18, 0, 24), "body"));
    let stmt = b.add_child(body, node("stmt_expression", "", rng(0, 20, 0, 22)));
    b.add_child(stmt, node("expr_identifier", "x", rng(0, 20, 0, 21)));
    let result = analyze(&b.build());
    assert_eq!(result.diagnostics.len(), 1);
    check(&result.diagnostics[0], Severity::Hint, "'f' is never used", rng(0, 4, 0, 5));
    let f = result
        .declarations
        .get(&Identifier { name: "f".to_string(), range: rng(0, 19, 0, 20) })
        .expect("f visible from the lambda body start onward");
    assert_eq!(f.range, rng(0, 0, 0, 18));
}
