use icelang_ls::analyzer::Identifier;
use icelang_ls::builtins::builtin_functions;
use icelang_ls::declarations::{
    is_declaration_at, Declaration, DeclarationKind, DeclarationMap,
};
use icelang_ls::position::{Position, Range};

fn rng(sl: u32, sc: u32, el: u32, ec: u32) -> Range {
    Range::new(Position::new(sl, sc), Position::new(el, ec))
}

fn var(name: &str, range: Range, scope: Option<Range>) -> Declaration {
    Declaration::new(name.to_string(), DeclarationKind::Variable, range, range, scope, false)
}

fn func(name: &str, args: Vec<&str>, range: Range, scope: Option<Range>) -> Declaration {
    let args = args.into_iter().map(|a| a.to_string()).collect();
    Declaration::new(name.to_string(), DeclarationKind::Function(args), range, range, scope, false)
}

fn ident(name: &str, range: Range) -> Identifier {
    Identifier { name: name.to_string(), range }
}

#[test]
fn insert_rejects_same_name_and_scope() {
    let mut map = DeclarationMap::new();
    assert!(map.insert(var("x", rng(0, 0, 0, 10), None)));
    assert!(!map.insert(var("x", rng(2, 0, 2, 10), None)));
    assert!(map.insert(var("x", rng(3, 0, 3, 10), Some(rng(3, 0, 5, 0)))));
    assert!(!map.insert(var("x", rng(4, 0, 4, 10), Some(rng(3, 0, 5, 0)))));
}

#[test]
fn insert_allows_same_name_in_distinct_scopes() {
    let mut map = DeclarationMap::new();
    assert!(map.insert(var("n", rng(0, 0, 0, 9), Some(rng(0, 0, 2, 0)))));
    assert!(map.insert(var("n", rng(3, 0, 3, 9), Some(rng(3, 0, 5, 0)))));
}

#[test]
fn variable_visible_only_after_declaration() {
    let d = var("x", rng(1, 0, 1, 10), None);
    assert!(!is_declaration_at(&d, Position::new(1, 5)));
    assert!(!is_declaration_at(&d, Position::new(1, 10)));
    assert!(!is_declaration_at(&d, Position::new(0, 3)));
    assert!(is_declaration_at(&d, Position::new(1, 11)));
    assert!(is_declaration_at(&d, Position::new(9, 0)));
}

#[test]
fn function_hoisted_outside_header() {
    // The header spans [start, end); the function is visible everywhere
    // outside it, including at the end position itself (the body start).
    let d = func("f", vec![], rng(5, 0, 5, 14), None);
    assert!(is_declaration_at(&d, Position::new(0, 0)));
    assert!(is_declaration_at(&d, Position::new(9, 0)));
    assert!(!is_declaration_at(&d, Position::new(5, 7)));
    assert!(!is_declaration_at(&d, Position::new(5, 0)));
    assert!(is_declaration_at(&d, Position::new(5, 14)));
}

#[test]
fn scope_confines_visibility() {
    let scope = rng(2, 0, 6, 0);
    let d = var("y", rng(3, 0, 3, 8), Some(scope));
    assert!(is_declaration_at(&d, Position::new(4, 0)));
    assert!(!is_declaration_at(&d, Position::new(7, 0)));
    assert!(!is_declaration_at(&d, Position::new(1, 0)));
    assert!(!is_declaration_at(&d, Position::new(2, 0)));
    assert!(!is_declaration_at(&d, Position::new(6, 0)));
}

#[test]
fn get_resolves_and_get_mut_marks_used() {
    let mut map = DeclarationMap::new();
    map.insert(var("x", rng(0, 0, 0, 10), None));
    let after = ident("x", rng(1, 0, 1, 1));
    let before = ident("x", rng(0, 4, 0, 5));
    assert!(map.get(&before).is_none());
    let found = map.get(&after).expect("visible after the declaration");
    assert!(!found.used);
    assert!(map.get_mut(&after));
    let again = map.get(&after).expect("still visible");
    assert!(again.used);
    assert!(!map.get_mut(&ident("nope", rng(1, 0, 1, 4))));
}

#[test]
fn builtins_resolve_everywhere_and_are_used() {
    let mut map = DeclarationMap::new();
    for f in builtin_functions() {
        let id = ident(&f.name, rng(4, 0, 4, 1));
        let d = map.get(&id).expect("builtin resolves");
        assert!(d.builtin);
        assert!(d.used);
        assert_eq!(d.name, f.name);
        assert!(d.scope.is_none());
        assert!(map.get_mut(&id));
        // No position constraint at all: even the document's very first
        // position resolves a builtin.
        let at_origin = ident(&f.name, rng(0, 0, 0, 0));
        assert!(map.get(&at_origin).is_some());
    }
    assert!(!map.get_declared_at(Position::new(0, 0)).is_empty());
}

#[test]
fn resolution_prefers_innermost_scope() {
    let mut map = DeclarationMap::new();
    // A module-level `x` and a block-scoped `x`, both visible inside the
    // block: the innermost enclosing scope wins.
    map.insert(var("x", rng(0, 0, 0, 10), None));
    map.insert(var("x", rng(2, 2, 2, 12), Some(rng(2, 0, 4, 0))));
    let inside = ident("x", rng(3, 0, 3, 1));
    let d = map.get(&inside).expect("visible inside the block");
    assert_eq!(d.scope, Some(rng(2, 0, 4, 0)));
    assert!(map.get_mut(&inside));
    let unused: Vec<Range> = map.get_unused().into_iter().map(|d| d.range).collect();
    assert_eq!(unused, vec![rng(0, 0, 0, 10)]);
    // Outside the block only the module-level declaration applies.
    let outside = ident("x", rng(5, 0, 5, 1));
    let d = map.get(&outside).expect("visible outside the block");
    assert!(d.scope.is_none());
}

#[test]
fn fresh_table_reports_nothing_unused() {
    let map = DeclarationMap::new();
    assert!(map.get_unused().is_empty());
}

#[test]
fn unused_reported_until_referenced() {
    let mut map = DeclarationMap::new();
    map.insert(var("a", rng(0, 0, 0, 9), None));
    map.insert(var("b", rng(1, 0, 1, 9), None));
    let unused: Vec<String> = map.get_unused().into_iter().map(|d| d.name).collect();
    assert_eq!(unused, vec!["a".to_string(), "b".to_string()]);
    assert!(map.get_mut(&ident("a", rng(2, 0, 2, 1))));
    let unused: Vec<String> = map.get_unused().into_iter().map(|d| d.name).collect();
    assert_eq!(unused, vec!["b".to_string()]);
}

#[test]
fn completion_prefers_nearest_declaration() {
    let mut map = DeclarationMap::new();
    let outer_scope = rng(0, 0, 9, 0);
    let inner_scope = rng(2, 0, 6, 0);
    map.insert(var("x", rng(1, 0, 1, 10), Some(outer_scope)));
    map.insert(var("x", rng(3, 0, 3, 10), Some(inner_scope)));
    let at = Position::new(4, 0);
    let completions = map.get_declared_at(at);
    let xs: Vec<&Declaration> = completions.iter().filter(|d| d.name == "x").collect();
    assert_eq!(xs.len(), 1);
    assert_eq!(xs[0].range, rng(3, 0, 3, 10));
}

#[test]
fn completion_lists_builtins_and_locals() {
    let mut map = DeclarationMap::new();
    map.insert(var("local", rng(0, 0, 0, 12), None));
    let completions = map.get_declared_at(Position::new(2, 0));
    assert_eq!(completions.len(), 13);
    assert!(completions.iter().any(|d| d.name == "local"));
    assert!(completions.iter().any(|d| d.name == "print" && d.builtin));
}

#[test]
fn completion_excludes_out_of_scope() {
    let mut map = DeclarationMap::new();
    map.insert(var("inner", rng(1, 2, 1, 12), Some(rng(1, 0, 2, 0))));
    let completions = map.get_declared_at(Position::new(5, 0));
    assert!(!completions.iter().any(|d| d.name == "inner"));
}

#[test]
fn details_render_signatures() {
    let v = var("count", rng(0, 0, 0, 9), None);
    assert_eq!(v.get_details(), "variable: count");
    let f = func("add", vec!["a", "b"], rng(0, 0, 0, 14), None);
    assert_eq!(f.get_details(), "function add(a, b) {}");
    let p = Declaration::new(
        "arg".to_string(),
        DeclarationKind::Variable,
        rng(0, 0, 0, 3),
        rng(0, 0, 0, 3),
        None,
        true,
    );
    assert_eq!(p.get_details(), "parameter: arg");
    let map = DeclarationMap::new();
    let pow = map.get(&ident("pow", rng(3, 0, 3, 3))).expect("pow is builtin");
    assert_eq!(pow.get_details(), "function pow(number, exp) {} -- builtin function");
    let sole = map.get(&ident("readline", rng(3, 0, 3, 8))).expect("readline is builtin");
    assert_eq!(sole.get_details(), "function readline() {} -- builtin function");
}

#[test]
fn kind_is_function() {
    assert!(DeclarationKind::Function(vec![]).is_function());
    assert!(!DeclarationKind::Variable.is_function());
}

#[test]
fn builtin_declarations_carry_documentation() {
    let map = DeclarationMap::new();
    let d = map.get(&ident("sqrt", rng(1, 0, 1, 4))).expect("sqrt is builtin");
    assert_eq!(d.doc.as_deref(), Some("Returns the square root of a number"));
    assert!(d.kind.is_function());
}
