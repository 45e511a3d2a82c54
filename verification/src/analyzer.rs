//! The analyzer: a single depth-first walk over the syntax tree that
//! collects diagnostics, registers declarations, and records identifier
//! references, followed by a resolution pass and an unused-declaration
//! pass.
//!
//! Every step is specified as a function from analysis state to analysis
//! state ([`AState`]); [`analysis_of`] composes them and fixes the entire
//! result of [`analyze`] as a function of the tree alone. The walk never
//! stops on malformed input: a node that lacks an expected field simply
//! contributes nothing beyond the diagnostics already emitted for it.

use vstd::prelude::*;

use crate::ast::{classify, NodeType};
use crate::builtins::{is_keyword, keyword_names};
use crate::declarations::{
    initial_map, insert_spec, resolve_mark_spec, unused_spec, BucketV, Declaration,
    DeclarationKind, DeclarationMap, DeclV, KindV,
};
use crate::diagnostic::{
    error, error_diag, hint, hint_diag, warn, warn_diag, DiagV, Diagnostic, ErrorKind, ErrorKindV,
    HintKind, HintKindV, WarnKind,
};
use crate::position::{nil_range, Position, Range};
use crate::tree::{
    field_child, following_named_of, get_node_range, in_function, in_loop,
    lemma_following_in_range, lemma_named_children_in_range, named_children_of, node_range, tree_wf,
    wf_node, NodeData, SyntaxTree,
};

verus! {

/// One identifier use recorded during the walk: its text and its range.
/// References are queued and resolved against the symbol table after the
/// walk completes.
#[derive(Debug, Clone)]
pub struct Identifier {
    pub name: String,
    pub range: Range,
}

/// Mathematical form of [`Identifier`].
#[verifier::ext_equal]
pub ghost struct IdentV {
    pub name: Seq<char>,
    pub range: Range,
}

impl View for Identifier {
    type V = IdentV;

    open spec fn view(&self) -> IdentV {
        IdentV { name: self.name@, range: self.range }
    }
}

/// The views of a sequence of diagnostics, element by element.
pub open spec fn diags_view(v: Seq<Diagnostic>) -> Seq<DiagV> {
    v.map_values(|d: Diagnostic| d@)
}

/// The views of a sequence of identifiers, element by element.
pub open spec fn idents_view(v: Seq<Identifier>) -> Seq<IdentV> {
    v.map_values(|d: Identifier| d@)
}

/// The analysis state carried through the walk: the diagnostics so far,
/// the symbol table so far, and the identifier references queued so far.
#[verifier::ext_equal]
pub ghost struct AState {
    pub diags: Seq<DiagV>,
    pub map: Seq<BucketV>,
    pub idents: Seq<IdentV>,
}

/// The enclosing scope of a declaration at node `i`: its parent's range
/// when the parent is a block, otherwise module level.
pub open spec fn scope_of(t: Seq<NodeData>, i: int) -> Option<Range> {
    match t[i].parent {
        Some(p) => if classify(t[p as int].kind@) == NodeType::StmtBlock {
            Some(node_range(t, p as int))
        } else {
            None
        },
        None => None,
    }
}

/// The diagnostics that a syntax-error or missing node contributes: an
/// error node yields `SyntaxError` (or `Unexpected` when its first named
/// child is itself an error cluster), and a missing node yields
/// `ExpectedField`, `ExpectedExpr` or `Missing` depending on what was
/// expected where.
pub open spec fn syntax_error_effect(t: Seq<NodeData>, i: int, st: AState) -> AState {
    let st1 = if t[i].is_error {
        let nc = named_children_of(t, i);
        let d = if nc.len() == 0 {
            error_diag(ErrorKindV::SyntaxError, node_range(t, i))
        } else {
            let c = nc[0] as int;
            if t[c].is_error {
                error_diag(ErrorKindV::Unexpected, node_range(t, c))
            } else {
                error_diag(ErrorKindV::SyntaxError, node_range(t, c))
            }
        };
        AState { diags: st.diags.push(d), ..st }
    } else {
        st
    };
    if t[i].is_missing {
        let d = if classify(t[i].kind@) == NodeType::ExprIdentifier {
            match t[i].parent {
                Some(p) => if t[p as int].text@ == "."@ {
                    error_diag(ErrorKindV::ExpectedField, node_range(t, i))
                } else {
                    error_diag(ErrorKindV::ExpectedExpr, node_range(t, i))
                },
                None => error_diag(ErrorKindV::ExpectedExpr, node_range(t, i)),
            }
        } else {
            error_diag(ErrorKindV::Missing(t[i].kind@), node_range(t, i))
        };
        AState { diags: st1.diags.push(d), ..st1 }
    } else {
        st1
    }
}

/// The warning and hint that an expression statement contributes when its
/// value is definitely discarded: the inner expression is a literal,
/// identifier, unary, or non-assignment binary expression, and the
/// statement is not the final statement of its enclosing block.
pub open spec fn expression_effect(t: Seq<NodeData>, i: int, st: AState) -> AState {
    let nc = named_children_of(t, i);
    if nc.len() == 0 {
        st
    } else {
        let child = nc[0] as int;
        let node_type = classify(t[child].kind@);
        let return_value = match t[i].parent {
            Some(p) => classify(t[p as int].kind@) == NodeType::StmtBlock && {
                let pnc = named_children_of(t, p as int);
                pnc.len() > 0 && pnc.last() as int == i
            },
            None => false,
        };
        let unused = match node_type {
            NodeType::ExprBinary => match field_child(t, child, "operator"@) {
                Some(op) => t[op as int].text@ != "="@,
                None => false,
            },
            NodeType::ExprUnary => true,
            NodeType::ExprLiteral => true,
            NodeType::ExprIdentifier => true,
            _ => false,
        };
        if !return_value && unused {
            AState {
                diags: st.diags.push(warn_diag(WarnKind::UnusedResult, node_range(t, i))).push(
                    hint_diag(HintKindV::Assign, node_range(t, i)),
                ),
                ..st
            }
        } else {
            st
        }
    }
}

/// The two errors that a string literal spanning several lines
/// contributes, one at its opening and one at its closing position.
pub open spec fn literal_effect(t: Seq<NodeData>, i: int, st: AState) -> AState {
    let nc = named_children_of(t, i);
    if nc.len() == 0 {
        st
    } else {
        let c = nc[0] as int;
        if t[c].kind@ == "string"@ && t[c].start.line != t[c].end.line {
            AState {
                diags: st.diags.push(
                    error_diag(
                        ErrorKindV::UndelimitedStr,
                        Range { start: t[c].start, end: t[c].start },
                    ),
                ).push(
                    error_diag(ErrorKindV::UndelimitedStr, Range { start: t[c].end, end: t[c].end }),
                ),
                ..st
            }
        } else {
            st
        }
    }
}

/// The hint that a match expression with an empty body contributes.
pub open spec fn match_effect(t: Seq<NodeData>, i: int, st: AState) -> AState {
    match field_child(t, i, "body"@) {
        Some(b) => if named_children_of(t, b as int).len() == 0 {
            AState { diags: st.diags.push(hint_diag(HintKindV::EmptyMatch, node_range(t, i))), ..st }
        } else {
            st
        },
        None => st,
    }
}

/// Whether an identifier node is no reference to be resolved: it is
/// zero-width, a declaration-site name, an argument name outside a call,
/// a field-access member, or an iterator binding.
pub open spec fn skip_identifier(t: Seq<NodeData>, i: int) -> bool {
    if t[i].start == t[i].end {
        true
    } else {
        match t[i].parent {
            Some(p) => match classify(t[p as int].kind@) {
                NodeType::StmtFuncDecl => true,
                NodeType::Iterator => true,
                NodeType::StmtVarDecl => field_child(t, p as int, "name"@) == Some(i as usize),
                NodeType::Prop => field_child(t, p as int, "name"@) == Some(i as usize),
                NodeType::Args => match t[p as int].parent {
                    Some(g) => classify(t[g as int].kind@) != NodeType::ExprCall,
                    None => false,
                },
                NodeType::ExprField => field_child(t, p as int, "field"@) == Some(i as usize),
                _ => false,
            },
            None => false,
        }
    }
}

/// The reference that an identifier node queues for later resolution,
/// unless it is skipped.
pub open spec fn identifier_effect(t: Seq<NodeData>, i: int, st: AState) -> AState {
    if skip_identifier(t, i) {
        st
    } else {
        AState {
            idents: st.idents.push(IdentV { name: t[i].text@, range: node_range(t, i) }),
            ..st
        }
    }
}

/// Inserts a sequence of declarations in order, dropping the
/// success flags (rejected redeclarations of parameters are ignored).
pub open spec fn insert_all(m: Seq<BucketV>, ds: Seq<DeclV>) -> Seq<BucketV>
    decreases ds.len(),
{
    if ds.len() == 0 {
        m
    } else {
        insert_spec(insert_all(m, ds.drop_last()), ds.last()).0
    }
}

/// The declaration of one function or lambda parameter: a variable scoped
/// to the function body, spanning the argument list, always a parameter.
pub open spec fn param_decl(t: Seq<NodeData>, c: usize, args_range: Range, body_range: Range) -> DeclV {
    DeclV {
        name: t[c as int].text@,
        name_range: node_range(t, c as int),
        kind: KindV::Variable,
        doc: None,
        used: false,
        range: args_range,
        scope: Some(body_range),
        builtin: false,
        param: true,
    }
}

/// The parameter declarations gathered from the named children `cs` of an
/// argument list, in order, skipping syntax-error nodes.
pub open spec fn params_in(t: Seq<NodeData>, cs: Seq<usize>, args_range: Range, body_range: Range) -> Seq<DeclV>
    decreases cs.len(),
{
    if cs.len() == 0 {
        seq![]
    } else {
        params_in(t, cs.drop_last(), args_range, body_range) + if !t[cs.last() as int].is_error {
            seq![param_decl(t, cs.last(), args_range, body_range)]
        } else {
            Seq::<DeclV>::empty()
        }
    }
}

/// The parameter names gathered from the named children `cs` of an
/// argument list, in order, skipping syntax-error nodes.
pub open spec fn param_names_in(t: Seq<NodeData>, cs: Seq<usize>) -> Seq<Seq<char>>
    decreases cs.len(),
{
    if cs.len() == 0 {
        seq![]
    } else {
        param_names_in(t, cs.drop_last()) + if !t[cs.last() as int].is_error {
            seq![t[cs.last() as int].text@]
        } else {
            Seq::<Seq<char>>::empty()
        }
    }
}

/// The synthetic receiver declaration registered alongside every
/// function's or lambda's parameters: named `self`, scoped to the body,
/// with no source location of its own.
pub open spec fn self_decl(body_range: Range) -> DeclV {
    DeclV {
        name: "self"@,
        name_range: nil_range(),
        kind: KindV::Variable,
        doc: None,
        used: false,
        range: nil_range(),
        scope: Some(body_range),
        builtin: false,
        param: true,
    }
}

/// All declarations that a function's or lambda's argument list
/// contributes: one per parameter, then the synthetic receiver.
pub open spec fn arg_decls(t: Seq<NodeData>, a: int, b: int) -> Seq<DeclV> {
    params_in(t, named_children_of(t, a), node_range(t, a), node_range(t, b)).push(
        self_decl(node_range(t, b)),
    )
}

/// The effect of a variable declaration: an `InvalidName` error when the
/// name is a keyword; then the declaration is inserted, visible from the
/// end of the declaring statement (or from the body start of a
/// lambda-valued initializer), scoped to the enclosing block; a rejected
/// insert yields a `Redeclaration` error at the name.
pub open spec fn var_decl_effect(t: Seq<NodeData>, i: int, st: AState) -> AState {
    match field_child(t, i, "name"@) {
        None => st,
        Some(nn) => {
            let name = t[nn as int].text@;
            let name_range = node_range(t, nn as int);
            let st1 = if keyword_names().contains(name) {
                AState {
                    diags: st.diags.push(error_diag(ErrorKindV::InvalidName, name_range)),
                    ..st
                }
            } else {
                st
            };
            match field_child(t, i, "value"@) {
                None => st1,
                Some(vn) => {
                    let range = if classify(t[vn as int].kind@) == NodeType::ExprLambda {
                        match field_child(t, vn as int, "body"@) {
                            Some(b) => Range { start: t[i].start, end: t[b as int].start },
                            None => node_range(t, i),
                        }
                    } else {
                        node_range(t, i)
                    };
                    let d = DeclV {
                        name,
                        name_range,
                        kind: KindV::Variable,
                        doc: None,
                        used: false,
                        range,
                        scope: scope_of(t, i),
                        builtin: false,
                        param: false,
                    };
                    let ins = insert_spec(st1.map, d);
                    if ins.1 {
                        AState { map: ins.0, ..st1 }
                    } else {
                        AState {
                            map: ins.0,
                            diags: st1.diags.push(
                                error_diag(ErrorKindV::Redeclaration(name), node_range(t, nn as int)),
                            ),
                            ..st1
                        }
                    }
                },
            }
        },
    }
}

/// The effect of a function declaration: an `InvalidName` error when the
/// name is a keyword; the parameters and the synthetic receiver are
/// registered, scoped to the body; then the function itself is inserted,
/// hoisted with visibility range from its header start to its body start;
/// a rejected insert yields a `Redeclaration` error at the name.
pub open spec fn func_decl_effect(t: Seq<NodeData>, i: int, st: AState) -> AState {
    match field_child(t, i, "name"@) {
        None => st,
        Some(nn) => {
            let name = t[nn as int].text@;
            let name_range = node_range(t, nn as int);
            let st1 = if keyword_names().contains(name) {
                AState {
                    diags: st.diags.push(error_diag(ErrorKindV::InvalidName, name_range)),
                    ..st
                }
            } else {
                st
            };
            match (field_child(t, i, "body"@), field_child(t, i, "args"@)) {
                (Some(b), Some(a)) => {
                    let st2 = AState {
                        map: insert_all(st1.map, arg_decls(t, a as int, b as int)),
                        ..st1
                    };
                    let d = DeclV {
                        name,
                        name_range,
                        kind: KindV::Function(param_names_in(t, named_children_of(t, a as int))),
                        doc: None,
                        used: false,
                        range: Range { start: t[i].start, end: t[b as int].start },
                        scope: scope_of(t, i),
                        builtin: false,
                        param: false,
                    };
                    let ins = insert_spec(st2.map, d);
                    if ins.1 {
                        AState { map: ins.0, ..st2 }
                    } else {
                        AState {
                            map: ins.0,
                            diags: st2.diags.push(
                                error_diag(ErrorKindV::Redeclaration(name), node_range(t, nn as int)),
                            ),
                            ..st2
                        }
                    }
                },
                _ => st1,
            }
        },
    }
}

/// The effect of a standalone lambda: only its parameters and the
/// synthetic receiver are registered; it has no name of its own.
pub open spec fn lambda_effect(t: Seq<NodeData>, i: int, st: AState) -> AState {
    match (field_child(t, i, "body"@), field_child(t, i, "args"@)) {
        (Some(b), Some(a)) => AState {
            map: insert_all(st.map, arg_decls(t, a as int, b as int)),
            ..st
        },
        _ => st,
    }
}

/// The declaration of one for-loop iterator binding: a variable spanning
/// the iterator clause, scoped to the loop body.
pub open spec fn iter_decl(t: Seq<NodeData>, c: usize, iter_range: Range, body_range: Range) -> DeclV {
    DeclV {
        name: t[c as int].text@,
        name_range: node_range(t, c as int),
        kind: KindV::Variable,
        doc: None,
        used: false,
        range: iter_range,
        scope: Some(body_range),
        builtin: false,
        param: false,
    }
}

/// The iterator-binding declarations of a for loop, in order.
pub open spec fn iter_decls(t: Seq<NodeData>, cs: Seq<usize>, iter_range: Range, body_range: Range) -> Seq<DeclV>
    decreases cs.len(),
{
    if cs.len() == 0 {
        seq![]
    } else {
        iter_decls(t, cs.drop_last(), iter_range, body_range).push(
            iter_decl(t, cs.last(), iter_range, body_range),
        )
    }
}

/// The effect of a for loop: each named child of its iterator clause is
/// registered as a variable scoped to the loop body.
pub open spec fn for_loop_effect(t: Seq<NodeData>, i: int, st: AState) -> AState {
    match (field_child(t, i, "iterator"@), field_child(t, i, "body"@)) {
        (Some(it), Some(b)) => AState {
            map: insert_all(
                st.map,
                iter_decls(
                    t,
                    named_children_of(t, it as int),
                    node_range(t, it as int),
                    node_range(t, b as int),
                ),
            ),
            ..st
        },
        _ => st,
    }
}

/// The end position of the unreachable span: the latest end among the
/// following named siblings, scanned in order with a strict comparison.
pub open spec fn fold_end(t: Seq<NodeData>, sibs: Seq<usize>) -> Position
    decreases sibs.len(),
{
    if sibs.len() <= 1 {
        t[sibs[0] as int].end
    } else {
        let prev = fold_end(t, sibs.drop_last());
        if t[sibs.last() as int].end.is_after(prev) {
            t[sibs.last() as int].end
        } else {
            prev
        }
    }
}

/// The single `Unreachable` hint that a control-transfer statement
/// contributes: it spans from the first following named sibling's start to
/// the latest end among all of them. No hint when nothing follows.
pub open spec fn unreachable_effect(t: Seq<NodeData>, i: int, st: AState) -> AState {
    let sibs = following_named_of(t, i);
    if sibs.len() == 0 {
        st
    } else {
        AState {
            diags: st.diags.push(
                hint_diag(
                    HintKindV::Unreachable,
                    Range { start: t[sibs[0] as int].start, end: fold_end(t, sibs) },
                ),
            ),
            ..st
        }
    }
}

/// The effect of `continue`: inside a loop, whatever follows it in its
/// block is unreachable; outside any loop it is an error.
pub open spec fn continue_effect(t: Seq<NodeData>, i: int, st: AState) -> AState {
    if in_loop(t, i) {
        unreachable_effect(t, i, st)
    } else {
        AState {
            diags: st.diags.push(error_diag(ErrorKindV::ContinueOutside, node_range(t, i))),
            ..st
        }
    }
}

/// The effect of `break`: as for `continue`.
pub open spec fn break_effect(t: Seq<NodeData>, i: int, st: AState) -> AState {
    if in_loop(t, i) {
        unreachable_effect(t, i, st)
    } else {
        AState {
            diags: st.diags.push(error_diag(ErrorKindV::BreakOutside, node_range(t, i))),
            ..st
        }
    }
}

/// The effect of `return`: inside a function or lambda, whatever follows
/// it in its block is unreachable; outside any it is an error.
pub open spec fn return_effect(t: Seq<NodeData>, i: int, st: AState) -> AState {
    if in_function(t, i) {
        unreachable_effect(t, i, st)
    } else {
        AState {
            diags: st.diags.push(error_diag(ErrorKindV::ReturnOutside, node_range(t, i))),
            ..st
        }
    }
}

/// Redeclaration law at the walk level: when a variable declaration's name
/// (not a keyword) is already bound with the same enclosing scope, the
/// step leaves the symbol table unchanged and appends exactly one
/// `Redeclaration` error, at the second declaration's name range.
pub proof fn lemma_var_decl_redeclaration(t: Seq<NodeData>, i: int, st: AState, nn: usize, l: int)
    requires
        field_child(t, i, "name"@) == Some(nn),
        field_child(t, i, "value"@) is Some,
        !keyword_names().contains(t[nn as int].text@),
        0 <= crate::declarations::bucket_index(st.map, t[nn as int].text@) < st.map.len(),
        0 <= l < st.map[crate::declarations::bucket_index(st.map, t[nn as int].text@)].decls.len(),
        st.map[crate::declarations::bucket_index(st.map, t[nn as int].text@)].decls[l].name == t[nn
            as int].text@,
        st.map[crate::declarations::bucket_index(st.map, t[nn as int].text@)].decls[l].scope
            == scope_of(t, i),
    ensures
        var_decl_effect(t, i, st).map == st.map,
        var_decl_effect(t, i, st).idents == st.idents,
        var_decl_effect(t, i, st).diags == st.diags.push(
            error_diag(ErrorKindV::Redeclaration(t[nn as int].text@), node_range(t, nn as int)),
        ),
{
    let name = t[nn as int].text@;
    let k = crate::declarations::bucket_index(st.map, name);
    let d = st.map[k].decls[l];
    assert(crate::declarations::same_binding(
        d,
        DeclV {
            name,
            name_range: node_range(t, nn as int),
            kind: KindV::Variable,
            doc: None,
            used: false,
            range: node_range(t, i),
            scope: scope_of(t, i),
            builtin: false,
            param: false,
        },
    ));
    match field_child(t, i, "value"@) {
        Some(vn) => {
            if classify(t[vn as int].kind@) == NodeType::ExprLambda {
                match field_child(t, vn as int, "body"@) {
                    Some(b) => {
                        assert(crate::declarations::same_binding(
                            d,
                            DeclV {
                                name,
                                name_range: node_range(t, nn as int),
                                kind: KindV::Variable,
                                doc: None,
                                used: false,
                                range: Range { start: t[i].start, end: t[b as int].start },
                                scope: scope_of(t, i),
                                builtin: false,
                                param: false,
                            },
                        ));
                    },
                    None => {},
                }
            }
        },
        None => {},
    }
}

/// Unused law, reporting half: every still-unused declaration whose name
/// is neither the discard placeholder nor the synthetic receiver gets its
/// hint from the unused pass.
pub proof fn lemma_unused_pass_reports(ds: Seq<DeclV>, i: int)
    requires
        0 <= i < ds.len(),
        ds[i].name != "_"@,
        ds[i].name != "self"@,
    ensures
        unused_to_diags(ds).contains(
            hint_diag(HintKindV::Unused(ds[i].name), ds[i].name_range),
        ),
    decreases ds.len(),
{
    let h = hint_diag(HintKindV::Unused(ds[i].name), ds[i].name_range);
    if i == ds.len() - 1 {
        assert(unused_to_diags(ds).last() == h);
    } else {
        lemma_unused_pass_reports(ds.drop_last(), i);
        let prev = unused_to_diags(ds.drop_last());
        let w = choose|w: int| 0 <= w < prev.len() && prev[w] == h;
        assert(unused_to_diags(ds)[w] == h);
    }
}

/// Unused law, soundness half: every hint the unused pass emits is the
/// `Unused` hint of one of the still-unused declarations, and never of the
/// discard placeholder or the synthetic receiver.
pub proof fn lemma_unused_pass_sound(ds: Seq<DeclV>)
    ensures
        forall|k: int|
            0 <= k < unused_to_diags(ds).len() ==> exists|i: int|
                0 <= i < ds.len() && ds[i].name != "_"@ && ds[i].name != "self"@
                    && #[trigger] unused_to_diags(ds)[k] == hint_diag(
                    HintKindV::Unused(ds[i].name),
                    ds[i].name_range,
                ),
    decreases ds.len(),
{
    if ds.len() > 0 {
        lemma_unused_pass_sound(ds.drop_last());
        assert forall|j: int| 0 <= j < ds.len() - 1 implies ds.drop_last()[j] == ds[j] by {}
        let prev = unused_to_diags(ds.drop_last());
        assert forall|k: int|
            0 <= k < unused_to_diags(ds).len() implies exists|i: int|
            0 <= i < ds.len() && ds[i].name != "_"@ && ds[i].name != "self"@
                && #[trigger] unused_to_diags(ds)[k] == hint_diag(
                HintKindV::Unused(ds[i].name),
                ds[i].name_range,
            ) by {
            if k < prev.len() {
                assert(unused_to_diags(ds)[k] == prev[k]);
                let i = choose|i: int|
                    0 <= i < ds.drop_last().len() && ds.drop_last()[i].name != "_"@
                        && ds.drop_last()[i].name != "self"@ && #[trigger] prev[k] == hint_diag(
                        HintKindV::Unused(ds.drop_last()[i].name),
                        ds.drop_last()[i].name_range,
                    );
                assert(unused_to_diags(ds)[k] == hint_diag(
                    HintKindV::Unused(ds[i].name),
                    ds[i].name_range,
                ));
            } else {
                assert(unused_to_diags(ds)[k] == hint_diag(
                    HintKindV::Unused(ds[ds.len() - 1].name),
                    ds[ds.len() - 1].name_range,
                ));
            }
        }
    }
}

/// Unused law, suppression half: every hint the whole-table unused pass
/// emits stems from a declaration whose `used` flag is still clear — a
/// declaration once resolved to is never reported.
pub proof fn lemma_unused_pass_only_unused(m: Seq<BucketV>)
    ensures
        forall|k: int|
            0 <= k < unused_to_diags(unused_spec(m)).len() ==> exists|i: int|
                0 <= i < unused_spec(m).len() && !unused_spec(m)[i].used
                    && #[trigger] unused_to_diags(unused_spec(m))[k] == hint_diag(
                    HintKindV::Unused(unused_spec(m)[i].name),
                    unused_spec(m)[i].name_range,
                ),
{
    let ds = unused_spec(m);
    lemma_unused_pass_sound(ds);
    crate::declarations::lemma_unused_spec_unused(m);
    assert forall|k: int|
        0 <= k < unused_to_diags(ds).len() implies exists|i: int|
        0 <= i < ds.len() && !ds[i].used && #[trigger] unused_to_diags(ds)[k] == hint_diag(
            HintKindV::Unused(ds[i].name),
            ds[i].name_range,
        ) by {
        let i = choose|i: int|
            0 <= i < ds.len() && ds[i].name != "_"@ && ds[i].name != "self"@
                && #[trigger] unused_to_diags(ds)[k] == hint_diag(
                HintKindV::Unused(ds[i].name),
                ds[i].name_range,
            );
        assert(!ds[i].used);
    }
}

/// One node's own contribution: its syntax-error and missing diagnostics,
/// then its category's effect.
pub open spec fn node_effect(t: Seq<NodeData>, i: int, st: AState) -> AState {
    let st1 = syntax_error_effect(t, i, st);
    match classify(t[i].kind@) {
        NodeType::StmtExpression => expression_effect(t, i, st1),
        NodeType::StmtVarDecl => var_decl_effect(t, i, st1),
        NodeType::StmtFuncDecl => func_decl_effect(t, i, st1),
        NodeType::StmtFor => for_loop_effect(t, i, st1),
        NodeType::StmtContinue => continue_effect(t, i, st1),
        NodeType::StmtBreak => break_effect(t, i, st1),
        NodeType::StmtReturn => return_effect(t, i, st1),
        NodeType::ExprMatch => match_effect(t, i, st1),
        NodeType::ExprLambda => lambda_effect(t, i, st1),
        NodeType::ExprIdentifier => identifier_effect(t, i, st1),
        NodeType::ExprLiteral => literal_effect(t, i, st1),
        _ => st1,
    }
}

/// The depth-first walk from node `i`: its own effect, then its children
/// in source order.
pub open spec fn walk_node(t: Seq<NodeData>, i: int, st: AState) -> AState
    decreases t.len() - i, t[i].children@.len() + 1,
{
    if 0 <= i < t.len() {
        walk_children(t, i, 0, node_effect(t, i, st))
    } else {
        st
    }
}

/// The walk over the children of node `i` starting at child position `k`.
pub open spec fn walk_children(t: Seq<NodeData>, i: int, k: int, st: AState) -> AState
    decreases t.len() - i, t[i].children@.len() - k,
{
    if 0 <= i < t.len() && 0 <= k < t[i].children@.len() {
        let c = t[i].children@[k] as int;
        if i < c <= t.len() {
            walk_children(t, i, k + 1, walk_node(t, c, st))
        } else {
            walk_children(t, i, k + 1, st)
        }
    } else {
        st
    }
}

/// The resolution pass: each queued reference, in order, marks the
/// innermost-scoped visible declaration of its name used, or yields an
/// `Undeclared` error.
pub open spec fn resolve_all(m: Seq<BucketV>, diags: Seq<DiagV>, idents: Seq<IdentV>) -> (
    Seq<BucketV>,
    Seq<DiagV>,
)
    decreases idents.len(),
{
    if idents.len() == 0 {
        (m, diags)
    } else {
        let prev = resolve_all(m, diags, idents.drop_last());
        let id = idents.last();
        let rm = resolve_mark_spec(prev.0, id.name, id.range.end);
        if rm.1 {
            (rm.0, prev.1)
        } else {
            (prev.0, prev.1.push(error_diag(ErrorKindV::Undeclared(id.name), id.range)))
        }
    }
}

/// The unused pass over the still-unused declarations, in table order:
/// each yields an `Unused` hint at its name, except the discard
/// placeholder `_` and the synthetic receiver `self`.
pub open spec fn unused_to_diags(ds: Seq<DeclV>) -> Seq<DiagV>
    decreases ds.len(),
{
    if ds.len() == 0 {
        seq![]
    } else {
        unused_to_diags(ds.drop_last()) + if ds.last().name != "_"@ && ds.last().name != "self"@ {
            seq![hint_diag(HintKindV::Unused(ds.last().name), ds.last().name_range)]
        } else {
            Seq::<DiagV>::empty()
        }
    }
}

/// Decides [`scope_of`].
fn get_scope(tree: &SyntaxTree, i: usize) -> (r: Option<Range>)
    requires
        tree_wf(tree@),
        i < tree@.len(),
    ensures
        r == scope_of(tree@, i as int),
{
    match tree.nodes[i].parent {
        Some(p) => {
            proof {
                assert(wf_node(tree@, i as int));
            }
            if NodeType::from_kind(&tree.nodes[p].kind) == NodeType::StmtBlock {
                Some(get_node_range(tree, p))
            } else {
                None
            }
        },
        None => None,
    }
}

/// Decides [`skip_identifier`].
fn skip_identifier_exec(tree: &SyntaxTree, i: usize) -> (r: bool)
    requires
        tree_wf(tree@),
        i < tree@.len(),
    ensures
        r == skip_identifier(tree@, i as int),
{
    if tree.nodes[i].start == tree.nodes[i].end {
        return true;
    }
    match tree.nodes[i].parent {
        Some(p) => {
            proof {
                assert(wf_node(tree@, i as int));
            }
            match NodeType::from_kind(&tree.nodes[p].kind) {
                NodeType::StmtFuncDecl => true,
                NodeType::Iterator => true,
                NodeType::StmtVarDecl => match tree.child_by_field(p, "name") {
                    Some(nn) => nn == i,
                    None => false,
                },
                NodeType::Prop => match tree.child_by_field(p, "name") {
                    Some(nn) => nn == i,
                    None => false,
                },
                NodeType::Args => match tree.nodes[p].parent {
                    Some(g) => {
                        proof {
                            assert(wf_node(tree@, p as int));
                        }
                        NodeType::from_kind(&tree.nodes[g].kind) != NodeType::ExprCall
                    },
                    None => false,
                },
                NodeType::ExprField => match tree.child_by_field(p, "field") {
                    Some(nn) => nn == i,
                    None => false,
                },
                _ => false,
            }
        },
        None => false,
    }
}

/// The walker's working state: the diagnostics, the symbol table, and the
/// queued identifier references.
struct Analyzer {
    diagnostics: Vec<Diagnostic>,
    declarations: DeclarationMap,
    identifiers: Vec<Identifier>,
}

impl View for Analyzer {
    type V = AState;

    closed spec fn view(&self) -> AState {
        AState {
            diags: diags_view(self.diagnostics@),
            map: self.declarations@,
            idents: idents_view(self.identifiers@),
        }
    }
}

impl Analyzer {
    /// A fresh walker: no diagnostics, the builtin-seeded table, no queued
    /// references.
    fn new() -> (r: Analyzer)
        ensures
            r@ == (AState { diags: seq![], map: initial_map(), idents: seq![] }),
    {
        let r = Analyzer {
            diagnostics: Vec::new(),
            declarations: DeclarationMap::new(),
            identifiers: Vec::new(),
        };
        proof {
            assert(r@ =~= (AState { diags: seq![], map: initial_map(), idents: seq![] }));
        }
        r
    }

    /// Pushes one diagnostic.
    fn push_diag(&mut self, d: Diagnostic)
        ensures
            final(self)@ == (AState { diags: old(self)@.diags.push(d@), ..old(self)@ }),
    {
        self.diagnostics.push(d);
        proof {
            assert(self@.diags =~= old(self)@.diags.push(d@));
            assert(self@ =~= (AState { diags: old(self)@.diags.push(d@), ..old(self)@ }));
        }
    }

    /// Emits the diagnostics of a syntax-error or missing node.
    fn handle_syntax_error(&mut self, tree: &SyntaxTree, i: usize)
        requires
            tree_wf(tree@),
            i < tree@.len(),
        ensures
            final(self)@ == syntax_error_effect(tree@, i as int, old(self)@),
    {
        if tree.nodes[i].is_error {
            let nc = tree.named_children(i);
            let d = if nc.len() == 0 {
                error(ErrorKind::SyntaxError, get_node_range(tree, i))
            } else {
                proof {
                    lemma_named_children_in_range(tree@, i as int);
                }
                let c = nc[0];
                if tree.nodes[c].is_error {
                    error(ErrorKind::Unexpected, get_node_range(tree, c))
                } else {
                    error(ErrorKind::SyntaxError, get_node_range(tree, c))
                }
            };
            self.push_diag(d);
        }
        if tree.nodes[i].is_missing {
            let d = if NodeType::from_kind(&tree.nodes[i].kind) == NodeType::ExprIdentifier {
                let kind = match tree.nodes[i].parent {
                    Some(p) => {
                        proof {
                            assert(wf_node(tree@, i as int));
                        }
                        if tree.nodes[p].text == ".".to_owned() {
                            ErrorKind::ExpectedField
                        } else {
                            ErrorKind::ExpectedExpr
                        }
                    },
                    None => ErrorKind::ExpectedExpr,
                };
                error(kind, get_node_range(tree, i))
            } else {
                error(ErrorKind::Missing(tree.nodes[i].kind.clone()), get_node_range(tree, i))
            };
            self.push_diag(d);
        }
    }

    /// Emits the two `UndelimitedStr` errors of a multi-line string
    /// literal.
    fn eval_literal(&mut self, tree: &SyntaxTree, i: usize)
        requires
            tree_wf(tree@),
            i < tree@.len(),
        ensures
            final(self)@ == literal_effect(tree@, i as int, old(self)@),
    {
        let nc = tree.named_children(i);
        if nc.len() > 0 {
            proof {
                lemma_named_children_in_range(tree@, i as int);
            }
            let c = nc[0];
            if tree.nodes[c].kind == "string".to_owned() {
                let start = tree.nodes[c].start;
                let end = tree.nodes[c].end;
                if start.line != end.line {
                    self.push_diag(error(ErrorKind::UndelimitedStr, Range::new(start, start)));
                    self.push_diag(error(ErrorKind::UndelimitedStr, Range::new(end, end)));
                }
            }
        }
    }

    /// Emits the `EmptyMatch` hint of a match expression without arms.
    fn eval_match(&mut self, tree: &SyntaxTree, i: usize)
        requires
            tree_wf(tree@),
            i < tree@.len(),
        ensures
            final(self)@ == match_effect(tree@, i as int, old(self)@),
    {
        match tree.child_by_field(i, "body") {
            Some(b) => {
                let nc = tree.named_children(b);
                if nc.len() == 0 {
                    self.push_diag(hint(HintKind::EmptyMatch, get_node_range(tree, i)));
                }
            },
            None => {},
        }
    }

    /// Queues an identifier use for resolution, unless it is skipped.
    fn eval_identifier(&mut self, tree: &SyntaxTree, i: usize)
        requires
            tree_wf(tree@),
            i < tree@.len(),
        ensures
            final(self)@ == identifier_effect(tree@, i as int, old(self)@),
    {
        if !skip_identifier_exec(tree, i) {
            let data = Identifier {
                name: tree.nodes[i].text.clone(),
                range: get_node_range(tree, i),
            };
            let ghost dv = data@;
            self.identifiers.push(data);
            proof {
                assert(self@.idents =~= old(self)@.idents.push(dv));
                assert(self@ =~= (AState { idents: old(self)@.idents.push(dv), ..old(self)@ }));
            }
        }
    }
    /// Emits the `UnusedResult` warning and `Assign` hint of an expression
    /// statement whose value is definitely discarded.
    fn eval_expression(&mut self, tree: &SyntaxTree, i: usize)
        requires
            tree_wf(tree@),
            i < tree@.len(),
        ensures
            final(self)@ == expression_effect(tree@, i as int, old(self)@),
    {
        let nc = tree.named_children(i);
        if nc.len() == 0 {
            return ;
        }
        proof {
            lemma_named_children_in_range(tree@, i as int);
        }
        let child = nc[0];
        let node_type = NodeType::from_kind(&tree.nodes[child].kind);
        let return_value = match tree.nodes[i].parent {
            Some(p) => {
                proof {
                    assert(wf_node(tree@, i as int));
                }
                if NodeType::from_kind(&tree.nodes[p].kind) == NodeType::StmtBlock {
                    let pnc = tree.named_children(p);
                    pnc.len() > 0 && pnc[pnc.len() - 1] == i
                } else {
                    false
                }
            },
            None => false,
        };
        let unused = match node_type {
            NodeType::ExprBinary => match tree.child_by_field(child, "operator") {
                Some(op) => tree.nodes[op].text != "=".to_owned(),
                None => false,
            },
            NodeType::ExprUnary => true,
            NodeType::ExprLiteral => true,
            NodeType::ExprIdentifier => true,
            _ => false,
        };
        if !return_value && unused {
            self.push_diag(warn(WarnKind::UnusedResult, get_node_range(tree, i)));
            self.push_diag(hint(HintKind::Assign, get_node_range(tree, i)));
        }
    }

    /// Registers a variable declaration: rejects keyword names, computes
    /// the visibility range and enclosing scope, and reports a rejected
    /// insert as a redeclaration.
    fn eval_var_decl(&mut self, tree: &SyntaxTree, i: usize)
        requires
            tree_wf(tree@),
            i < tree@.len(),
        ensures
            final(self)@ == var_decl_effect(tree@, i as int, old(self)@),
    {
        let name_node = match tree.child_by_field(i, "name") {
            Some(n) => n,
            None => {
                return ;
            },
        };
        let name = tree.nodes[name_node].text.clone();
        let name_range = get_node_range(tree, name_node);
        if is_keyword(&name) {
            self.push_diag(error(ErrorKind::InvalidName, name_range));
        }
        let value_node = match tree.child_by_field(i, "value") {
            Some(v) => v,
            None => {
                return ;
            },
        };
        let scope = get_scope(tree, i);
        let range = if NodeType::from_kind(&tree.nodes[value_node].kind) == NodeType::ExprLambda {
            match tree.child_by_field(value_node, "body") {
                Some(b) => Range::new(tree.nodes[i].start, tree.nodes[b].start),
                None => get_node_range(tree, i),
            }
        } else {
            get_node_range(tree, i)
        };
        let declaration = Declaration::new(
            name.clone(),
            DeclarationKind::Variable,
            range,
            name_range,
            scope,
            false,
        );
        if !self.declarations.insert(declaration) {
            self.push_diag(
                error(ErrorKind::Redeclaration(name), get_node_range(tree, name_node)),
            );
        }
    }

    /// Registers the parameters of a function or lambda (argument list `a`,
    /// body `b`), plus the synthetic receiver, and returns the parameter
    /// names in order.
    fn register_args(&mut self, tree: &SyntaxTree, a: usize, b: usize) -> (names: Vec<String>)
        requires
            tree_wf(tree@),
            a < tree@.len(),
            b < tree@.len(),
        ensures
            final(self)@ == (AState {
                map: insert_all(old(self)@.map, arg_decls(tree@, a as int, b as int)),
                ..old(self)@
            }),
            crate::builtins::strings_view(names@) == param_names_in(
                tree@,
                named_children_of(tree@, a as int),
            ),
    {
        let ghost t = tree@;
        let ghost m0 = self@.map;
        let ghost st0 = self@;
        let nc = tree.named_children(a);
        let args_range = get_node_range(tree, a);
        let body_range = get_node_range(tree, b);
        let mut names: Vec<String> = Vec::new();
        let mut k: usize = 0;
        proof {
            lemma_named_children_in_range(t, a as int);
        }
        while k < nc.len()
            invariant
                tree_wf(t),
                t == tree@,
                a < t.len(),
                b < t.len(),
                nc@ == named_children_of(t, a as int),
                forall|l: int|
                    0 <= l < nc@.len() ==> (a as int) < ((#[trigger] nc@[l]) as int) < t.len(),
                args_range == node_range(t, a as int),
                body_range == node_range(t, b as int),
                k <= nc@.len(),
                st0 == old(self)@,
                self@.diags == st0.diags,
                self@.idents == st0.idents,
                m0 == st0.map,
                self@.map == insert_all(m0, params_in(t, nc@.take(k as int), args_range, body_range)),
                crate::builtins::strings_view(names@) == param_names_in(t, nc@.take(k as int)),
            decreases nc@.len() - k,
        {
            proof {
                assert(nc@.take(k + 1).drop_last() =~= nc@.take(k as int));
                assert(nc@.take(k + 1).last() == nc@[k as int]);
            }
            let arg = nc[k];
            if !tree.nodes[arg].is_error {
                let name = tree.nodes[arg].text.clone();
                let name_range = get_node_range(tree, arg);
                let decl = Declaration::new(
                    name.clone(),
                    DeclarationKind::Variable,
                    args_range,
                    name_range,
                    Some(body_range),
                    true,
                );
                let ghost dv = decl@;
                let ghost names0 = names@;
                let ghost psin = params_in(t, nc@.take(k as int), args_range, body_range);
                names.push(name);
                self.declarations.insert(decl);
                proof {
                    assert(dv == param_decl(t, nc@[k as int], args_range, body_range));
                    assert(params_in(t, nc@.take(k + 1), args_range, body_range) =~= psin.push(dv));
                    assert(psin.push(dv).drop_last() =~= psin);
                    assert(self@.map == insert_all(m0, psin.push(dv)));
                    assert(crate::builtins::strings_view(names@) =~= param_names_in(
                        t,
                        nc@.take(k + 1),
                    ));
                }
            } else {
                proof {
                    assert(params_in(t, nc@.take(k + 1), args_range, body_range) =~= params_in(
                        t,
                        nc@.take(k as int),
                        args_range,
                        body_range,
                    ));
                    assert(param_names_in(t, nc@.take(k + 1)) =~= param_names_in(
                        t,
                        nc@.take(k as int),
                    ));
                }
            }
            k += 1;
        }
        proof {
            assert(nc@.take(nc@.len() as int) =~= nc@);
        }
        let receiver = Declaration::new(
            "self".to_owned(),
            DeclarationKind::Variable,
            Range::nil(),
            Range::nil(),
            Some(body_range),
            true,
        );
        let ghost rv = receiver@;
        let ghost pall = params_in(t, named_children_of(t, a as int), args_range, body_range);
        self.declarations.insert(receiver);
        proof {
            assert(rv == self_decl(node_range(t, b as int)));
            assert(arg_decls(t, a as int, b as int) == pall.push(rv));
            assert(pall.push(rv).drop_last() =~= pall);
            assert(self@.map == insert_all(m0, pall.push(rv)));
            assert(self@ =~= (AState {
                map: insert_all(old(self)@.map, arg_decls(t, a as int, b as int)),
                ..old(self)@
            }));
        }
        names
    }

    /// Registers a function declaration: rejects keyword names, registers
    /// its parameters and receiver, inserts the hoisted function, and
    /// reports a rejected insert as a redeclaration.
    fn eval_func_decl(&mut self, tree: &SyntaxTree, i: usize)
        requires
            tree_wf(tree@),
            i < tree@.len(),
        ensures
            final(self)@ == func_decl_effect(tree@, i as int, old(self)@),
    {
        let name_node = match tree.child_by_field(i, "name") {
            Some(n) => n,
            None => {
                return ;
            },
        };
        let name = tree.nodes[name_node].text.clone();
        let name_range = get_node_range(tree, name_node);
        if is_keyword(&name) {
            self.push_diag(error(ErrorKind::InvalidName, name_range));
        }
        let block = match tree.child_by_field(i, "body") {
            Some(b) => b,
            None => {
                return ;
            },
        };
        let args = match tree.child_by_field(i, "args") {
            Some(a) => a,
            None => {
                return ;
            },
        };
        let names = self.register_args(tree, args, block);
        let kind = DeclarationKind::Function(names);
        let range = Range::new(tree.nodes[i].start, tree.nodes[block].start);
        let scope = get_scope(tree, i);
        let decl = Declaration::new(name.clone(), kind, range, name_range, scope, false);
        if !self.declarations.insert(decl) {
            self.push_diag(
                error(ErrorKind::Redeclaration(name), get_node_range(tree, name_node)),
            );
        }
    }

    /// Registers a standalone lambda's parameters and receiver.
    fn eval_lambda(&mut self, tree: &SyntaxTree, i: usize)
        requires
            tree_wf(tree@),
            i < tree@.len(),
        ensures
            final(self)@ == lambda_effect(tree@, i as int, old(self)@),
    {
        let block = match tree.child_by_field(i, "body") {
            Some(b) => b,
            None => {
                return ;
            },
        };
        let args = match tree.child_by_field(i, "args") {
            Some(a) => a,
            None => {
                return ;
            },
        };
        let _ = self.register_args(tree, args, block);
    }

    /// Registers each iterator binding of a for loop as a variable scoped
    /// to the loop body.
    fn eval_for_loop(&mut self, tree: &SyntaxTree, i: usize)
        requires
            tree_wf(tree@),
            i < tree@.len(),
        ensures
            final(self)@ == for_loop_effect(tree@, i as int, old(self)@),
    {
        let iterator = match tree.child_by_field(i, "iterator") {
            Some(it) => it,
            None => {
                return ;
            },
        };
        let body = match tree.child_by_field(i, "body") {
            Some(b) => b,
            None => {
                return ;
            },
        };
        let ghost t = tree@;
        let ghost m0 = self@.map;
        let ghost st0 = self@;
        let nc = tree.named_children(iterator);
        let iter_range = get_node_range(tree, iterator);
        let body_range = get_node_range(tree, body);
        proof {
            lemma_named_children_in_range(t, iterator as int);
        }
        let mut k: usize = 0;
        while k < nc.len()
            invariant
                tree_wf(t),
                t == tree@,
                iterator < t.len(),
                body < t.len(),
                nc@ == named_children_of(t, iterator as int),
                forall|l: int|
                    0 <= l < nc@.len() ==> ((iterator as int) < ((#[trigger] nc@[l]) as int)
                        < t.len()),
                iter_range == node_range(t, iterator as int),
                body_range == node_range(t, body as int),
                k <= nc@.len(),
                st0 == old(self)@,
                self@.diags == st0.diags,
                self@.idents == st0.idents,
                m0 == st0.map,
                self@.map == insert_all(m0, iter_decls(t, nc@.take(k as int), iter_range, body_range)),
            decreases nc@.len() - k,
        {
            proof {
                assert(nc@.take(k + 1).drop_last() =~= nc@.take(k as int));
                assert(nc@.take(k + 1).last() == nc@[k as int]);
            }
            let child = nc[k];
            let name = tree.nodes[child].text.clone();
            let name_range = get_node_range(tree, child);
            let decl = Declaration::new(
                name,
                DeclarationKind::Variable,
                iter_range,
                name_range,
                Some(body_range),
                false,
            );
            let ghost dv = decl@;
            let ghost dsin = iter_decls(t, nc@.take(k as int), iter_range, body_range);
            self.declarations.insert(decl);
            proof {
                assert(dv == iter_decl(t, nc@[k as int], iter_range, body_range));
                assert(iter_decls(t, nc@.take(k + 1), iter_range, body_range) =~= dsin.push(dv));
                assert(dsin.push(dv).drop_last() =~= dsin);
                assert(self@.map == insert_all(m0, dsin.push(dv)));
            }
            k += 1;
        }
        proof {
            assert(nc@.take(nc@.len() as int) =~= nc@);
            assert(self@ =~= (AState {
                map: insert_all(
                    st0.map,
                    iter_decls(
                        t,
                        named_children_of(t, iterator as int),
                        node_range(t, iterator as int),
                        node_range(t, body as int),
                    ),
                ),
                ..st0
            }));
        }
    }

    /// Emits the single `Unreachable` hint covering everything that
    /// follows a control-transfer statement in its block.
    fn next_unreachable(&mut self, tree: &SyntaxTree, i: usize)
        requires
            tree_wf(tree@),
            i < tree@.len(),
        ensures
            final(self)@ == unreachable_effect(tree@, i as int, old(self)@),
    {
        let ghost t = tree@;
        let sibs = tree.following_named_siblings(i);
        if sibs.len() == 0 {
            return ;
        }
        proof {
            lemma_following_in_range(t, i as int);
        }
        let start = tree.nodes[sibs[0]].start;
        let mut end = tree.nodes[sibs[0]].end;
        let mut k: usize = 1;
        while k < sibs.len()
            invariant
                tree_wf(t),
                t == tree@,
                i < t.len(),
                sibs@ == following_named_of(t, i as int),
                forall|l: int|
                    0 <= l < sibs@.len() ==> 0 <= ((#[trigger] sibs@[l]) as int) < t.len(),
                1 <= k <= sibs@.len(),
                end == fold_end(t, sibs@.take(k as int)),
            decreases sibs@.len() - k,
        {
            proof {
                assert(sibs@.take(k + 1).drop_last() =~= sibs@.take(k as int));
                assert(sibs@.take(k + 1).last() == sibs@[k as int]);
                assert(sibs@.take(k + 1)[0] == sibs@[0]);
            }
            let node_end = tree.nodes[sibs[k]].end;
            if node_end.after(&end) {
                end = node_end;
            }
            k += 1;
        }
        proof {
            assert(sibs@.take(sibs@.len() as int) =~= sibs@);
        }
        self.push_diag(hint(HintKind::Unreachable, Range::new(start, end)));
    }

    /// Handles `continue`: unreachable-code hint inside a loop, error
    /// outside.
    fn eval_continue(&mut self, tree: &SyntaxTree, i: usize)
        requires
            tree_wf(tree@),
            i < tree@.len(),
        ensures
            final(self)@ == continue_effect(tree@, i as int, old(self)@),
    {
        if tree.has_loop_ancestor(i) {
            self.next_unreachable(tree, i);
        } else {
            self.push_diag(error(ErrorKind::ContinueOutside, get_node_range(tree, i)));
        }
    }

    /// Handles `break`: as for `continue`.
    fn eval_break(&mut self, tree: &SyntaxTree, i: usize)
        requires
            tree_wf(tree@),
            i < tree@.len(),
        ensures
            final(self)@ == break_effect(tree@, i as int, old(self)@),
    {
        if tree.has_loop_ancestor(i) {
            self.next_unreachable(tree, i);
        } else {
            self.push_diag(error(ErrorKind::BreakOutside, get_node_range(tree, i)));
        }
    }

    /// Handles `return`: unreachable-code hint inside a function or
    /// lambda, error outside.
    fn eval_return(&mut self, tree: &SyntaxTree, i: usize)
        requires
            tree_wf(tree@),
            i < tree@.len(),
        ensures
            final(self)@ == return_effect(tree@, i as int, old(self)@),
    {
        if tree.has_function_ancestor(i) {
            self.next_unreachable(tree, i);
        } else {
            self.push_diag(error(ErrorKind::ReturnOutside, get_node_range(tree, i)));
        }
    }
    /// Walks node `i`: its own effect, then its children depth-first in
    /// source order.
    fn eval_node(&mut self, tree: &SyntaxTree, i: usize)
        requires
            tree_wf(tree@),
            i < tree@.len(),
        ensures
            final(self)@ == walk_node(tree@, i as int, old(self)@),
        decreases tree@.len() - i,
    {
        let ghost t = tree@;
        self.handle_syntax_error(tree, i);
        match NodeType::from_kind(&tree.nodes[i].kind) {
            NodeType::StmtExpression => self.eval_expression(tree, i),
            NodeType::StmtVarDecl => self.eval_var_decl(tree, i),
            NodeType::StmtFuncDecl => self.eval_func_decl(tree, i),
            NodeType::StmtFor => self.eval_for_loop(tree, i),
            NodeType::StmtContinue => self.eval_continue(tree, i),
            NodeType::StmtBreak => self.eval_break(tree, i),
            NodeType::StmtReturn => self.eval_return(tree, i),
            NodeType::ExprMatch => self.eval_match(tree, i),
            NodeType::ExprLambda => self.eval_lambda(tree, i),
            NodeType::ExprIdentifier => self.eval_identifier(tree, i),
            NodeType::ExprLiteral => self.eval_literal(tree, i),
            _ => {},
        }
        let ghost st1 = self@;
        proof {
            assert(st1 == node_effect(t, i as int, old(self)@));
        }
        let n = tree.nodes[i].children.len();
        let mut k: usize = 0;
        while k < n
            invariant
                tree_wf(t),
                t == tree@,
                i < t.len(),
                n == t[i as int].children@.len(),
                k <= n,
                st1 == node_effect(t, i as int, old(self)@),
                walk_children(t, i as int, k as int, self@) == walk_children(t, i as int, 0, st1),
            decreases n - k,
        {
            let c = tree.nodes[i].children[k];
            proof {
                assert(wf_node(t, i as int));
                assert((i as int) < (c as int) < t.len());
            }
            let ghost prev = self@;
            self.eval_node(tree, c);
            proof {
                assert(walk_children(t, i as int, k as int, prev) == walk_children(
                    t,
                    i as int,
                    k + 1,
                    walk_node(t, c as int, prev),
                ));
            }
            k += 1;
        }
        proof {
            assert(walk_children(t, i as int, n as int, self@) == self@);
        }
    }

    /// The resolution pass: each queued reference, in order, marks the
    /// innermost-scoped visible declaration of its name used, or is
    /// reported as `Undeclared`.
    fn resolve_identifiers(&mut self)
        ensures
            final(self)@.map == resolve_all(
                old(self)@.map,
                old(self)@.diags,
                old(self)@.idents,
            ).0,
            final(self)@.diags == resolve_all(
                old(self)@.map,
                old(self)@.diags,
                old(self)@.idents,
            ).1,
            final(self)@.idents == old(self)@.idents,
    {
        let ghost m0 = self@.map;
        let ghost d0 = self@.diags;
        let ghost ids = self@.idents;
        let n = self.identifiers.len();
        let mut j: usize = 0;
        while j < n
            invariant
                n == self.identifiers@.len(),
                j <= n,
                ids == idents_view(self.identifiers@),
                self@.idents == ids,
                self@.map == resolve_all(m0, d0, ids.take(j as int)).0,
                self@.diags == resolve_all(m0, d0, ids.take(j as int)).1,
            decreases n - j,
        {
            proof {
                assert(ids.take(j + 1).drop_last() =~= ids.take(j as int));
                assert(ids.take(j + 1).last() == ids[j as int]);
                assert(ids[j as int] == self.identifiers@[j as int]@);
            }
            let found = self.declarations.get_mut(&self.identifiers[j]);
            if !found {
                let name = self.identifiers[j].name.clone();
                let range = self.identifiers[j].range;
                self.diagnostics.push(error(ErrorKind::Undeclared(name), range));
                proof {
                    assert(self@.diags =~= resolve_all(m0, d0, ids.take(j as int)).1.push(
                        error_diag(
                            ErrorKindV::Undeclared(ids[j as int].name),
                            ids[j as int].range,
                        ),
                    ));
                }
            }
            j += 1;
        }
        proof {
            assert(ids.take(n as int) =~= ids);
        }
    }

    /// The unused pass: every declaration still unused, except the discard
    /// placeholder and the synthetic receiver, yields an `Unused` hint at
    /// its name.
    fn report_unused(&mut self)
        ensures
            final(self)@ == (AState {
                diags: old(self)@.diags + unused_to_diags(unused_spec(old(self)@.map)),
                ..old(self)@
            }),
    {
        let ghost d0 = self@.diags;
        let unused = self.declarations.get_unused();
        let ghost ud = crate::declarations::decls_view(unused@);
        let n = unused.len();
        let mut j: usize = 0;
        while j < n
            invariant
                n == unused@.len(),
                ud == crate::declarations::decls_view(unused@),
                ud.len() == n,
                j <= n,
                self@.map == old(self)@.map,
                self@.idents == old(self)@.idents,
                d0 == old(self)@.diags,
                self@.diags == d0 + unused_to_diags(ud.take(j as int)),
            decreases n - j,
        {
            proof {
                assert(ud.take(j + 1).drop_last() =~= ud.take(j as int));
                assert(ud.take(j + 1).last() == ud[j as int]);
            }
            let skip_name = unused[j].name == "_".to_owned() || unused[j].name
                == "self".to_owned();
            if !skip_name {
                let name = unused[j].name.clone();
                let name_range = unused[j].name_range;
                let d = hint(HintKind::Unused(name), name_range);
                let ghost dv = d@;
                self.diagnostics.push(d);
                proof {
                    assert(ud[j as int] == unused@[j as int]@);
                    assert(dv == hint_diag(
                        HintKindV::Unused(ud[j as int].name),
                        ud[j as int].name_range,
                    ));
                    assert(self@.diags =~= (d0 + unused_to_diags(ud.take(j as int))).push(dv));
                    assert(self@.diags =~= d0 + unused_to_diags(ud.take(j as int)).push(
                        hint_diag(HintKindV::Unused(ud[j as int].name), ud[j as int].name_range),
                    ));
                    assert(d0 + unused_to_diags(ud.take(j as int)).push(
                        hint_diag(HintKindV::Unused(ud[j as int].name), ud[j as int].name_range),
                    ) =~= d0 + unused_to_diags(ud.take(j + 1)));
                }
            } else {
                proof {
                    assert(unused_to_diags(ud.take(j + 1)) =~= unused_to_diags(ud.take(j as int)));
                }
            }
            j += 1;
        }
        proof {
            assert(ud.take(n as int) =~= ud);
            assert(self@ =~= (AState {
                diags: old(self)@.diags + unused_to_diags(unused_spec(old(self)@.map)),
                ..old(self)@
            }));
        }
    }
}

/// Mathematical form of [`AnalyzeResult`].
#[verifier::ext_equal]
pub ghost struct ResultV {
    pub diagnostics: Seq<DiagV>,
    pub declarations: Seq<BucketV>,
}

/// The entire analysis as a function of the tree: the walk over the
/// root's children from the builtin-seeded state, then the resolution
/// pass, then the unused pass.
pub open spec fn analysis_of(t: Seq<NodeData>) -> ResultV {
    let st0 = AState { diags: seq![], map: initial_map(), idents: seq![] };
    let st1 = walk_children(t, 0, 0, st0);
    let resolved = resolve_all(st1.map, st1.diags, st1.idents);
    ResultV {
        diagnostics: resolved.1 + unused_to_diags(unused_spec(resolved.0)),
        declarations: resolved.0,
    }
}

/// What one analysis pass returns: the full diagnostics list and the
/// document's symbol table.
pub struct AnalyzeResult {
    pub diagnostics: Vec<Diagnostic>,
    pub declarations: DeclarationMap,
}

impl View for AnalyzeResult {
    type V = ResultV;

    open spec fn view(&self) -> ResultV {
        ResultV {
            diagnostics: diags_view(self.diagnostics@),
            declarations: self.declarations@,
        }
    }
}

/// Analyzes a document: walks the tree once, resolves every recorded
/// identifier reference, and reports unused declarations. The result is
/// exactly [`analysis_of`] applied to the tree, so analysis is a pure
/// function of the parsed input.
pub fn analyze(tree: &SyntaxTree) -> (r: AnalyzeResult)
    requires
        tree_wf(tree@),
    ensures
        r@ == analysis_of(tree@),
{
    let ghost t = tree@;
    let mut analyzer = Analyzer::new();
    let ghost st0 = AState { diags: seq![], map: initial_map(), idents: seq![] };
    let n = tree.nodes[0].children.len();
    let mut k: usize = 0;
    while k < n
        invariant
            tree_wf(t),
            t == tree@,
            0 < t.len(),
            n == t[0].children@.len(),
            k <= n,
            st0 == (AState { diags: seq![], map: initial_map(), idents: seq![] }),
            walk_children(t, 0, k as int, analyzer@) == walk_children(t, 0, 0, st0),
        decreases n - k,
    {
        let c = tree.nodes[0].children[k];
        proof {
            assert(wf_node(t, 0));
            assert(0 < (c as int) < t.len());
        }
        let ghost prev = analyzer@;
        analyzer.eval_node(tree, c);
        proof {
            assert(walk_children(t, 0, k as int, prev) == walk_children(
                t,
                0,
                k + 1,
                walk_node(t, c as int, prev),
            ));
        }
        k += 1;
    }
    proof {
        assert(walk_children(t, 0, n as int, analyzer@) == analyzer@);
    }
    analyzer.resolve_identifiers();
    analyzer.report_unused();
    let r = AnalyzeResult {
        diagnostics: analyzer.diagnostics,
        declarations: analyzer.declarations,
    };
    proof {
        assert(r@ =~= analysis_of(t));
    }
    r
}

/// Two analysis passes over the same tree return the same result: the
/// outcome is a function of the tree alone, so re-analyzing an unchanged
/// document reproduces its diagnostics and symbol table exactly.
pub proof fn lemma_analysis_deterministic(t: Seq<NodeData>, r1: ResultV, r2: ResultV)
    requires
        r1 == analysis_of(t),
        r2 == analysis_of(t),
    ensures
        r1 == r2,
{
}

} // verus!
