//! Classification of raw syntax-node kinds.
//!
//! The parser exposes node kinds as open-ended strings. Before any
//! dispatch, the analyzer maps each kind string through [`NodeType::from_kind`]
//! into this closed enumeration, so that all later matching is exhaustive.
//! Unrecognized kinds map to [`NodeType::Unnamed`], never to a failure.

use vstd::prelude::*;

verus! {

/// The closed set of semantic node categories.
#[derive(Clone, Copy, Debug, PartialEq, Eq, Structural)]
pub enum NodeType {
    StmtBlock,
    StmtVarDecl,
    StmtFuncDecl,
    StmtLoop,
    StmtWhile,
    StmtFor,
    StmtContinue,
    StmtBreak,
    StmtReturn,
    StmtExpression,
    ExprLiteral,
    ExprGroup,
    ExprIdentifier,
    ExprArray,
    ExprObject,
    ExprUnary,
    ExprBinary,
    ExprIndex,
    ExprField,
    ExprIf,
    ExprMatch,
    ExprCall,
    ExprLambda,
    Args,
    Prop,
    Iterator,
    Error,
    Unnamed,
}

/// What [`NodeType::from_kind`] returns for a given kind string: each known
/// kind maps to its category and every other string maps to `Unnamed`.
pub open spec fn classify(kind: Seq<char>) -> NodeType {
    if kind == "stmt_block"@ {
        NodeType::StmtBlock
    } else if kind == "stmt_var_decl"@ {
        NodeType::StmtVarDecl
    } else if kind == "stmt_func_decl"@ {
        NodeType::StmtFuncDecl
    } else if kind == "stmt_loop"@ {
        NodeType::StmtLoop
    } else if kind == "stmt_while"@ {
        NodeType::StmtWhile
    } else if kind == "stmt_for"@ {
        NodeType::StmtFor
    } else if kind == "stmt_continue"@ {
        NodeType::StmtContinue
    } else if kind == "stmt_break"@ {
        NodeType::StmtBreak
    } else if kind == "stmt_return"@ {
        NodeType::StmtReturn
    } else if kind == "stmt_expression"@ {
        NodeType::StmtExpression
    } else if kind == "expr_literal"@ {
        NodeType::ExprLiteral
    } else if kind == "expr_group"@ {
        NodeType::ExprGroup
    } else if kind == "expr_identifier"@ {
        NodeType::ExprIdentifier
    } else if kind == "expr_array"@ {
        NodeType::ExprArray
    } else if kind == "expr_object"@ {
        NodeType::ExprObject
    } else if kind == "expr_unary"@ {
        NodeType::ExprUnary
    } else if kind == "expr_binary"@ {
        NodeType::ExprBinary
    } else if kind == "expr_index"@ {
        NodeType::ExprIndex
    } else if kind == "expr_field"@ {
        NodeType::ExprField
    } else if kind == "expr_if"@ {
        NodeType::ExprIf
    } else if kind == "expr_match"@ {
        NodeType::ExprMatch
    } else if kind == "expr_call"@ {
        NodeType::ExprCall
    } else if kind == "expr_lambda"@ {
        NodeType::ExprLambda
    } else if kind == "args"@ {
        NodeType::Args
    } else if kind == "prop"@ {
        NodeType::Prop
    } else if kind == "iterator"@ {
        NodeType::Iterator
    } else if kind == "ERROR"@ {
        NodeType::Error
    } else {
        NodeType::Unnamed
    }
}

/// Node categories that form a loop: `continue` and `break` are valid only
/// under one of these.
pub open spec fn is_loop_type(t: NodeType) -> bool {
    t == NodeType::StmtFor || t == NodeType::StmtWhile || t == NodeType::StmtLoop
}

/// Node categories that form a function body: `return` is valid only under
/// one of these.
pub open spec fn is_function_type(t: NodeType) -> bool {
    t == NodeType::StmtFuncDecl || t == NodeType::ExprLambda
}

impl NodeType {
    /// Maps a raw kind string to its semantic category. Total: every string
    /// maps to exactly one category, unrecognized kinds to `Unnamed`.
    pub fn from_kind(kind: &String) -> (r: NodeType)
        ensures
            r == classify(kind@),
    {
        if *kind == "stmt_block".to_owned() {
            NodeType::StmtBlock
        } else if *kind == "stmt_var_decl".to_owned() {
            NodeType::StmtVarDecl
        } else if *kind == "stmt_func_decl".to_owned() {
            NodeType::StmtFuncDecl
        } else if *kind == "stmt_loop".to_owned() {
            NodeType::StmtLoop
        } else if *kind == "stmt_while".to_owned() {
            NodeType::StmtWhile
        } else if *kind == "stmt_for".to_owned() {
            NodeType::StmtFor
        } else if *kind == "stmt_continue".to_owned() {
            NodeType::StmtContinue
        } else if *kind == "stmt_break".to_owned() {
            NodeType::StmtBreak
        } else if *kind == "stmt_return".to_owned() {
            NodeType::StmtReturn
        } else if *kind == "stmt_expression".to_owned() {
            NodeType::StmtExpression
        } else if *kind == "expr_literal".to_owned() {
            NodeType::ExprLiteral
        } else if *kind == "expr_group".to_owned() {
            NodeType::ExprGroup
        } else if *kind == "expr_identifier".to_owned() {
            NodeType::ExprIdentifier
        } else if *kind == "expr_array".to_owned() {
            NodeType::ExprArray
        } else if *kind == "expr_object".to_owned() {
            NodeType::ExprObject
        } else if *kind == "expr_unary".to_owned() {
            NodeType::ExprUnary
        } else if *kind == "expr_binary".to_owned() {
            NodeType::ExprBinary
        } else if *kind == "expr_index".to_owned() {
            NodeType::ExprIndex
        } else if *kind == "expr_field".to_owned() {
            NodeType::ExprField
        } else if *kind == "expr_if".to_owned() {
            NodeType::ExprIf
        } else if *kind == "expr_match".to_owned() {
            NodeType::ExprMatch
        } else if *kind == "expr_call".to_owned() {
            NodeType::ExprCall
        } else if *kind == "expr_lambda".to_owned() {
            NodeType::ExprLambda
        } else if *kind == "args".to_owned() {
            NodeType::Args
        } else if *kind == "prop".to_owned() {
            NodeType::Prop
        } else if *kind == "iterator".to_owned() {
            NodeType::Iterator
        } else if *kind == "ERROR".to_owned() {
            NodeType::Error
        } else {
            NodeType::Unnamed
        }
    }

    /// Decides whether this category is one of the loop statements.
    pub fn is_loop(&self) -> (r: bool)
        ensures
            r == is_loop_type(*self),
    {
        match self {
            NodeType::StmtFor | NodeType::StmtWhile | NodeType::StmtLoop => true,
            _ => false,
        }
    }

    /// Decides whether this category introduces a function body.
    pub fn is_function_like(&self) -> (r: bool)
        ensures
            r == is_function_type(*self),
    {
        match self {
            NodeType::StmtFuncDecl | NodeType::ExprLambda => true,
            _ => false,
        }
    }
}

} // verus!
