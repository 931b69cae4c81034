//! The expression language: the generic tree that the host grammar produces,
//! the typed expressions of the dialogue language, and how the first is
//! turned into the second.

use vstd::prelude::*;
use vstd::string::*;
use crate::ops::{binary_of, unary_of, OpError, SynBinOp, SynUnaryOp, YarnBinaryOp, YarnUnaryOp};

verus! {

/// A literal value, as written in the source.
#[derive(Debug, Clone, PartialEq, Eq)]
pub enum Literal {
    Str(String),
    /// A number, kept as its digits.
    Number(String),
    Bool(bool),
}

/// An expression tree of the host grammar.
#[derive(Debug, PartialEq, Eq)]
pub enum HostExpr {
    Lit(Literal),
    /// A reference to a variable, by name.
    Var(String),
    Unary(SynUnaryOp, Box<HostExpr>),
    Binary(Box<HostExpr>, SynBinOp, Box<HostExpr>),
    /// A call of a function by name.
    Call(String, Vec<HostExpr>),
    Paren(Box<HostExpr>),
    /// Any other form of the host grammar, with its source text.
    Other(String),
}

/// A call with a meaning of its own in the dialogue language.
#[derive(Debug, Clone, PartialEq, Eq)]
pub enum BuiltInFunctionCall {
    /// Whether the named node has been visited.
    Visited(String),
    /// How often the named node has been visited.
    VisitedCount(String),
}

/// An expression of the dialogue language.
#[derive(Debug, PartialEq, Eq)]
pub enum YarnExpr {
    GetVar(String),
    Literal(Literal),
    UnaryOp(YarnUnaryOp, Box<YarnExpr>),
    BinaryOp(YarnBinaryOp, Box<YarnExpr>, Box<YarnExpr>),
    BuiltInFunctionCall(BuiltInFunctionCall),
}

/// Why a host expression has no translation.
#[derive(Debug, Clone, PartialEq, Eq)]
pub enum ExprError {
    /// An operator outside the language's set.
    Operator(OpError),
    /// A call of a function that is not built in.
    UnknownFunction { name: String, arguments: usize },
    /// A built-in call with another number of arguments than one.
    WrongArity { name: String, arguments: usize },
    /// A built-in call whose argument is not a string literal.
    NonLiteralArgument { name: String },
    /// A form that the language does not have, with its source text.
    Unsupported { snippet: String },
}

/// Whether `name` is the built-in `visited`.
pub open spec fn names_visited(name: Seq<char>) -> bool {
    name == "visited"@
}

/// Whether `name` is the built-in `visited_count`.
pub open spec fn names_visited_count(name: Seq<char>) -> bool {
    name == "visited_count"@
}

/// The translation of a call.
pub open spec fn call_translation(name: String, args: Seq<HostExpr>) -> Result<
    YarnExpr,
    ExprError,
> {
    if !names_visited(name@) && !names_visited_count(name@) {
        Err(ExprError::UnknownFunction { name, arguments: args.len() as usize })
    } else if args.len() != 1 {
        Err(ExprError::WrongArity { name, arguments: args.len() as usize })
    } else {
        match args[0] {
            HostExpr::Lit(Literal::Str(node)) => if names_visited(name@) {
                Ok(YarnExpr::BuiltInFunctionCall(BuiltInFunctionCall::Visited(node)))
            } else {
                Ok(YarnExpr::BuiltInFunctionCall(BuiltInFunctionCall::VisitedCount(node)))
            },
            _ => Err(ExprError::NonLiteralArgument { name }),
        }
    }
}

/// The translation of a host expression: operands come first, left before
/// right, then the operator is resolved; the first failure is the result.
pub open spec fn translation(expr: HostExpr) -> Result<YarnExpr, ExprError>
    decreases expr,
{
    match expr {
        HostExpr::Lit(value) => Ok(YarnExpr::Literal(value)),
        HostExpr::Var(name) => Ok(YarnExpr::GetVar(name)),
        HostExpr::Paren(inner) => translation(*inner),
        HostExpr::Unary(token, inner) => match translation(*inner) {
            Err(e) => Err(e),
            Ok(operand) => match unary_of(token) {
                Some(op) => Ok(YarnExpr::UnaryOp(op, Box::new(operand))),
                None => Err(ExprError::Operator(OpError::InvalidUnaryOperator(token))),
            },
        },
        HostExpr::Binary(left, token, right) => match translation(*left) {
            Err(e) => Err(e),
            Ok(l) => match translation(*right) {
                Err(e) => Err(e),
                Ok(r) => match binary_of(token) {
                    Some(op) => Ok(YarnExpr::BinaryOp(op, Box::new(l), Box::new(r))),
                    None => Err(ExprError::Operator(OpError::InvalidBinaryOperator(token))),
                },
            },
        },
        HostExpr::Call(name, args) => call_translation(name, args@),
        HostExpr::Other(snippet) => Err(ExprError::Unsupported { snippet }),
    }
}

/// Whether two strings hold the same characters.
pub fn same_text(a: &str, b: &str) -> (r: bool)
    ensures
        r == (a@ == b@),
{
    let n: usize = a.unicode_len();
    if b.unicode_len() != n {
        return false;
    }
    let mut i: usize = 0;
    while i < n
        invariant
            n == a@.len(),
            n == b@.len(),
            i <= n,
            forall|k: int| 0 <= k < i ==> a@[k] == b@[k],
        decreases n - i,
    {
        if a.get_char(i) != b.get_char(i) {
            return false;
        }
        i = i + 1;
    }
    assert(a@ =~= b@);
    true
}

/// Translates a call: only `visited` and `visited_count` are known, each
/// with one string literal as its argument.
pub fn translate_call(name: String, args: Vec<HostExpr>) -> (r: Result<YarnExpr, ExprError>)
    ensures
        r == call_translation(name, args@),
{
    let is_visited: bool = same_text(name.as_str(), "visited");
    let is_count: bool = same_text(name.as_str(), "visited_count");
    let mut args = args;
    let given: usize = args.len();
    if !is_visited && !is_count {
        Err(ExprError::UnknownFunction { name, arguments: given })
    } else if given != 1 {
        Err(ExprError::WrongArity { name, arguments: given })
    } else {
        match args.pop() {
            Some(HostExpr::Lit(Literal::Str(node))) => if is_visited {
                Ok(YarnExpr::BuiltInFunctionCall(BuiltInFunctionCall::Visited(node)))
            } else {
                Ok(YarnExpr::BuiltInFunctionCall(BuiltInFunctionCall::VisitedCount(node)))
            },
            _ => Err(ExprError::NonLiteralArgument { name }),
        }
    }
}

/// Translates a host expression into an expression of the dialogue language.
pub fn translate(expr: HostExpr) -> (r: Result<YarnExpr, ExprError>)
    ensures
        r == translation(expr),
    decreases expr,
{
    match expr {
        HostExpr::Lit(value) => Ok(YarnExpr::Literal(value)),
        HostExpr::Var(name) => Ok(YarnExpr::GetVar(name)),
        HostExpr::Paren(inner) => translate(*inner),
        HostExpr::Unary(token, inner) => {
            let operand: YarnExpr = match translate(*inner) {
                Ok(operand) => operand,
                Err(e) => {
                    return Err(e);
                },
            };
            match YarnUnaryOp::try_from_syn(token) {
                Ok(op) => Ok(YarnExpr::UnaryOp(op, Box::new(operand))),
                Err(e) => Err(ExprError::Operator(e)),
            }
        },
        HostExpr::Binary(left, token, right) => {
            let l: YarnExpr = match translate(*left) {
                Ok(l) => l,
                Err(e) => {
                    return Err(e);
                },
            };
            let r: YarnExpr = match translate(*right) {
                Ok(r) => r,
                Err(e) => {
                    return Err(e);
                },
            };
            match YarnBinaryOp::try_from_syn(token) {
                Ok(op) => Ok(YarnExpr::BinaryOp(op, Box::new(l), Box::new(r))),
                Err(e) => Err(ExprError::Operator(e)),
            }
        },
        HostExpr::Call(name, args) => translate_call(name, args),
        HostExpr::Other(snippet) => Err(ExprError::Unsupported { snippet }),
    }
}

} // verus!
