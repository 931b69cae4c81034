//! The operators of the expression language, how they are resolved from the
//! host grammar's operator tokens, and how they are rendered back.

use vstd::prelude::*;

verus! {

/// A unary operator token of the host expression grammar.
#[derive(Debug, Clone, Copy, PartialEq, Eq, Structural)]
pub enum SynUnaryOp {
    Deref,
    Not,
    Neg,
}

/// A binary operator token of the host expression grammar.
#[derive(Debug, Clone, Copy, PartialEq, Eq, Structural)]
pub enum SynBinOp {
    Add,
    Sub,
    Mul,
    Div,
    Rem,
    And,
    Or,
    BitXor,
    BitAnd,
    BitOr,
    Shl,
    Shr,
    Eq,
    Lt,
    Le,
    Ne,
    Ge,
    Gt,
    AddAssign,
    SubAssign,
    MulAssign,
    DivAssign,
    RemAssign,
    BitXorAssign,
    BitAndAssign,
    BitOrAssign,
    ShlAssign,
    ShrAssign,
}

/// An operator token that the expression language does not have.
#[derive(Debug, Clone, Copy, PartialEq, Eq, Structural)]
pub enum OpError {
    InvalidUnaryOperator(SynUnaryOp),
    InvalidBinaryOperator(SynBinOp),
}

#[derive(Debug, Clone, Copy, PartialEq, Eq, Structural)]
pub enum YarnUnaryOp {
    Not,
    Negate,
}

#[derive(Debug, Clone, Copy, PartialEq, Eq, Structural)]
pub enum YarnBinaryOp {
    Add,
    Sub,
    Mul,
    Div,
    Rem,
    And,
    Or,
    Eq,
    Ne,
    Lt,
    Le,
    Gt,
    Ge,
    BitXor,
    BitAnd,
    BitOr,
}

/// The unary operator that a host token stands for, if any.
pub open spec fn unary_of(token: SynUnaryOp) -> Option<YarnUnaryOp> {
    match token {
        SynUnaryOp::Not => Some(YarnUnaryOp::Not),
        SynUnaryOp::Neg => Some(YarnUnaryOp::Negate),
        SynUnaryOp::Deref => None,
    }
}

/// The host token that renders a unary operator.
pub open spec fn unary_token(op: YarnUnaryOp) -> SynUnaryOp {
    match op {
        YarnUnaryOp::Not => SynUnaryOp::Not,
        YarnUnaryOp::Negate => SynUnaryOp::Neg,
    }
}

/// The binary operator that a host token stands for, if any.
pub open spec fn binary_of(token: SynBinOp) -> Option<YarnBinaryOp> {
    match token {
        SynBinOp::Add => Some(YarnBinaryOp::Add),
        SynBinOp::Sub => Some(YarnBinaryOp::Sub),
        SynBinOp::Mul => Some(YarnBinaryOp::Mul),
        SynBinOp::Div => Some(YarnBinaryOp::Div),
        SynBinOp::Rem => Some(YarnBinaryOp::Rem),
        SynBinOp::And => Some(YarnBinaryOp::And),
        SynBinOp::Or => Some(YarnBinaryOp::Or),
        SynBinOp::Eq => Some(YarnBinaryOp::Eq),
        SynBinOp::Ne => Some(YarnBinaryOp::Ne),
        SynBinOp::Lt => Some(YarnBinaryOp::Lt),
        SynBinOp::Le => Some(YarnBinaryOp::Le),
        SynBinOp::Gt => Some(YarnBinaryOp::Gt),
        SynBinOp::Ge => Some(YarnBinaryOp::Ge),
        SynBinOp::BitXor => Some(YarnBinaryOp::BitXor),
        SynBinOp::BitAnd => Some(YarnBinaryOp::BitAnd),
        SynBinOp::BitOr => Some(YarnBinaryOp::BitOr),
        _ => None,
    }
}

/// The host token that renders a binary operator.
pub open spec fn binary_token(op: YarnBinaryOp) -> SynBinOp {
    match op {
        YarnBinaryOp::Add => SynBinOp::Add,
        YarnBinaryOp::Sub => SynBinOp::Sub,
        YarnBinaryOp::Mul => SynBinOp::Mul,
        YarnBinaryOp::Div => SynBinOp::Div,
        YarnBinaryOp::Rem => SynBinOp::Rem,
        YarnBinaryOp::And => SynBinOp::And,
        YarnBinaryOp::Or => SynBinOp::Or,
        YarnBinaryOp::Eq => SynBinOp::Eq,
        YarnBinaryOp::Ne => SynBinOp::Ne,
        YarnBinaryOp::Lt => SynBinOp::Lt,
        YarnBinaryOp::Le => SynBinOp::Le,
        YarnBinaryOp::Gt => SynBinOp::Gt,
        YarnBinaryOp::Ge => SynBinOp::Ge,
        YarnBinaryOp::BitXor => SynBinOp::BitXor,
        YarnBinaryOp::BitAnd => SynBinOp::BitAnd,
        YarnBinaryOp::BitOr => SynBinOp::BitOr,
    }
}

/// The source text of a unary host token.
pub open spec fn unary_symbol(token: SynUnaryOp) -> Seq<char> {
    match token {
        SynUnaryOp::Deref => "*"@,
        SynUnaryOp::Not => "!"@,
        SynUnaryOp::Neg => "-"@,
    }
}

/// The source text of the binary host tokens that stand for an operator of
/// the expression language.
pub open spec fn binary_symbol(op: YarnBinaryOp) -> Seq<char> {
    match op {
        YarnBinaryOp::Add => "+"@,
        YarnBinaryOp::Sub => "-"@,
        YarnBinaryOp::Mul => "*"@,
        YarnBinaryOp::Div => "/"@,
        YarnBinaryOp::Rem => "%"@,
        YarnBinaryOp::And => "&&"@,
        YarnBinaryOp::Or => "||"@,
        YarnBinaryOp::Eq => "=="@,
        YarnBinaryOp::Ne => "!="@,
        YarnBinaryOp::Lt => "<"@,
        YarnBinaryOp::Le => "<="@,
        YarnBinaryOp::Gt => ">"@,
        YarnBinaryOp::Ge => ">="@,
        YarnBinaryOp::BitXor => "^"@,
        YarnBinaryOp::BitAnd => "&"@,
        YarnBinaryOp::BitOr => "|"@,
    }
}

impl YarnUnaryOp {
    /// The operator's source text.
    pub fn resolve(self) -> (r: &'static str)
        ensures
            r@ == unary_symbol(unary_token(self)),
    {
        match self {
            YarnUnaryOp::Not => "!",
            YarnUnaryOp::Negate => "-",
        }
    }

    /// Resolves a host token to a unary operator; `*` is refused.
    pub fn try_from_syn(unary_syn: SynUnaryOp) -> (r: Result<Self, OpError>)
        ensures
            match unary_of(unary_syn) {
                Some(op) => r == Ok::<Self, OpError>(op),
                None => r == Err::<Self, OpError>(OpError::InvalidUnaryOperator(unary_syn)),
            },
    {
        match unary_syn {
            SynUnaryOp::Not => Ok(YarnUnaryOp::Not),
            SynUnaryOp::Neg => Ok(YarnUnaryOp::Negate),
            invalid_op => Err(OpError::InvalidUnaryOperator(invalid_op)),
        }
    }
}

impl YarnBinaryOp {
    /// The operator's source text.
    pub fn resolve(self) -> (r: &'static str)
        ensures
            r@ == binary_symbol(self),
    {
        match self {
            YarnBinaryOp::Add => "+",
            YarnBinaryOp::Sub => "-",
            YarnBinaryOp::Mul => "*",
            YarnBinaryOp::Div => "/",
            YarnBinaryOp::Rem => "%",
            YarnBinaryOp::And => "&&",
            YarnBinaryOp::Or => "||",
            YarnBinaryOp::Eq => "==",
            YarnBinaryOp::Ne => "!=",
            YarnBinaryOp::Lt => "<",
            YarnBinaryOp::Le => "<=",
            YarnBinaryOp::Gt => ">",
            YarnBinaryOp::Ge => ">=",
            YarnBinaryOp::BitXor => "^",
            YarnBinaryOp::BitAnd => "&",
            YarnBinaryOp::BitOr => "|",
        }
    }

    /// Resolves a host token to a binary operator; shifts and compound
    /// assignments are refused.
    pub fn try_from_syn(syn_op: SynBinOp) -> (r: Result<Self, OpError>)
        ensures
            match binary_of(syn_op) {
                Some(op) => r == Ok::<Self, OpError>(op),
                None => r == Err::<Self, OpError>(OpError::InvalidBinaryOperator(syn_op)),
            },
    {
        match syn_op {
            SynBinOp::Add => Ok(YarnBinaryOp::Add),
            SynBinOp::Sub => Ok(YarnBinaryOp::Sub),
            SynBinOp::Mul => Ok(YarnBinaryOp::Mul),
            SynBinOp::Div => Ok(YarnBinaryOp::Div),
            SynBinOp::Rem => Ok(YarnBinaryOp::Rem),
            SynBinOp::And => Ok(YarnBinaryOp::And),
            SynBinOp::Or => Ok(YarnBinaryOp::Or),
            SynBinOp::Eq => Ok(YarnBinaryOp::Eq),
            SynBinOp::Ne => Ok(YarnBinaryOp::Ne),
            SynBinOp::Lt => Ok(YarnBinaryOp::Lt),
            SynBinOp::Le => Ok(YarnBinaryOp::Le),
            SynBinOp::Gt => Ok(YarnBinaryOp::Gt),
            SynBinOp::Ge => Ok(YarnBinaryOp::Ge),
            SynBinOp::BitAnd => Ok(YarnBinaryOp::BitAnd),
            SynBinOp::BitOr => Ok(YarnBinaryOp::BitOr),
            SynBinOp::BitXor => Ok(YarnBinaryOp::BitXor),
            invalid_op => Err(OpError::InvalidBinaryOperator(invalid_op)),
        }
    }
}

/// Rendering an operator and resolving the token it renders to gives the
/// operator back.
pub proof fn lemma_resolve_inverts_render(unary: YarnUnaryOp, binary: YarnBinaryOp)
    ensures
        unary_of(unary_token(unary)) == Some(unary),
        binary_of(binary_token(binary)) == Some(binary),
{
}

} // verus!
