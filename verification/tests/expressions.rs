use yarn_codegen::expr::{
    same_text, translate, translate_call, BuiltInFunctionCall, ExprError, HostExpr, Literal,
    YarnExpr,
};
use yarn_codegen::ops::{OpError, SynBinOp, SynUnaryOp, YarnBinaryOp, YarnUnaryOp};

fn own(text: &str) -> String {
    text.to_string()
}

fn var(name: &str) -> HostExpr {
    HostExpr::Var(own(name))
}

fn get(name: &str) -> YarnExpr {
    YarnExpr::GetVar(own(name))
}

#[test]
fn binary_operators_resolve() {
    let pairs = [
        (SynBinOp::Add, YarnBinaryOp::Add, "+"),
        (SynBinOp::Sub, YarnBinaryOp::Sub, "-"),
        (SynBinOp::Mul, YarnBinaryOp::Mul, "*"),
        (SynBinOp::Div, YarnBinaryOp::Div, "/"),
        (SynBinOp::Rem, YarnBinaryOp::Rem, "%"),
        (SynBinOp::And, YarnBinaryOp::And, "&&"),
        (SynBinOp::Or, YarnBinaryOp::Or, "||"),
        (SynBinOp::Eq, YarnBinaryOp::Eq, "=="),
        (SynBinOp::Ne, YarnBinaryOp::Ne, "!="),
        (SynBinOp::Lt, YarnBinaryOp::Lt, "<"),
        (SynBinOp::Le, YarnBinaryOp::Le, "<="),
        (SynBinOp::Gt, YarnBinaryOp::Gt, ">"),
        (SynBinOp::Ge, YarnBinaryOp::Ge, ">="),
        (SynBinOp::BitXor, YarnBinaryOp::BitXor, "^"),
        (SynBinOp::BitAnd, YarnBinaryOp::BitAnd, "&"),
        (SynBinOp::BitOr, YarnBinaryOp::BitOr, "|"),
    ];
    for (token, op, symbol) in pairs {
        assert_eq!(YarnBinaryOp::try_from_syn(token), Ok(op));
        assert_eq!(op.resolve(), symbol);
    }
}

#[test]
fn other_binary_operators_are_refused() {
    let refused = [
        SynBinOp::Shl,
        SynBinOp::Shr,
        SynBinOp::AddAssign,
        SynBinOp::SubAssign,
        SynBinOp::MulAssign,
        SynBinOp::DivAssign,
        SynBinOp::RemAssign,
        SynBinOp::BitXorAssign,
        SynBinOp::BitAndAssign,
        SynBinOp::BitOrAssign,
        SynBinOp::ShlAssign,
        SynBinOp::ShrAssign,
    ];
    for token in refused {
        assert_eq!(YarnBinaryOp::try_from_syn(token), Err(OpError::InvalidBinaryOperator(token)));
    }
}

#[test]
fn unary_operators_resolve() {
    assert_eq!(YarnUnaryOp::try_from_syn(SynUnaryOp::Not), Ok(YarnUnaryOp::Not));
    assert_eq!(YarnUnaryOp::try_from_syn(SynUnaryOp::Neg), Ok(YarnUnaryOp::Negate));
    assert_eq!(
        YarnUnaryOp::try_from_syn(SynUnaryOp::Deref),
        Err(OpError::InvalidUnaryOperator(SynUnaryOp::Deref))
    );
    assert_eq!(YarnUnaryOp::Not.resolve(), "!");
    assert_eq!(YarnUnaryOp::Negate.resolve(), "-");
}

#[test]
fn expressions_translate() {
    assert_eq!(translate(var("gold")), Ok(get("gold")));
    assert_eq!(
        translate(HostExpr::Lit(Literal::Number(own("42")))),
        Ok(YarnExpr::Literal(Literal::Number(own("42"))))
    );
    let host = HostExpr::Binary(
        Box::new(HostExpr::Paren(Box::new(HostExpr::Unary(SynUnaryOp::Neg, Box::new(var("a")))))),
        SynBinOp::Le,
        Box::new(HostExpr::Lit(Literal::Number(own("3")))),
    );
    assert_eq!(
        translate(host),
        Ok(YarnExpr::BinaryOp(
            YarnBinaryOp::Le,
            Box::new(YarnExpr::UnaryOp(YarnUnaryOp::Negate, Box::new(get("a")))),
            Box::new(YarnExpr::Literal(Literal::Number(own("3")))),
        ))
    );
}

#[test]
fn built_in_calls_translate() {
    let arg = || vec![HostExpr::Lit(Literal::Str(own("Cellar")))];
    assert_eq!(
        translate(HostExpr::Call(own("visited"), arg())),
        Ok(YarnExpr::BuiltInFunctionCall(BuiltInFunctionCall::Visited(own("Cellar"))))
    );
    assert_eq!(
        translate_call(own("visited_count"), arg()),
        Ok(YarnExpr::BuiltInFunctionCall(BuiltInFunctionCall::VisitedCount(own("Cellar"))))
    );
    assert_eq!(
        translate_call(own("dice"), arg()),
        Err(ExprError::UnknownFunction { name: own("dice"), arguments: 1 })
    );
    assert_eq!(
        translate_call(own("visited"), vec![]),
        Err(ExprError::WrongArity { name: own("visited"), arguments: 0 })
    );
    assert_eq!(
        translate_call(own("visited_count"), vec![var("a"), var("b")]),
        Err(ExprError::WrongArity { name: own("visited_count"), arguments: 2 })
    );
    assert_eq!(
        translate_call(own("visited"), vec![var("a")]),
        Err(ExprError::NonLiteralArgument { name: own("visited") })
    );
    assert_eq!(
        translate_call(own("visited"), vec![HostExpr::Lit(Literal::Number(own("1")))]),
        Err(ExprError::NonLiteralArgument { name: own("visited") })
    );
}

#[test]
fn first_failure_is_reported() {
    let host = HostExpr::Binary(
        Box::new(HostExpr::Other(own("left"))),
        SynBinOp::Shl,
        Box::new(HostExpr::Other(own("right"))),
    );
    assert_eq!(translate(host), Err(ExprError::Unsupported { snippet: own("left") }));
    let host = HostExpr::Binary(Box::new(var("a")), SynBinOp::Shl, Box::new(var("b")));
    assert_eq!(
        translate(host),
        Err(ExprError::Operator(OpError::InvalidBinaryOperator(SynBinOp::Shl)))
    );
    let host = HostExpr::Unary(SynUnaryOp::Deref, Box::new(var("a")));
    assert_eq!(
        translate(host),
        Err(ExprError::Operator(OpError::InvalidUnaryOperator(SynUnaryOp::Deref)))
    );
}

#[test]
fn texts_compare_by_characters() {
    assert!(same_text("visited", "visited"));
    assert!(!same_text("visited", "visitee"));
    assert!(!same_text("visited", "visited_count"));
    assert!(same_text("", ""));
}
