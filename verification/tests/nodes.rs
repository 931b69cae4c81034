use yarn_codegen::expr::{BuiltInFunctionCall, Literal, YarnExpr};
use yarn_codegen::metadata::{NodeMetadata, TrackingSetting};
use yarn_codegen::nodes::{
    contains_text, infer_all_nodes_tracking, is_node_title, node_names_in_args, Command, IDNode,
    IDScope, Instruction, InstructionKind, OptionsFork, ReferenceError,
};
use yarn_codegen::ops::{YarnBinaryOp, YarnUnaryOp};
use yarn_codegen::speech::Speech;

fn own(text: &str) -> String {
    text.to_string()
}

fn visited(name: &str) -> YarnExpr {
    YarnExpr::BuiltInFunctionCall(BuiltInFunctionCall::Visited(own(name)))
}

fn visited_count(name: &str) -> YarnExpr {
    YarnExpr::BuiltInFunctionCall(BuiltInFunctionCall::VisitedCount(own(name)))
}

fn speech(exprs: Vec<YarnExpr>) -> Instruction {
    Instruction::Speech(Speech {
        line_number: 1,
        line_id: None,
        speaker: None,
        text: (own("{}"), exprs),
        tags: vec![],
    })
}

fn command(exprs: Vec<YarnExpr>) -> Instruction {
    Instruction::Command(Command { line_number: 2, exprs })
}

fn fork(exprs: Vec<YarnExpr>) -> Instruction {
    Instruction::OptionsFork(OptionsFork { line_number: 3, exprs })
}

fn settings(nodes: &[IDNode]) -> Result<Vec<TrackingSetting>, ReferenceError> {
    infer_all_nodes_tracking(nodes).map(|pairs| {
        assert_eq!(pairs.len(), nodes.len());
        for (k, (node, _)) in pairs.iter().enumerate() {
            assert!(std::ptr::eq(*node, &nodes[k]));
        }
        pairs.into_iter().map(|(_, setting)| setting).collect()
    })
}

fn node(title: &str, tracking: Option<TrackingSetting>, scopes: Vec<Vec<Instruction>>) -> IDNode {
    IDNode {
        metadata: NodeMetadata { title: own(title), tags: vec![], tracking, customs: vec![] },
        scopes: scopes.into_iter().map(|instructions| IDScope { instructions }).collect(),
    }
}

#[test]
fn names_are_collected_in_order() {
    let nested = YarnExpr::BinaryOp(
        YarnBinaryOp::And,
        Box::new(YarnExpr::UnaryOp(YarnUnaryOp::Not, Box::new(visited("B")))),
        Box::new(YarnExpr::BinaryOp(
            YarnBinaryOp::Gt,
            Box::new(visited_count("C")),
            Box::new(YarnExpr::Literal(Literal::Number(own("2")))),
        )),
    );
    let a = node(
        "A",
        None,
        vec![
            vec![speech(vec![YarnExpr::GetVar(own("x")), nested]), command(vec![])],
            vec![],
            vec![fork(vec![visited("B")]), command(vec![visited_count("A")])],
        ],
    );
    assert_eq!(node_names_in_args(&a), vec![own("B"), own("C"), own("B"), own("A")]);
    assert_eq!(node_names_in_args(&node("Z", None, vec![])), Vec::<String>::new());
}

#[test]
fn dangling_references_are_reported_together() {
    let nodes = vec![
        node("A", None, vec![vec![speech(vec![visited("X"), visited("B"), visited_count("Y")])]]),
        node("B", None, vec![vec![command(vec![visited("X")])]]),
    ];
    assert_eq!(settings(&nodes), Err(ReferenceError { names: vec![own("X"), own("Y")] }));
}

#[test]
fn one_dangling_reference_is_named() {
    let nodes = vec![node("A", Some(TrackingSetting::Always), vec![vec![fork(vec![visited_count("X")])]])];
    assert_eq!(settings(&nodes), Err(ReferenceError { names: vec![own("X")] }));
}

#[test]
fn without_calls_tracking_is_never_unless_declared() {
    let nodes = vec![
        node("A", None, vec![vec![speech(vec![YarnExpr::GetVar(own("x"))])]]),
        node("B", Some(TrackingSetting::Always), vec![]),
        node("C", Some(TrackingSetting::Never), vec![]),
    ];
    assert_eq!(
        settings(&nodes),
        Ok(vec![TrackingSetting::Never, TrackingSetting::Always, TrackingSetting::Never])
    );
    assert_eq!(settings(&[]), Ok(vec![]));
}

#[test]
fn visited_node_is_tracked() {
    let nodes = vec![
        node("A", None, vec![vec![speech(vec![visited("B")])]]),
        node("B", None, vec![]),
        node("C", Some(TrackingSetting::Never), vec![vec![command(vec![visited_count("C")])]]),
        node("D", None, vec![vec![command(vec![visited_count("D")])]]),
    ];
    assert_eq!(
        settings(&nodes),
        Ok(vec![
            TrackingSetting::Never,
            TrackingSetting::Always,
            TrackingSetting::Never,
            TrackingSetting::Always,
        ])
    );
}

#[test]
fn tracking_does_not_spread() {
    let nodes = vec![
        node("A", None, vec![vec![speech(vec![visited("B")])]]),
        node("B", None, vec![vec![speech(vec![visited("C")])]]),
        node("C", None, vec![]),
    ];
    assert_eq!(
        settings(&nodes),
        Ok(vec![TrackingSetting::Never, TrackingSetting::Always, TrackingSetting::Always])
    );
}

#[test]
fn instruction_kinds_are_ordered_and_empty_ones_left_out() {
    let all = node("A", None, vec![vec![fork(vec![])], vec![command(vec![]), speech(vec![])]]);
    assert_eq!(
        all.instruction_kinds(),
        vec![InstructionKind::Speech, InstructionKind::Command, InstructionKind::OptionsFork]
    );
    let some = node("B", None, vec![vec![], vec![fork(vec![]), fork(vec![])], vec![speech(vec![])]]);
    assert_eq!(some.instruction_kinds(), vec![InstructionKind::Speech, InstructionKind::OptionsFork]);
    assert!(some.has_kind(InstructionKind::OptionsFork));
    assert!(!some.has_kind(InstructionKind::Command));
    assert_eq!(node("C", None, vec![vec![]]).instruction_kinds(), vec![]);
    assert_eq!(command(vec![]).kind(), InstructionKind::Command);
    assert_eq!(speech(vec![visited("Q")]).exprs(), &vec![visited("Q")]);
}

#[test]
fn titles_and_texts_are_found() {
    let nodes = vec![node("A", None, vec![]), node("Bee", None, vec![])];
    assert!(is_node_title(&nodes, "Bee"));
    assert!(!is_node_title(&nodes, "B"));
    assert!(contains_text(&vec![own("x"), own("y")], "y"));
    assert!(!contains_text(&vec![own("x"), own("y")], "z"));
    assert_eq!(TrackingSetting::Always.qualified_name(), "TrackingSetting::Always");
    assert_eq!(TrackingSetting::Never.qualified_name(), "TrackingSetting::Never");
}
