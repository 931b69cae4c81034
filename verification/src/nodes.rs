//! Whole nodes: which nodes are referred to by `visited` and
//! `visited_count`, the tracking setting that follows for each node, and the
//! kinds of instruction that a node holds.

use vstd::prelude::*;
use vstd::string::*;
use crate::expr::{same_text, BuiltInFunctionCall, YarnExpr};
use crate::metadata::{NodeMetadata, TrackingSetting};
use crate::speech::Speech;
use crate::text::texts;

verus! {

/// A command line with the expressions of its arguments.
#[derive(Debug, PartialEq, Eq)]
pub struct Command {
    pub line_number: usize,
    pub exprs: Vec<YarnExpr>,
}

/// A fork of options with the expressions of its option lines and of their
/// conditions.
#[derive(Debug, PartialEq, Eq)]
pub struct OptionsFork {
    pub line_number: usize,
    pub exprs: Vec<YarnExpr>,
}

/// One instruction of a node.
#[derive(Debug, PartialEq, Eq)]
pub enum Instruction {
    Speech(Speech),
    Command(Command),
    OptionsFork(OptionsFork),
}

/// The kinds of instruction, in the order in which their types are emitted.
#[derive(Debug, Clone, Copy, PartialEq, Eq, Structural)]
pub enum InstructionKind {
    Speech,
    Command,
    OptionsFork,
}

/// An ordered block of instructions.
#[derive(Debug, PartialEq, Eq)]
pub struct IDScope {
    pub instructions: Vec<Instruction>,
}

/// A node: its declarations and its scopes.
#[derive(Debug, PartialEq, Eq)]
pub struct IDNode {
    pub metadata: NodeMetadata,
    pub scopes: Vec<IDScope>,
}

/// Node names that are referred to and that no node has as its title.
#[derive(Debug, Clone, PartialEq, Eq)]
pub struct ReferenceError {
    pub names: Vec<String>,
}

/// The node names that `visited` and `visited_count` calls in `expr` refer
/// to, from left to right.
pub open spec fn expr_names(expr: YarnExpr) -> Seq<Seq<char>>
    decreases expr,
{
    match expr {
        YarnExpr::GetVar(_) => Seq::empty(),
        YarnExpr::Literal(_) => Seq::empty(),
        YarnExpr::UnaryOp(_, operand) => expr_names(*operand),
        YarnExpr::BinaryOp(_, left, right) => expr_names(*left) + expr_names(*right),
        YarnExpr::BuiltInFunctionCall(BuiltInFunctionCall::Visited(name)) => seq![name@],
        YarnExpr::BuiltInFunctionCall(BuiltInFunctionCall::VisitedCount(name)) => seq![name@],
    }
}

/// The node names that the expressions refer to, in order.
pub open spec fn exprs_names(exprs: Seq<YarnExpr>) -> Seq<Seq<char>>
    decreases exprs.len(),
{
    if exprs.len() == 0 {
        Seq::empty()
    } else {
        exprs_names(exprs.drop_last()) + expr_names(exprs.last())
    }
}

/// The expressions of an instruction.
pub open spec fn instruction_exprs(instruction: Instruction) -> Seq<YarnExpr> {
    match instruction {
        Instruction::Speech(speech) => speech.text.1@,
        Instruction::Command(command) => command.exprs@,
        Instruction::OptionsFork(fork) => fork.exprs@,
    }
}

/// The kind of an instruction.
pub open spec fn kind_of(instruction: Instruction) -> InstructionKind {
    match instruction {
        Instruction::Speech(_) => InstructionKind::Speech,
        Instruction::Command(_) => InstructionKind::Command,
        Instruction::OptionsFork(_) => InstructionKind::OptionsFork,
    }
}

/// The node names that the instructions refer to, in order.
pub open spec fn instructions_names(instructions: Seq<Instruction>) -> Seq<Seq<char>>
    decreases instructions.len(),
{
    if instructions.len() == 0 {
        Seq::empty()
    } else {
        instructions_names(instructions.drop_last()) + exprs_names(
            instruction_exprs(instructions.last()),
        )
    }
}

/// The node names that the scopes refer to, in order.
pub open spec fn scopes_names(scopes: Seq<IDScope>) -> Seq<Seq<char>>
    decreases scopes.len(),
{
    if scopes.len() == 0 {
        Seq::empty()
    } else {
        scopes_names(scopes.drop_last()) + instructions_names(scopes.last().instructions@)
    }
}

/// The node names that a node refers to.
pub open spec fn node_names(node: IDNode) -> Seq<Seq<char>> {
    scopes_names(node.scopes@)
}

/// The node names that the nodes refer to, in order.
pub open spec fn all_names(nodes: Seq<IDNode>) -> Seq<Seq<char>>
    decreases nodes.len(),
{
    if nodes.len() == 0 {
        Seq::empty()
    } else {
        all_names(nodes.drop_last()) + node_names(nodes.last())
    }
}

/// Whether some node has `name` as its title.
pub open spec fn is_title(nodes: Seq<IDNode>, name: Seq<char>) -> bool {
    exists|i: int| 0 <= i < nodes.len() && (#[trigger] nodes[i]).metadata.title@ == name
}

/// The names among `names` that are no node's title, each once, in the
/// order in which they first occur.
pub open spec fn dangling(names: Seq<Seq<char>>, nodes: Seq<IDNode>) -> Seq<Seq<char>>
    decreases names.len(),
{
    if names.len() == 0 {
        Seq::empty()
    } else {
        let before = dangling(names.drop_last(), nodes);
        if !is_title(nodes, names.last()) && !before.contains(names.last()) {
            before.push(names.last())
        } else {
            before
        }
    }
}

/// The tracking of a node: what it declares; without a declaration,
/// `Always` if some node refers to it, and `Never` if none does.
pub open spec fn node_tracking(nodes: Seq<IDNode>, node: IDNode) -> TrackingSetting {
    match node.metadata.tracking {
        Some(setting) => setting,
        None => if all_names(nodes).contains(node.metadata.title@) {
            TrackingSetting::Always
        } else {
            TrackingSetting::Never
        },
    }
}

/// The tracking of every node, in the order of the nodes; or the names
/// that are referred to and belong to no node.
pub open spec fn inferred_tracking(nodes: Seq<IDNode>) -> Result<
    Seq<TrackingSetting>,
    Seq<Seq<char>>,
> {
    let missing = dangling(all_names(nodes), nodes);
    if missing.len() > 0 {
        Err(missing)
    } else {
        Ok(Seq::new(nodes.len(), |k: int| node_tracking(nodes, nodes[k])))
    }
}

/// Whether the scope holds an instruction of the given kind.
pub open spec fn scope_has_kind(scope: IDScope, kind: InstructionKind) -> bool {
    exists|k: int|
        0 <= k < scope.instructions@.len() && kind_of(#[trigger] scope.instructions@[k]) == kind
}

/// Whether the node holds an instruction of the given kind.
pub open spec fn has_kind(node: IDNode, kind: InstructionKind) -> bool {
    exists|s: int| 0 <= s < node.scopes@.len() && scope_has_kind(#[trigger] node.scopes@[s], kind)
}

/// The kinds of instruction that the node holds: speech, command, options
/// fork, in this order, without those of which it holds none.
pub open spec fn present_kinds(node: IDNode) -> Seq<InstructionKind> {
    let speech = if has_kind(node, InstructionKind::Speech) {
        seq![InstructionKind::Speech]
    } else {
        Seq::empty()
    };
    let command = if has_kind(node, InstructionKind::Command) {
        seq![InstructionKind::Command]
    } else {
        Seq::empty()
    };
    let fork = if has_kind(node, InstructionKind::OptionsFork) {
        seq![InstructionKind::OptionsFork]
    } else {
        Seq::empty()
    };
    speech + command + fork
}

/// Appends to `out` the node names that `expr` refers to.
pub fn collect_expr_names(expr: &YarnExpr, out: &mut Vec<String>)
    ensures
        texts(final(out)@) == texts(old(out)@) + expr_names(*expr),
    decreases *expr,
{
    let ghost before = texts(out@);
    match expr {
        YarnExpr::GetVar(_) => {
            assert(before + Seq::<Seq<char>>::empty() =~= before);
        },
        YarnExpr::Literal(_) => {
            assert(before + Seq::<Seq<char>>::empty() =~= before);
        },
        YarnExpr::UnaryOp(_, operand) => {
            collect_expr_names(&**operand, out);
        },
        YarnExpr::BinaryOp(_, left, right) => {
            collect_expr_names(&**left, out);
            collect_expr_names(&**right, out);
            assert(texts(out@) =~= before + (expr_names(**left) + expr_names(**right)));
        },
        YarnExpr::BuiltInFunctionCall(BuiltInFunctionCall::Visited(name)) => {
            out.push(name.clone());
            assert(texts(out@) =~= before + seq![name@]);
        },
        YarnExpr::BuiltInFunctionCall(BuiltInFunctionCall::VisitedCount(name)) => {
            out.push(name.clone());
            assert(texts(out@) =~= before + seq![name@]);
        },
    }
}

/// Appends to `out` the node names that the expressions refer to.
pub fn collect_exprs_names(exprs: &Vec<YarnExpr>, out: &mut Vec<String>)
    ensures
        texts(final(out)@) == texts(old(out)@) + exprs_names(exprs@),
{
    let ghost before = texts(out@);
    let n: usize = exprs.len();
    let mut i: usize = 0;
    assert(exprs@.take(0) =~= Seq::<YarnExpr>::empty());
    assert(before + Seq::<Seq<char>>::empty() =~= before);
    while i < n
        invariant
            n == exprs@.len(),
            i <= n,
            texts(out@) == before + exprs_names(exprs@.take(i as int)),
        decreases n - i,
    {
        assert(exprs@.take(i as int + 1).drop_last() =~= exprs@.take(i as int));
        collect_expr_names(&exprs[i], out);
        assert(texts(out@) =~= before + exprs_names(exprs@.take(i as int + 1)));
        i = i + 1;
    }
    assert(exprs@.take(n as int) =~= exprs@);
}

impl Instruction {
    /// The expressions of the instruction.
    pub fn exprs(&self) -> (r: &Vec<YarnExpr>)
        ensures
            r@ == instruction_exprs(*self),
    {
        match self {
            Instruction::Speech(speech) => &speech.text.1,
            Instruction::Command(command) => &command.exprs,
            Instruction::OptionsFork(fork) => &fork.exprs,
        }
    }

    /// The kind of the instruction.
    pub fn kind(&self) -> (r: InstructionKind)
        ensures
            r == kind_of(*self),
    {
        match self {
            Instruction::Speech(_) => InstructionKind::Speech,
            Instruction::Command(_) => InstructionKind::Command,
            Instruction::OptionsFork(_) => InstructionKind::OptionsFork,
        }
    }
}

/// Appends to `out` the node names that the scope's instructions refer to.
pub fn collect_scope_names(scope: &IDScope, out: &mut Vec<String>)
    ensures
        texts(final(out)@) == texts(old(out)@) + instructions_names(scope.instructions@),
{
    let ghost before = texts(out@);
    let ghost all = scope.instructions@;
    let n: usize = scope.instructions.len();
    let mut i: usize = 0;
    assert(all.take(0) =~= Seq::<Instruction>::empty());
    assert(before + Seq::<Seq<char>>::empty() =~= before);
    while i < n
        invariant
            all == scope.instructions@,
            n == all.len(),
            i <= n,
            texts(out@) == before + instructions_names(all.take(i as int)),
        decreases n - i,
    {
        assert(all.take(i as int + 1).drop_last() =~= all.take(i as int));
        collect_exprs_names(scope.instructions[i].exprs(), out);
        assert(texts(out@) =~= before + instructions_names(all.take(i as int + 1)));
        i = i + 1;
    }
    assert(all.take(n as int) =~= all);
}

/// The node names that the `visited` and `visited_count` calls of a node
/// refer to, in the order of the calls.
pub fn node_names_in_args(node: &IDNode) -> (r: Vec<String>)
    ensures
        texts(r@) == node_names(*node),
{
    let mut out: Vec<String> = Vec::new();
    let ghost all = node.scopes@;
    let n: usize = node.scopes.len();
    let mut i: usize = 0;
    assert(all.take(0) =~= Seq::<IDScope>::empty());
    assert(texts(out@) =~= Seq::<Seq<char>>::empty());
    while i < n
        invariant
            all == node.scopes@,
            n == all.len(),
            i <= n,
            texts(out@) == scopes_names(all.take(i as int)),
        decreases n - i,
    {
        assert(all.take(i as int + 1).drop_last() =~= all.take(i as int));
        collect_scope_names(&node.scopes[i], &mut out);
        i = i + 1;
    }
    assert(all.take(n as int) =~= all);
    out
}

impl IDScope {
    /// Whether the scope holds an instruction of the given kind.
    pub fn has_kind(&self, kind: InstructionKind) -> (r: bool)
        ensures
            r == scope_has_kind(*self, kind),
    {
        let n: usize = self.instructions.len();
        let mut k: usize = 0;
        while k < n
            invariant
                n == self.instructions@.len(),
                k <= n,
                forall|j: int| 0 <= j < k ==> kind_of(#[trigger] self.instructions@[j]) != kind,
            decreases n - k,
        {
            if self.instructions[k].kind() == kind {
                return true;
            }
            k = k + 1;
        }
        false
    }
}

impl IDNode {
    /// Whether the node holds an instruction of the given kind.
    pub fn has_kind(&self, kind: InstructionKind) -> (r: bool)
        ensures
            r == has_kind(*self, kind),
    {
        let n: usize = self.scopes.len();
        let mut s: usize = 0;
        while s < n
            invariant
                n == self.scopes@.len(),
                s <= n,
                forall|j: int| 0 <= j < s ==> !scope_has_kind(#[trigger] self.scopes@[j], kind),
            decreases n - s,
        {
            if self.scopes[s].has_kind(kind) {
                return true;
            }
            s = s + 1;
        }
        false
    }

    /// The kinds of instruction that the node holds, in the order in which
    /// their types are emitted; a kind of which the node holds no
    /// instruction is left out.
    pub fn instruction_kinds(&self) -> (r: Vec<InstructionKind>)
        ensures
            r@ == present_kinds(*self),
    {
        let mut out: Vec<InstructionKind> = Vec::new();
        if self.has_kind(InstructionKind::Speech) {
            out.push(InstructionKind::Speech);
        }
        if self.has_kind(InstructionKind::Command) {
            out.push(InstructionKind::Command);
        }
        if self.has_kind(InstructionKind::OptionsFork) {
            out.push(InstructionKind::OptionsFork);
        }
        assert(out@ =~= present_kinds(*self));
        out
    }
}

/// Whether `list` holds the text `name`.
pub fn contains_text(list: &Vec<String>, name: &str) -> (r: bool)
    ensures
        r == texts(list@).contains(name@),
{
    let n: usize = list.len();
    let mut i: usize = 0;
    while i < n
        invariant
            n == list@.len(),
            i <= n,
            forall|k: int| 0 <= k < i ==> texts(list@)[k] != name@,
        decreases n - i,
    {
        if same_text(list[i].as_str(), name) {
            assert(texts(list@)[i as int] == name@);
            return true;
        }
        i = i + 1;
    }
    false
}

/// Whether some node has the title `name`.
pub fn is_node_title(nodes: &[IDNode], name: &str) -> (r: bool)
    ensures
        r == is_title(nodes@, name@),
{
    let n: usize = nodes.len();
    let mut i: usize = 0;
    while i < n
        invariant
            n == nodes@.len(),
            i <= n,
            forall|k: int| 0 <= k < i ==> (#[trigger] nodes@[k]).metadata.title@ != name@,
        decreases n - i,
    {
        if same_text(nodes[i].metadata.title.as_str(), name) {
            return true;
        }
        i = i + 1;
    }
    false
}

/// Infers the tracking of every node from the whole set of nodes. A name
/// that is referred to and belongs to no node refuses the set; all such
/// names are reported together.
pub fn infer_all_nodes_tracking<'a>(nodes: &'a [IDNode]) -> (r: Result<
    Vec<(&'a IDNode, TrackingSetting)>,
    ReferenceError,
>)
    ensures
        match r {
            Ok(settings) => {
                &&& inferred_tracking(nodes@) is Ok
                &&& settings@.len() == nodes@.len()
                &&& forall|k: int|
                    0 <= k < settings@.len() ==> *(#[trigger] settings@[k]).0 == nodes@[k]
                        && settings@[k].1 == inferred_tracking(nodes@)->Ok_0[k]
            },
            Err(e) => inferred_tracking(nodes@) == Err::<Seq<TrackingSetting>, Seq<Seq<char>>>(
                texts(e.names@),
            ),
        },
{
    let n: usize = nodes.len();
    let mut names: Vec<String> = Vec::new();
    let mut i: usize = 0;
    assert(nodes@.take(0) =~= Seq::<IDNode>::empty());
    assert(texts(names@) =~= Seq::<Seq<char>>::empty());
    while i < n
        invariant
            n == nodes@.len(),
            i <= n,
            texts(names@) == all_names(nodes@.take(i as int)),
        decreases n - i,
    {
        assert(nodes@.take(i as int + 1).drop_last() =~= nodes@.take(i as int));
        let ghost before = texts(names@);
        let mut more: Vec<String> = node_names_in_args(&nodes[i]);
        let ghost added = texts(more@);
        names.append(&mut more);
        assert(texts(names@) =~= before + added);
        i = i + 1;
    }
    assert(nodes@.take(n as int) =~= nodes@);
    let ghost all = texts(names@);
    let count: usize = names.len();
    let mut missing: Vec<String> = Vec::new();
    let mut j: usize = 0;
    assert(all.take(0) =~= Seq::<Seq<char>>::empty());
    assert(texts(missing@) =~= Seq::<Seq<char>>::empty());
    while j < count
        invariant
            count == names@.len(),
            all == texts(names@),
            j <= count,
            texts(missing@) == dangling(all.take(j as int), nodes@),
        decreases count - j,
    {
        assert(all.take(j as int + 1).drop_last() =~= all.take(j as int));
        let ghost before = texts(missing@);
        let name: &str = names[j].as_str();
        if !is_node_title(nodes, name) && !contains_text(&missing, name) {
            missing.push(names[j].clone());
            assert(texts(missing@) =~= before.push(all[j as int]));
        }
        j = j + 1;
    }
    assert(all.take(count as int) =~= all);
    if missing.len() > 0 {
        return Err(ReferenceError { names: missing });
    }
    let mut settings: Vec<(&'a IDNode, TrackingSetting)> = Vec::new();
    let mut k: usize = 0;
    while k < n
        invariant
            n == nodes@.len(),
            k <= n,
            all == texts(names@),
            all == all_names(nodes@),
            settings@.len() == k,
            forall|m: int|
                0 <= m < k ==> (#[trigger] settings@[m]).1 == node_tracking(nodes@, nodes@[m])
                    && *settings@[m].0 == nodes@[m],
        decreases n - k,
    {
        let inferred: TrackingSetting = match nodes[k].metadata.tracking {
            Some(setting) => setting,
            None => if contains_text(&names, nodes[k].metadata.title.as_str()) {
                TrackingSetting::Always
            } else {
                TrackingSetting::Never
            },
        };
        settings.push((&nodes[k], inferred));
        k = k + 1;
    }
    Ok(settings)
}

/// A name is among the dangling ones exactly when it is referred to and
/// is no node's title; no name is listed twice.
pub proof fn lemma_dangling_contains(names: Seq<Seq<char>>, nodes: Seq<IDNode>, x: Seq<char>)
    ensures
        dangling(names, nodes).contains(x) <==> names.contains(x) && !is_title(nodes, x),
        dangling(names, nodes).no_duplicates(),
    decreases names.len(),
{
    if names.len() > 0 {
        let before = dangling(names.drop_last(), nodes);
        lemma_dangling_contains(names.drop_last(), nodes, x);
        if names.contains(x) {
            let i = choose|i: int| 0 <= i < names.len() && names[i] == x;
            if i < names.len() - 1 {
                assert(names.drop_last()[i] == x);
            }
        }
        if names.drop_last().contains(x) {
            let i = choose|i: int| 0 <= i < names.drop_last().len() && names.drop_last()[i] == x;
            assert(names[i] == x);
        }
        if !is_title(nodes, names.last()) && !before.contains(names.last()) {
            let after = before.push(names.last());
            assert(after.last() == names.last());
            if before.contains(x) {
                let i = choose|i: int| 0 <= i < before.len() && before[i] == x;
                assert(after[i] == x);
            }
            if after.contains(x) {
                let i = choose|i: int| 0 <= i < after.len() && after[i] == x;
                if i < before.len() {
                    assert(before[i] == x);
                }
            }
            assert forall|p: int, q: int|
                0 <= p < after.len() && 0 <= q < after.len() && p != q implies after[p]
                != after[q] by {
                if p < before.len() && q < before.len() {
                    assert(before[p] != before[q]);
                } else if p < before.len() {
                    assert(before[p] == after[p]);
                } else {
                    assert(before[q] == after[q]);
                }
            }
        }
        assert(names.last() == names[names.len() - 1]);
    }
}

/// A concatenation holds what one of its two parts holds.
pub proof fn lemma_concat_contains(a: Seq<Seq<char>>, b: Seq<Seq<char>>, x: Seq<char>)
    ensures
        (a + b).contains(x) <==> a.contains(x) || b.contains(x),
{
    if a.contains(x) {
        let i = choose|i: int| 0 <= i < a.len() && a[i] == x;
        assert((a + b)[i] == x);
    }
    if b.contains(x) {
        let i = choose|i: int| 0 <= i < b.len() && b[i] == x;
        assert((a + b)[a.len() + i] == x);
    }
    if (a + b).contains(x) {
        let i = choose|i: int| 0 <= i < (a + b).len() && (a + b)[i] == x;
        if i < a.len() {
            assert(a[i] == x);
        } else {
            assert(b[i - a.len()] == x);
        }
    }
}

/// What one of the expressions refers to, the expressions refer to.
pub proof fn lemma_exprs_names_hold(exprs: Seq<YarnExpr>, e: int, x: Seq<char>)
    requires
        0 <= e < exprs.len(),
        expr_names(exprs[e]).contains(x),
    ensures
        exprs_names(exprs).contains(x),
    decreases exprs.len(),
{
    lemma_concat_contains(exprs_names(exprs.drop_last()), expr_names(exprs.last()), x);
    if e < exprs.len() - 1 {
        assert(exprs.drop_last()[e] == exprs[e]);
        lemma_exprs_names_hold(exprs.drop_last(), e, x);
    }
}

/// What one of the instructions refers to, the instructions refer to.
pub proof fn lemma_instructions_names_hold(instructions: Seq<Instruction>, k: int, x: Seq<char>)
    requires
        0 <= k < instructions.len(),
        exprs_names(instruction_exprs(instructions[k])).contains(x),
    ensures
        instructions_names(instructions).contains(x),
    decreases instructions.len(),
{
    lemma_concat_contains(
        instructions_names(instructions.drop_last()),
        exprs_names(instruction_exprs(instructions.last())),
        x,
    );
    if k < instructions.len() - 1 {
        assert(instructions.drop_last()[k] == instructions[k]);
        lemma_instructions_names_hold(instructions.drop_last(), k, x);
    }
}

/// What one of the scopes refers to, the scopes refer to.
pub proof fn lemma_scopes_names_hold(scopes: Seq<IDScope>, s: int, x: Seq<char>)
    requires
        0 <= s < scopes.len(),
        instructions_names(scopes[s].instructions@).contains(x),
    ensures
        scopes_names(scopes).contains(x),
    decreases scopes.len(),
{
    lemma_concat_contains(
        scopes_names(scopes.drop_last()),
        instructions_names(scopes.last().instructions@),
        x,
    );
    if s < scopes.len() - 1 {
        assert(scopes.drop_last()[s] == scopes[s]);
        lemma_scopes_names_hold(scopes.drop_last(), s, x);
    }
}

/// A node refers to every name that one of its expressions refers to: the
/// expression at index `e` of the instruction at index `k` of the scope at
/// index `s`.
pub proof fn lemma_call_is_referenced(node: IDNode, s: int, k: int, e: int, x: Seq<char>)
    requires
        0 <= s < node.scopes@.len(),
        0 <= k < node.scopes@[s].instructions@.len(),
        0 <= e < instruction_exprs(node.scopes@[s].instructions@[k]).len(),
        expr_names(instruction_exprs(node.scopes@[s].instructions@[k])[e]).contains(x),
    ensures
        node_names(node).contains(x),
{
    let instructions = node.scopes@[s].instructions@;
    lemma_exprs_names_hold(instruction_exprs(instructions[k]), e, x);
    lemma_instructions_names_hold(instructions, k, x);
    lemma_scopes_names_hold(node.scopes@, s, x);
}

/// What a node refers to, the whole set of nodes refers to.
pub proof fn lemma_node_names_are_names(nodes: Seq<IDNode>, a: int, x: Seq<char>)
    requires
        0 <= a < nodes.len(),
        node_names(nodes[a]).contains(x),
    ensures
        all_names(nodes).contains(x),
    decreases nodes.len(),
{
    lemma_concat_contains(all_names(nodes.drop_last()), node_names(nodes.last()), x);
    if a < nodes.len() - 1 {
        assert(nodes.drop_last()[a] == nodes[a]);
        lemma_node_names_are_names(nodes.drop_last(), a, x);
    }
}

/// A name that is referred to and is no node's title refuses the set of
/// nodes, and is among the names reported.
pub proof fn lemma_dangling_reference_refused(nodes: Seq<IDNode>, a: int, x: Seq<char>)
    requires
        0 <= a < nodes.len(),
        node_names(nodes[a]).contains(x),
        !is_title(nodes, x),
    ensures
        inferred_tracking(nodes) is Err,
        inferred_tracking(nodes)->Err_0.contains(x),
{
    lemma_node_names_are_names(nodes, a, x);
    lemma_dangling_contains(all_names(nodes), nodes, x);
    let missing = dangling(all_names(nodes), nodes);
    let i = choose|i: int| 0 <= i < missing.len() && missing[i] == x;
    assert(missing.len() > 0);
}

/// The set of nodes is refused only for names that are referred to and
/// are no node's title.
pub proof fn lemma_only_dangling_references_refuse(nodes: Seq<IDNode>)
    requires
        forall|i: int|
            0 <= i < all_names(nodes).len() ==> is_title(nodes, #[trigger] all_names(nodes)[i]),
    ensures
        inferred_tracking(nodes) is Ok,
{
    let missing = dangling(all_names(nodes), nodes);
    if missing.len() > 0 {
        lemma_dangling_contains(all_names(nodes), nodes, missing[0]);
        assert(missing.contains(missing[0]));
        let x = missing[0];
        let i = choose|i: int| 0 <= i < all_names(nodes).len() && all_names(nodes)[i] == x;
        assert(is_title(nodes, all_names(nodes)[i]));
    }
}

/// Without any `visited` or `visited_count` call, every node has the
/// tracking that it declares, and `Never` where it declares none.
pub proof fn lemma_no_references(nodes: Seq<IDNode>, k: int)
    requires
        all_names(nodes).len() == 0,
        0 <= k < nodes.len(),
    ensures
        inferred_tracking(nodes) is Ok,
        inferred_tracking(nodes)->Ok_0.len() == nodes.len(),
        inferred_tracking(nodes)->Ok_0[k] == match nodes[k].metadata.tracking {
            Some(setting) => setting,
            None => TrackingSetting::Never,
        },
{
    assert(all_names(nodes) =~= Seq::<Seq<char>>::empty());
}

/// A node that declares no tracking and that some node refers to is
/// tracked always.
pub proof fn lemma_visited_node_is_tracked(nodes: Seq<IDNode>, a: int, b: int)
    requires
        0 <= a < nodes.len(),
        0 <= b < nodes.len(),
        node_names(nodes[a]).contains(nodes[b].metadata.title@),
        nodes[b].metadata.tracking is None,
        inferred_tracking(nodes) is Ok,
    ensures
        inferred_tracking(nodes)->Ok_0[b] == TrackingSetting::Always,
{
    lemma_node_names_are_names(nodes, a, nodes[b].metadata.title@);
}

/// A declared tracking is never changed by inference.
pub proof fn lemma_declared_tracking_stays(nodes: Seq<IDNode>, b: int)
    requires
        0 <= b < nodes.len(),
        nodes[b].metadata.tracking is Some,
        inferred_tracking(nodes) is Ok,
    ensures
        inferred_tracking(nodes)->Ok_0[b] == nodes[b].metadata.tracking->Some_0,
{
}

} // verus!
