//! Speech lines: the character state machine that lexes one line into
//! speaker, literal text, embedded arguments and tags, and the assembly of
//! the final speech record.

use vstd::prelude::*;
use vstd::string::*;
use crate::expr::{translate, translation, ExprError, HostExpr, YarnExpr};
use crate::text::{
    after_colon, agrees, chars_of, has_no_whitespace, matches_exactly, no_whitespace,
    skip_whitespace, split_on, split_trimmed, string_of, texts, trim_each, trim_string_in_place,
    trimmed, trimmed_string_of,
};

verus! {

/// Who speaks a line: a fixed name, or a variable that holds the name.
#[derive(Debug, Clone, PartialEq, Eq)]
pub enum Speaker {
    Literal(String),
    Variable(String),
}

/// The speaker as the lexer finds it: a fixed name, or the source text of
/// the expression that names the variable.
#[derive(Debug, Clone, PartialEq, Eq)]
pub enum RawSpeaker {
    Literal(String),
    Variable(String),
}

pub enum SpeakerView {
    Literal(Seq<char>),
    Variable(Seq<char>),
}

impl View for Speaker {
    type V = SpeakerView;

    open spec fn view(&self) -> SpeakerView {
        match *self {
            Speaker::Literal(name) => SpeakerView::Literal(name@),
            Speaker::Variable(name) => SpeakerView::Variable(name@),
        }
    }
}

impl View for RawSpeaker {
    type V = SpeakerView;

    open spec fn view(&self) -> SpeakerView {
        match *self {
            RawSpeaker::Literal(name) => SpeakerView::Literal(name@),
            RawSpeaker::Variable(source) => SpeakerView::Variable(source@),
        }
    }
}

/// The view of an optional speaker.
pub open spec fn speaker_view(speaker: Option<RawSpeaker>) -> Option<SpeakerView> {
    match speaker {
        Some(s) => Some(s@),
        None => None,
    }
}

/// Where the lexer stands inside an argument.
#[derive(Debug, Clone, Copy, PartialEq, Eq, Structural)]
pub enum CharState {
    Std,
    StringLiteral,
    StringLiteralIgnoreNext,
}

/// The lexer's mode: copying literal text, or collecting an argument.
#[derive(Debug, Clone, Copy, PartialEq, Eq, Structural)]
pub enum Mode {
    Lit { ignore_next: bool },
    Arg { char_state: CharState },
}

/// What is wrong with a line's delimiters or escapes.
#[derive(Debug, Clone, Copy, PartialEq, Eq, Structural)]
pub enum LexErrorKind {
    /// A `}` in literal text that closes nothing.
    UnexpectedClosingBrace,
    /// A closing delimiter that does not match the innermost open one.
    MismatchedDelimiter { open: char, close: char },
    /// A `)` or `]` inside an argument with nothing open.
    UnexpectedDelimiter { close: char },
    /// The line ends right after an escape character.
    TrailingEscape,
    /// The line ends inside an argument.
    UnterminatedArgument,
}

/// A lexing failure, with the index of the offending character (the line's
/// length at the end of the line) and all that was built before it.
#[derive(Debug, Clone, PartialEq, Eq)]
pub struct LexError {
    pub kind: LexErrorKind,
    pub position: usize,
    pub speaker: Option<RawSpeaker>,
    pub literal: String,
    pub args: Vec<String>,
    pub argument: String,
    pub nesting: Vec<char>,
}

pub struct LexErrorView {
    pub kind: LexErrorKind,
    pub position: usize,
    pub speaker: Option<SpeakerView>,
    pub literal: Seq<char>,
    pub args: Seq<Seq<char>>,
    pub argument: Seq<char>,
    pub nesting: Seq<char>,
}

impl View for LexError {
    type V = LexErrorView;

    open spec fn view(&self) -> LexErrorView {
        LexErrorView {
            kind: self.kind,
            position: self.position,
            speaker: speaker_view(self.speaker),
            literal: self.literal@,
            args: texts(self.args@),
            argument: self.argument@,
            nesting: self.nesting@,
        }
    }
}

/// What of a line was not read when lexing stopped at index `position`:
/// everything behind that character.
pub open spec fn unread(line: Seq<char>, position: usize) -> Seq<char> {
    if position < line.len() {
        line.subrange(position as int + 1, line.len() as int)
    } else {
        Seq::empty()
    }
}

impl LexError {
    /// The rest of `line` that was not read when this failure was found.
    pub fn remaining(&self, line: &str) -> (r: String)
        ensures
            r@ == unread(line@, self.position),
    {
        let cs: Vec<char> = chars_of(line);
        if self.position < cs.len() {
            string_of(&cs, self.position + 1, cs.len())
        } else {
            String::new()
        }
    }
}

/// A lexed line: the literal text, not yet trimmed, holds `{}` where an
/// argument stood; `metadata` is the rest of the line from the first
/// unescaped `#` on.
#[derive(Debug, Clone, PartialEq, Eq)]
pub struct RawSpeech {
    pub speaker: Option<RawSpeaker>,
    pub literal: String,
    pub args: Vec<String>,
    pub metadata: Option<String>,
}

pub struct RawSpeechView {
    pub speaker: Option<SpeakerView>,
    pub literal: Seq<char>,
    pub args: Seq<Seq<char>>,
    pub metadata: Option<Seq<char>>,
}

impl View for RawSpeech {
    type V = RawSpeechView;

    open spec fn view(&self) -> RawSpeechView {
        RawSpeechView {
            speaker: speaker_view(self.speaker),
            literal: self.literal@,
            args: texts(self.args@),
            metadata: match self.metadata {
                Some(m) => Some(m@),
                None => None,
            },
        }
    }
}

/// The lexer: its mode and what it has built. `nesting` and `sum` are the
/// open delimiters and the text of the argument being collected.
pub struct Lexer {
    pub mode: Mode,
    pub nesting: Vec<char>,
    pub sum: String,
    pub speaker: Option<RawSpeaker>,
    pub literal: String,
    pub args: Vec<String>,
}

pub struct LexerView {
    pub mode: Mode,
    pub nesting: Seq<char>,
    pub sum: Seq<char>,
    pub speaker: Option<SpeakerView>,
    pub literal: Seq<char>,
    pub args: Seq<Seq<char>>,
}

impl View for Lexer {
    type V = LexerView;

    open spec fn view(&self) -> LexerView {
        LexerView {
            mode: self.mode,
            nesting: self.nesting@,
            sum: self.sum@,
            speaker: speaker_view(self.speaker),
            literal: self.literal@,
            args: texts(self.args@),
        }
    }
}

/// What one character does to the lexer.
pub enum Step {
    /// The lexer goes on in this state.
    Continue(LexerView),
    /// An unescaped `#`: the rest of the line is metadata.
    Metadata,
    /// The line is refused.
    Fail(LexErrorKind),
}

/// What `Lexer::step` reports; the new state is in the lexer itself.
#[derive(Debug, Clone, Copy, PartialEq, Eq, Structural)]
pub enum StepResult {
    Continue,
    Metadata,
    Fail(LexErrorKind),
}

/// The state before the first character.
pub open spec fn start() -> LexerView {
    LexerView {
        mode: Mode::Lit { ignore_next: false },
        nesting: Seq::empty(),
        sum: Seq::empty(),
        speaker: None,
        literal: Seq::empty(),
        args: Seq::empty(),
    }
}

pub open spec fn is_opener(c: char) -> bool {
    c == '(' || c == '{' || c == '['
}

pub open spec fn is_closer(c: char) -> bool {
    c == ')' || c == '}' || c == ']'
}

/// Whether `close` closes `open`.
pub open spec fn closes(open: char, close: char) -> bool {
    (open == '(' && close == ')') || (open == '{' && close == '}') || (open == '[' && close
        == ']')
}

/// The placeholder that stands in the literal text for an argument.
pub open spec fn placeholder() -> Seq<char> {
    seq!['{', '}']
}

/// An unescaped colon in literal text. With no speaker yet: a non-empty
/// literal whose trimmed text holds no whitespace, before any argument, is
/// the speaker's name; a literal that is one placeholder, with its one
/// argument, names the speaker by a variable. Any other colon is text.
pub open spec fn on_colon(st: LexerView) -> LexerView {
    let t = trimmed(st.literal);
    if st.speaker is None && st.literal.len() > 0 && no_whitespace(t) && st.args.len() == 0 {
        LexerView { speaker: Some(SpeakerView::Literal(t)), literal: Seq::empty(), ..st }
    } else if st.speaker is None && t == placeholder() && st.args.len() == 1 {
        LexerView {
            speaker: Some(SpeakerView::Variable(st.args[0])),
            literal: Seq::empty(),
            args: Seq::empty(),
            ..st
        }
    } else {
        LexerView { literal: st.literal.push(':'), ..st }
    }
}

/// One character in literal mode, not escaped.
pub open spec fn step_literal(st: LexerView, c: char) -> Step {
    if c == '\\' {
        Step::Continue(LexerView { mode: Mode::Lit { ignore_next: true }, ..st })
    } else if c == '{' {
        Step::Continue(
            LexerView {
                mode: Mode::Arg { char_state: CharState::Std },
                nesting: Seq::empty(),
                sum: Seq::empty(),
                literal: st.literal + placeholder(),
                ..st
            },
        )
    } else if c == '}' {
        Step::Fail(LexErrorKind::UnexpectedClosingBrace)
    } else if c == '#' {
        Step::Metadata
    } else if c == ':' {
        Step::Continue(on_colon(st))
    } else {
        Step::Continue(LexerView { literal: st.literal.push(c), ..st })
    }
}

/// One character inside an argument, outside any string literal.
pub open spec fn step_argument(st: LexerView, c: char) -> Step {
    if c == '"' {
        Step::Continue(
            LexerView {
                mode: Mode::Arg { char_state: CharState::StringLiteral },
                sum: st.sum.push(c),
                ..st
            },
        )
    } else if is_opener(c) {
        Step::Continue(LexerView { nesting: st.nesting.push(c), sum: st.sum.push(c), ..st })
    } else if is_closer(c) {
        if st.nesting.len() > 0 {
            if closes(st.nesting.last(), c) {
                Step::Continue(
                    LexerView { nesting: st.nesting.drop_last(), sum: st.sum.push(c), ..st },
                )
            } else {
                Step::Fail(LexErrorKind::MismatchedDelimiter { open: st.nesting.last(), close: c })
            }
        } else if c == '}' {
            Step::Continue(
                LexerView {
                    mode: Mode::Lit { ignore_next: false },
                    sum: Seq::empty(),
                    args: st.args.push(st.sum),
                    ..st
                },
            )
        } else {
            Step::Fail(LexErrorKind::UnexpectedDelimiter { close: c })
        }
    } else {
        Step::Continue(LexerView { sum: st.sum.push(c), ..st })
    }
}

/// One character inside a string literal of an argument: a quote ends the
/// literal, a backslash escapes the next character and is itself dropped.
pub open spec fn step_string(st: LexerView, c: char) -> Step {
    if c == '"' {
        Step::Continue(
            LexerView { mode: Mode::Arg { char_state: CharState::Std }, sum: st.sum.push(c), ..st },
        )
    } else if c == '\\' {
        Step::Continue(
            LexerView { mode: Mode::Arg { char_state: CharState::StringLiteralIgnoreNext }, ..st },
        )
    } else {
        Step::Continue(LexerView { sum: st.sum.push(c), ..st })
    }
}

/// What the character `c` does in state `st`.
pub open spec fn step(st: LexerView, c: char) -> Step {
    match st.mode {
        Mode::Lit { ignore_next: true } => Step::Continue(
            LexerView { mode: Mode::Lit { ignore_next: false }, literal: st.literal.push(c), ..st },
        ),
        Mode::Lit { ignore_next: false } => step_literal(st, c),
        Mode::Arg { char_state: CharState::Std } => step_argument(st, c),
        Mode::Arg { char_state: CharState::StringLiteral } => step_string(st, c),
        Mode::Arg { char_state: CharState::StringLiteralIgnoreNext } => Step::Continue(
            LexerView {
                mode: Mode::Arg { char_state: CharState::StringLiteral },
                sum: st.sum.push(c),
                ..st
            },
        ),
    }
}

/// The failure of kind `kind` at index `position`, in state `st`.
pub open spec fn failure(st: LexerView, kind: LexErrorKind, position: usize) -> LexErrorView {
    LexErrorView {
        kind,
        position,
        speaker: st.speaker,
        literal: st.literal,
        args: st.args,
        argument: st.sum,
        nesting: st.nesting,
    }
}

/// The lexed line that state `st` holds.
pub open spec fn built(st: LexerView, metadata: Option<Seq<char>>) -> RawSpeechView {
    RawSpeechView { speaker: st.speaker, literal: st.literal, args: st.args, metadata }
}

/// The end of the line in state `st`: a pending escape or an open argument
/// is refused.
pub open spec fn at_end(st: LexerView, len: usize) -> Result<RawSpeechView, LexErrorView> {
    match st.mode {
        Mode::Lit { ignore_next: true } => Err(failure(st, LexErrorKind::TrailingEscape, len)),
        Mode::Lit { ignore_next: false } => Ok(built(st, None)),
        Mode::Arg { .. } => Err(failure(st, LexErrorKind::UnterminatedArgument, len)),
    }
}

/// Lexing `s` from index `i` on, in state `st`.
pub open spec fn lex_from(st: LexerView, s: Seq<char>, i: int) -> Result<
    RawSpeechView,
    LexErrorView,
>
    decreases s.len() - i,
{
    if i < 0 || i >= s.len() {
        at_end(st, s.len() as usize)
    } else {
        match step(st, s[i]) {
            Step::Continue(next) => lex_from(next, s, i + 1),
            Step::Metadata => Ok(built(st, Some(s.subrange(i, s.len() as int)))),
            Step::Fail(kind) => Err(failure(st, kind, i as usize)),
        }
    }
}

/// What lexing the line `s` gives.
pub open spec fn lexed(s: Seq<char>) -> Result<RawSpeechView, LexErrorView> {
    lex_from(start(), s, 0)
}

impl Lexer {
    /// A lexer before the first character.
    pub fn new() -> (r: Lexer)
        ensures
            r@ == start(),
    {
        let r = Lexer {
            mode: Mode::Lit { ignore_next: false },
            nesting: Vec::new(),
            sum: String::new(),
            speaker: None,
            literal: String::new(),
            args: Vec::new(),
        };
        assert(texts(r.args@) =~= Seq::<Seq<char>>::empty());
        r
    }

    /// Handles an unescaped colon in literal text.
    fn colon(&mut self)
        ensures
            final(self)@ == on_colon(old(self)@),
    {
        let t: Vec<char> = chars_of(self.literal.as_str().trim());
        let has_literal: bool = self.literal.as_str().unicode_len() > 0;
        if self.speaker.is_none() && has_literal && has_no_whitespace(&t) && self.args.len() == 0 {
            let mut name: String = String::new();
            std::mem::swap(&mut self.literal, &mut name);
            trim_string_in_place(&mut name);
            self.speaker = Some(RawSpeaker::Literal(name));
        } else if self.speaker.is_none() && t.len() == 2 && t[0] == '{' && t[1] == '}'
            && self.args.len() == 1 {
            assert(t@ =~= placeholder());
            let ghost before = self.args@;
            match self.args.pop() {
                Some(source) => {
                    assert(source@ == texts(before)[0]);
                    self.literal = String::new();
                    self.speaker = Some(RawSpeaker::Variable(source));
                    assert(texts(self.args@) =~= Seq::<Seq<char>>::empty());
                },
                None => {},
            }
        } else {
            self.literal.push(':');
        }
    }

    /// Feeds one character to the lexer. On `Continue` the lexer is in the
    /// next state; otherwise it is unchanged.
    pub fn step(&mut self, c: char) -> (r: StepResult)
        ensures
            match step(old(self)@, c) {
                Step::Continue(next) => r == StepResult::Continue && final(self)@ == next,
                Step::Metadata => r == StepResult::Metadata && *final(self) == *old(self),
                Step::Fail(kind) => r == StepResult::Fail(kind) && *final(self) == *old(self),
            },
    {
        match self.mode {
            Mode::Lit { ignore_next: true } => {
                self.mode = Mode::Lit { ignore_next: false };
                self.literal.push(c);
                StepResult::Continue
            },
            Mode::Lit { ignore_next: false } => {
                if c == '\\' {
                    self.mode = Mode::Lit { ignore_next: true };
                    StepResult::Continue
                } else if c == '{' {
                    self.mode = Mode::Arg { char_state: CharState::Std };
                    self.nesting = Vec::new();
                    self.sum = String::new();
                    self.literal.push('{');
                    self.literal.push('}');
                    assert(self.literal@ =~= old(self).literal@ + placeholder());
                    StepResult::Continue
                } else if c == '}' {
                    StepResult::Fail(LexErrorKind::UnexpectedClosingBrace)
                } else if c == '#' {
                    StepResult::Metadata
                } else if c == ':' {
                    self.colon();
                    StepResult::Continue
                } else {
                    self.literal.push(c);
                    StepResult::Continue
                }
            },
            Mode::Arg { char_state: CharState::Std } => {
                if c == '"' {
                    self.mode = Mode::Arg { char_state: CharState::StringLiteral };
                    self.sum.push(c);
                    StepResult::Continue
                } else if c == '(' || c == '{' || c == '[' {
                    self.nesting.push(c);
                    self.sum.push(c);
                    StepResult::Continue
                } else if c == ')' || c == '}' || c == ']' {
                    let depth: usize = self.nesting.len();
                    if depth > 0 {
                        let open: char = self.nesting[depth - 1];
                        if (open == '(' && c == ')') || (open == '{' && c == '}') || (open == '['
                            && c == ']') {
                            self.nesting.pop();
                            self.sum.push(c);
                            StepResult::Continue
                        } else {
                            StepResult::Fail(LexErrorKind::MismatchedDelimiter { open, close: c })
                        }
                    } else if c == '}' {
                        let mut argument: String = String::new();
                        std::mem::swap(&mut self.sum, &mut argument);
                        self.args.push(argument);
                        self.mode = Mode::Lit { ignore_next: false };
                        assert(texts(self.args@) =~= texts(old(self).args@).push(old(self).sum@));
                        StepResult::Continue
                    } else {
                        StepResult::Fail(LexErrorKind::UnexpectedDelimiter { close: c })
                    }
                } else {
                    self.sum.push(c);
                    StepResult::Continue
                }
            },
            Mode::Arg { char_state: CharState::StringLiteral } => {
                if c == '"' {
                    self.mode = Mode::Arg { char_state: CharState::Std };
                    self.sum.push(c);
                    StepResult::Continue
                } else if c == '\\' {
                    self.mode = Mode::Arg { char_state: CharState::StringLiteralIgnoreNext };
                    StepResult::Continue
                } else {
                    self.sum.push(c);
                    StepResult::Continue
                }
            },
            Mode::Arg { char_state: CharState::StringLiteralIgnoreNext } => {
                self.mode = Mode::Arg { char_state: CharState::StringLiteral };
                self.sum.push(c);
                StepResult::Continue
            },
        }
    }

    /// The failure of kind `kind` at `position`, with what was built.
    pub fn fail(self, kind: LexErrorKind, position: usize) -> (r: LexError)
        ensures
            r@ == failure(self@, kind, position),
    {
        let Lexer { mode: _, nesting, sum, speaker, literal, args } = self;
        LexError { kind, position, speaker, literal, args, argument: sum, nesting }
    }

    /// The lexed line, with the metadata that followed it.
    pub fn into_raw(self, metadata: Option<String>) -> (r: RawSpeech)
        ensures
            r@ == built(
                self@,
                match metadata {
                    Some(m) => Some(m@),
                    None => None,
                },
            ),
    {
        let Lexer { mode: _, nesting: _, sum: _, speaker, literal, args } = self;
        RawSpeech { speaker, literal, args, metadata }
    }

    /// Ends the line, of length `len`.
    pub fn finish(self, len: usize) -> (r: Result<RawSpeech, LexError>)
        ensures
            agrees(r, at_end(self@, len)),
    {
        match self.mode {
            Mode::Lit { ignore_next: true } => Err(self.fail(LexErrorKind::TrailingEscape, len)),
            Mode::Lit { ignore_next: false } => Ok(self.into_raw(None)),
            Mode::Arg { char_state: _ } => Err(self.fail(LexErrorKind::UnterminatedArgument, len)),
        }
    }
}

/// Lexes one line of dialogue, character by character from the left.
pub fn lex_line(line: &str) -> (r: Result<RawSpeech, LexError>)
    ensures
        agrees(r, lexed(line@)),
{
    let cs: Vec<char> = chars_of(line);
    let n: usize = cs.len();
    let mut lexer: Lexer = Lexer::new();
    let mut i: usize = 0;
    while i < n
        invariant
            n == cs@.len(),
            cs@ == line@,
            i <= n,
            lexed(cs@) == lex_from(lexer@, cs@, i as int),
        decreases n - i,
    {
        match lexer.step(cs[i]) {
            StepResult::Continue => {},
            StepResult::Metadata => {
                let metadata: String = string_of(&cs, i, n);
                return Ok(lexer.into_raw(Some(metadata)));
            },
            StepResult::Fail(kind) => {
                return Err(lexer.fail(kind, i));
            },
        }
        i = i + 1;
    }
    lexer.finish(n)
}

/// One line of spoken dialogue.
#[derive(Debug, PartialEq, Eq)]
pub struct Speech {
    pub line_number: usize,
    pub line_id: Option<String>,
    pub speaker: Option<Speaker>,
    /// The literal text, with `{}` where an expression stands, and the
    /// expressions in order.
    pub text: (String, Vec<YarnExpr>),
    pub tags: Vec<String>,
}

pub struct SpeechView {
    pub line_number: usize,
    pub line_id: Option<Seq<char>>,
    pub speaker: Option<SpeakerView>,
    pub literal: Seq<char>,
    pub exprs: Seq<YarnExpr>,
    pub tags: Seq<Seq<char>>,
}

impl Speech {
    /// Whether the speech is well formed: it has text or expressions.
    pub open spec fn well_formed(&self) -> bool {
        self.text.0@.len() > 0 || self.text.1@.len() > 0
    }
}

impl View for Speech {
    type V = SpeechView;

    open spec fn view(&self) -> SpeechView {
        SpeechView {
            line_number: self.line_number,
            line_id: match self.line_id {
                Some(id) => Some(id@),
                None => None,
            },
            speaker: match self.speaker {
                Some(s) => Some(s@),
                None => None,
            },
            literal: self.text.0@,
            exprs: self.text.1@,
            tags: texts(self.tags@),
        }
    }
}

/// Why a lexed line makes no speech.
#[allow(inconsistent_fields)]
#[derive(Debug, PartialEq, Eq)]
pub enum SpeechError {
    /// The speaker is named by a variable, and no expression was given for it.
    MissingSpeakerExpression { source: String },
    /// The speaker's expression has no translation.
    SpeakerNotTranslated { source: String, error: ExprError },
    /// The speaker's expression is something other than a variable.
    InvalidSpeakerVariable { source: String, found: YarnExpr },
    /// Another number of expressions than the line has arguments.
    ArgumentCount { expected: usize, found: usize },
    /// The argument at `index` has no translation.
    InvalidArgument { index: usize, error: ExprError },
    /// Neither text nor arguments.
    EmptyLine,
    /// More than one `line:` tag.
    DuplicateLineId { ids: Vec<String>, tags: Vec<String> },
}

#[allow(inconsistent_fields)]
pub enum SpeechErrorView {
    MissingSpeakerExpression { source: Seq<char> },
    SpeakerNotTranslated { source: Seq<char>, error: ExprError },
    InvalidSpeakerVariable { source: Seq<char>, found: YarnExpr },
    ArgumentCount { expected: usize, found: usize },
    InvalidArgument { index: usize, error: ExprError },
    EmptyLine,
    DuplicateLineId { ids: Seq<Seq<char>>, tags: Seq<Seq<char>> },
}

impl View for SpeechError {
    type V = SpeechErrorView;

    open spec fn view(&self) -> SpeechErrorView {
        match *self {
            SpeechError::MissingSpeakerExpression { source } => {
                SpeechErrorView::MissingSpeakerExpression { source: source@ }
            },
            SpeechError::SpeakerNotTranslated { source, error } => {
                SpeechErrorView::SpeakerNotTranslated { source: source@, error }
            },
            SpeechError::InvalidSpeakerVariable { source, found } => {
                SpeechErrorView::InvalidSpeakerVariable { source: source@, found }
            },
            SpeechError::ArgumentCount { expected, found } => {
                SpeechErrorView::ArgumentCount { expected, found }
            },
            SpeechError::InvalidArgument { index, error } => {
                SpeechErrorView::InvalidArgument { index, error }
            },
            SpeechError::EmptyLine => SpeechErrorView::EmptyLine,
            SpeechError::DuplicateLineId { ids, tags } => {
                SpeechErrorView::DuplicateLineId { ids: texts(ids@), tags: texts(tags@) }
            },
        }
    }
}

/// The pieces that are not empty, in order.
pub open spec fn non_empty(pieces: Seq<Seq<char>>) -> Seq<Seq<char>>
    decreases pieces.len(),
{
    if pieces.len() == 0 {
        Seq::empty()
    } else if pieces.last().len() > 0 {
        non_empty(pieces.drop_last()).push(pieces.last())
    } else {
        non_empty(pieces.drop_last())
    }
}

/// The tags of a line's metadata: what stands between `#` characters,
/// trimmed, without the empty ones.
pub open spec fn tags_of(metadata: Seq<char>) -> Seq<Seq<char>> {
    non_empty(trim_each(split_on(metadata, '#')))
}

/// The line identifier that a tag gives: the tag is `line`, optional
/// whitespace, a colon, and the identifier.
pub open spec fn line_id_of(tag: Seq<char>) -> Option<Seq<char>> {
    let keyword = "line"@;
    if tag.len() >= keyword.len() && tag.subrange(0, keyword.len() as int) == keyword {
        match after_colon(tag.subrange(keyword.len() as int, tag.len() as int)) {
            Some(rest) => Some(trimmed(rest)),
            None => None,
        }
    } else {
        None
    }
}

/// The line identifiers among `tags`, in order.
pub open spec fn line_ids(tags: Seq<Seq<char>>) -> Seq<Seq<char>>
    decreases tags.len(),
{
    if tags.len() == 0 {
        Seq::empty()
    } else {
        match line_id_of(tags.last()) {
            Some(id) => line_ids(tags.drop_last()).push(id),
            None => line_ids(tags.drop_last()),
        }
    }
}

/// The tags that give no line identifier, in order.
pub open spec fn plain_tags(tags: Seq<Seq<char>>) -> Seq<Seq<char>>
    decreases tags.len(),
{
    if tags.len() == 0 {
        Seq::empty()
    } else {
        match line_id_of(tags.last()) {
            Some(_) => plain_tags(tags.drop_last()),
            None => plain_tags(tags.drop_last()).push(tags.last()),
        }
    }
}

/// The index of the first expression at or after `i` that has no
/// translation; the length of `hosts` if there is none.
pub open spec fn first_failure_from(hosts: Seq<HostExpr>, i: int) -> int
    decreases hosts.len() - i,
{
    if i < 0 || i >= hosts.len() {
        hosts.len() as int
    } else if translation(hosts[i]) is Err {
        i
    } else {
        first_failure_from(hosts, i + 1)
    }
}

/// The translations of all of `hosts`, or the first failure with its index.
pub open spec fn args_translation(hosts: Seq<HostExpr>) -> Result<
    Seq<YarnExpr>,
    (usize, ExprError),
> {
    let k = first_failure_from(hosts, 0);
    if k < hosts.len() {
        Err((k as usize, translation(hosts[k])->Err_0))
    } else {
        Ok(Seq::new(hosts.len(), |j: int| translation(hosts[j])->Ok_0))
    }
}

/// The speaker of a line, given the expression that was parsed from the
/// source text of a speaker variable.
pub open spec fn speaker_of(raw: Option<SpeakerView>, expr: Option<HostExpr>) -> Result<
    Option<SpeakerView>,
    SpeechErrorView,
> {
    match raw {
        None => Ok(None),
        Some(SpeakerView::Literal(name)) => Ok(Some(SpeakerView::Literal(name))),
        Some(SpeakerView::Variable(source)) => match expr {
            None => Err(SpeechErrorView::MissingSpeakerExpression { source }),
            Some(host) => match translation(host) {
                Err(error) => Err(SpeechErrorView::SpeakerNotTranslated { source, error }),
                Ok(YarnExpr::GetVar(name)) => Ok(Some(SpeakerView::Variable(name@))),
                Ok(found) => Err(SpeechErrorView::InvalidSpeakerVariable { source, found }),
            },
        },
    }
}

/// The line identifier and tags of a line with the given metadata.
pub open spec fn marks_of(metadata: Option<Seq<char>>) -> Result<
    (Option<Seq<char>>, Seq<Seq<char>>),
    SpeechErrorView,
> {
    match metadata {
        None => Ok((None, Seq::empty())),
        Some(m) => {
            let tags = tags_of(m);
            let ids = line_ids(tags);
            if ids.len() == 0 {
                Ok((None, plain_tags(tags)))
            } else if ids.len() == 1 {
                Ok((Some(ids[0]), plain_tags(tags)))
            } else {
                Err(SpeechErrorView::DuplicateLineId { ids, tags: plain_tags(tags) })
            }
        },
    }
}

/// The speech that a lexed line makes, given the parsed expressions of its
/// speaker variable and of its arguments. In order: the speaker is resolved,
/// the arguments are translated, the literal is trimmed and the line must not
/// be empty, and the metadata is split into line identifier and tags.
pub open spec fn speech_of(
    raw: RawSpeechView,
    line_number: usize,
    speaker_expr: Option<HostExpr>,
    hosts: Seq<HostExpr>,
) -> Result<SpeechView, SpeechErrorView> {
    match speaker_of(raw.speaker, speaker_expr) {
        Err(e) => Err(e),
        Ok(speaker) => if hosts.len() != raw.args.len() {
            Err(
                SpeechErrorView::ArgumentCount {
                    expected: raw.args.len() as usize,
                    found: hosts.len() as usize,
                },
            )
        } else {
            match args_translation(hosts) {
                Err((index, error)) => Err(SpeechErrorView::InvalidArgument { index, error }),
                Ok(exprs) => {
                    let literal = trimmed(raw.literal);
                    if literal.len() == 0 && exprs.len() == 0 {
                        Err(SpeechErrorView::EmptyLine)
                    } else {
                        match marks_of(raw.metadata) {
                            Err(e) => Err(e),
                            Ok((line_id, tags)) => Ok(
                                SpeechView { line_number, line_id, speaker, literal, exprs, tags },
                            ),
                        }
                    }
                },
            }
        },
    }
}

/// Whether the trimmed line `t` belongs to a command or an option: it
/// starts with `<<`, `->` or `<-`.
pub open spec fn is_reserved(t: Seq<char>) -> bool {
    t.len() >= 2 && ((t[0] == '<' && t[1] == '<') || (t[0] == '-' && t[1] == '>') || (t[0] == '<'
        && t[1] == '-'))
}

impl Speech {
    /// Lexes a raw line as speech, after trimming it; declines the lines
    /// that belong to commands and options.
    pub fn parse_raw_yarn(line: &str) -> (r: Option<Result<RawSpeech, LexError>>)
        ensures
            match r {
                None => is_reserved(trimmed(line@)),
                Some(lexed_line) => !is_reserved(trimmed(line@)) && agrees(
                    lexed_line,
                    lexed(trimmed(line@)),
                ),
            },
    {
        let t: &str = line.trim();
        let cs: Vec<char> = chars_of(t);
        if cs.len() >= 2 && ((cs[0] == '<' && cs[1] == '<') || (cs[0] == '-' && cs[1] == '>') || (
        cs[0] == '<' && cs[1] == '-')) {
            return None;
        }
        Some(lex_line(t))
    }
}

/// The line identifier that `tag` gives, if it is a `line:` tag.
pub fn line_id_in(tag: &str) -> (r: Option<String>)
    ensures
        match r {
            Some(id) => line_id_of(tag@) == Some(id@),
            None => line_id_of(tag@) is None,
        },
{
    let cs: Vec<char> = chars_of(tag);
    let n: usize = cs.len();
    let k: usize = "line".unicode_len();
    if n < k || !matches_exactly(&cs, 0, k, "line") {
        return None;
    }
    let j: usize = skip_whitespace(&cs, k);
    if j < n && cs[j] == ':' {
        proof {
            assert(cs@.subrange(j as int, n as int).drop_first() =~= cs@.subrange(
                j as int + 1,
                n as int,
            ));
        }
        Some(trimmed_string_of(&cs, j + 1, n))
    } else {
        None
    }
}

/// The tags that stand in a line's metadata.
pub fn tags_in(metadata: &str) -> (r: Vec<String>)
    ensures
        texts(r@) == tags_of(metadata@),
{
    let cs: Vec<char> = chars_of(metadata);
    assert(cs@.subrange(0, cs@.len() as int) =~= cs@);
    let pieces: Vec<String> = split_trimmed(&cs, 0, '#');
    let ghost all = texts(pieces@);
    let n: usize = pieces.len();
    let mut out: Vec<String> = Vec::new();
    let mut i: usize = 0;
    assert(all.take(0) =~= Seq::<Seq<char>>::empty());
    assert(texts(out@) =~= Seq::<Seq<char>>::empty());
    while i < n
        invariant
            n == pieces@.len(),
            all == texts(pieces@),
            i <= n,
            texts(out@) == non_empty(all.take(i as int)),
        decreases n - i,
    {
        assert(all.take(i as int + 1).drop_last() =~= all.take(i as int));
        let ghost before = texts(out@);
        if pieces[i].as_str().unicode_len() > 0 {
            out.push(pieces[i].clone());
            assert(texts(out@) =~= before.push(all[i as int]));
        }
        i = i + 1;
    }
    assert(all.take(n as int) =~= all);
    out
}

/// Parts the tags into line identifiers and the other tags.
pub fn part_tags(tags: Vec<String>) -> (r: (Vec<String>, Vec<String>))
    ensures
        texts(r.0@) == line_ids(texts(tags@)),
        texts(r.1@) == plain_tags(texts(tags@)),
{
    let ghost all = texts(tags@);
    let n: usize = tags.len();
    let mut ids: Vec<String> = Vec::new();
    let mut plain: Vec<String> = Vec::new();
    let mut i: usize = 0;
    assert(all.take(0) =~= Seq::<Seq<char>>::empty());
    assert(texts(ids@) =~= Seq::<Seq<char>>::empty());
    assert(texts(plain@) =~= Seq::<Seq<char>>::empty());
    while i < n
        invariant
            n == tags@.len(),
            all == texts(tags@),
            i <= n,
            texts(ids@) == line_ids(all.take(i as int)),
            texts(plain@) == plain_tags(all.take(i as int)),
        decreases n - i,
    {
        assert(all.take(i as int + 1).drop_last() =~= all.take(i as int));
        let ghost ids_before = texts(ids@);
        let ghost plain_before = texts(plain@);
        match line_id_in(tags[i].as_str()) {
            Some(id) => {
                ids.push(id);
                assert(texts(ids@) =~= ids_before.push(id@));
            },
            None => {
                plain.push(tags[i].clone());
                assert(texts(plain@) =~= plain_before.push(all[i as int]));
            },
        }
        i = i + 1;
    }
    assert(all.take(n as int) =~= all);
    (ids, plain)
}

/// Translates the arguments of a line, in order; the first one that has no
/// translation is the failure, with its index.
pub fn build_args(hosts: Vec<HostExpr>) -> (r: Result<Vec<YarnExpr>, (usize, ExprError)>)
    ensures
        match r {
            Ok(exprs) => args_translation(hosts@) == Ok::<Seq<YarnExpr>, (usize, ExprError)>(
                exprs@,
            ),
            Err(e) => args_translation(hosts@) == Err::<Seq<YarnExpr>, (usize, ExprError)>(e),
        },
{
    let ghost all = hosts@;
    let total: usize = hosts.len();
    let mut rest: Vec<HostExpr> = hosts;
    let mut out: Vec<YarnExpr> = Vec::new();
    let mut i: usize = 0;
    while rest.len() > 0
        invariant
            all == hosts@,
            total == all.len(),
            i + rest@.len() == all.len(),
            rest@ == all.subrange(i as int, all.len() as int),
            first_failure_from(all, 0) == first_failure_from(all, i as int),
            out@.len() == i,
            forall|j: int| 0 <= j < i ==> out@[j] == translation(all[j])->Ok_0,
        decreases rest@.len(),
    {
        let host: HostExpr = rest.remove(0);
        assert(host == all[i as int]);
        assert(rest@ =~= all.subrange(i as int + 1, all.len() as int));
        match translate(host) {
            Ok(expr) => {
                out.push(expr);
            },
            Err(e) => {
                assert(first_failure_from(all, i as int) == i);
                return Err((i, e));
            },
        }
        i = i + 1;
    }
    assert(out@ =~= Seq::new(all.len(), |j: int| translation(all[j])->Ok_0));
    Ok(out)
}

/// Resolves the speaker of a lexed line.
pub fn resolve_speaker(raw: &Option<RawSpeaker>, speaker_expr: Option<HostExpr>) -> (r: Result<
    Option<Speaker>,
    SpeechError,
>)
    ensures
        match r {
            Ok(Some(s)) => speaker_of(speaker_view(*raw), speaker_expr) == Ok::<
                Option<SpeakerView>,
                SpeechErrorView,
            >(Some(s@)),
            Ok(None) => speaker_of(speaker_view(*raw), speaker_expr) == Ok::<
                Option<SpeakerView>,
                SpeechErrorView,
            >(None),
            Err(e) => speaker_of(speaker_view(*raw), speaker_expr) == Err::<
                Option<SpeakerView>,
                SpeechErrorView,
            >(e@),
        },
{
    match raw {
        None => Ok(None),
        Some(RawSpeaker::Literal(name)) => Ok(Some(Speaker::Literal(name.clone()))),
        Some(RawSpeaker::Variable(source)) => match speaker_expr {
            None => Err(SpeechError::MissingSpeakerExpression { source: source.clone() }),
            Some(host) => match translate(host) {
                Err(error) => Err(
                    SpeechError::SpeakerNotTranslated { source: source.clone(), error },
                ),
                Ok(YarnExpr::GetVar(name)) => Ok(Some(Speaker::Variable(name))),
                Ok(found) => Err(
                    SpeechError::InvalidSpeakerVariable { source: source.clone(), found },
                ),
            },
        },
    }
}

/// Why a line is no speech: it could not be lexed, or what was lexed makes
/// no speech.
#[derive(Debug, PartialEq, Eq)]
pub enum Refusal {
    Lex(LexError),
    Speech(SpeechError),
}

pub enum RefusalView {
    Lex(LexErrorView),
    Speech(SpeechErrorView),
}

impl View for Refusal {
    type V = RefusalView;

    open spec fn view(&self) -> RefusalView {
        match *self {
            Refusal::Lex(e) => RefusalView::Lex(e@),
            Refusal::Speech(e) => RefusalView::Speech(e@),
        }
    }
}

/// Why a line that could not be lexed is refused. A speaker variable is
/// read when its colon is met, so what is wrong with the speaker comes
/// before what is wrong behind it.
pub open spec fn refusal_of(err: LexErrorView, speaker_expr: Option<HostExpr>) -> RefusalView {
    match speaker_of(err.speaker, speaker_expr) {
        Err(e) => RefusalView::Speech(e),
        Ok(_) => RefusalView::Lex(err),
    }
}

/// Why a line that could not be lexed is refused, given the parsed
/// expression of its speaker variable, if one was found before the failure.
pub fn refuse(err: LexError, speaker_expr: Option<HostExpr>) -> (r: Refusal)
    ensures
        r@ == refusal_of(err@, speaker_expr),
{
    match resolve_speaker(&err.speaker, speaker_expr) {
        Err(e) => Refusal::Speech(e),
        Ok(_) => Refusal::Lex(err),
    }
}

/// Makes the speech of a lexed line from the parsed expressions of its
/// speaker variable, if it has one, and of its arguments.
pub fn build_speech(
    raw: RawSpeech,
    line_number: usize,
    speaker_expr: Option<HostExpr>,
    hosts: Vec<HostExpr>,
) -> (r: Result<Speech, SpeechError>)
    ensures
        agrees(r, speech_of(raw@, line_number, speaker_expr, hosts@)),
        r is Ok ==> r->Ok_0.well_formed(),
{
    let RawSpeech { speaker: raw_speaker, literal, args, metadata } = raw;
    let speaker: Option<Speaker> = match resolve_speaker(&raw_speaker, speaker_expr) {
        Ok(speaker) => speaker,
        Err(e) => {
            return Err(e);
        },
    };
    if hosts.len() != args.len() {
        return Err(SpeechError::ArgumentCount { expected: args.len(), found: hosts.len() });
    }
    let exprs: Vec<YarnExpr> = match build_args(hosts) {
        Ok(exprs) => exprs,
        Err((index, error)) => {
            return Err(SpeechError::InvalidArgument { index, error });
        },
    };
    let mut literal: String = literal;
    trim_string_in_place(&mut literal);
    if literal.as_str().unicode_len() == 0 && exprs.len() == 0 {
        return Err(SpeechError::EmptyLine);
    }
    let after_hash: String = match metadata {
        Some(after_hash) => after_hash,
        None => {
            assert(texts(Seq::<String>::empty()) =~= Seq::<Seq<char>>::empty());
            return Ok(
                Speech {
                    line_number,
                    line_id: None,
                    speaker,
                    text: (literal, exprs),
                    tags: Vec::new(),
                },
            );
        },
    };
    let (mut ids, tags) = part_tags(tags_in(after_hash.as_str()));
    if ids.len() == 0 {
        Ok(Speech { line_number, line_id: None, speaker, text: (literal, exprs), tags })
    } else if ids.len() == 1 {
        let line_id: Option<String> = ids.pop();
        Ok(Speech { line_number, line_id, speaker, text: (literal, exprs), tags })
    } else {
        Err(SpeechError::DuplicateLineId { ids, tags })
    }
}

/// An unescaped `}` in literal text refuses the line at that character.
pub proof fn lemma_unescaped_close_refused(st: LexerView, s: Seq<char>, i: int)
    requires
        0 <= i < s.len(),
        st.mode == (Mode::Lit { ignore_next: false }),
        s[i] == '}',
    ensures
        lex_from(st, s, i) == Err::<RawSpeechView, LexErrorView>(
            failure(st, LexErrorKind::UnexpectedClosingBrace, i as usize),
        ),
{
}

/// After an escape character in literal text the next character, whatever
/// it is, is copied into the literal text and delimits nothing.
pub proof fn lemma_escaped_is_literal(st: LexerView, s: Seq<char>, i: int)
    requires
        0 <= i < s.len(),
        st.mode == (Mode::Lit { ignore_next: true }),
    ensures
        lex_from(st, s, i) == lex_from(
            LexerView { mode: Mode::Lit { ignore_next: false }, literal: st.literal.push(s[i]), ..st },
            s,
            i + 1,
        ),
{
}

/// A character with no meaning of its own in literal text.
pub open spec fn is_plain(c: char) -> bool {
    c != '\\' && c != '{' && c != '}' && c != '#' && c != ':'
}

/// Plain text, then an unescaped `}`: refused at the `}`, from any index
/// of the plain text on.
pub proof fn lemma_plain_then_close_from(st: LexerView, s: Seq<char>, k: int, i: int)
    requires
        0 <= k <= i < s.len() <= usize::MAX,
        st.mode == (Mode::Lit { ignore_next: false }),
        forall|j: int| k <= j < i ==> is_plain(#[trigger] s[j]),
        s[i] == '}',
    ensures
        lex_from(st, s, k) is Err,
        lex_from(st, s, k)->Err_0.kind == LexErrorKind::UnexpectedClosingBrace,
        lex_from(st, s, k)->Err_0.position == i,
    decreases i - k,
{
    if k < i {
        assert(is_plain(s[k]));
        lemma_plain_then_close_from(LexerView { literal: st.literal.push(s[k]), ..st }, s, k + 1, i);
    }
}

/// A line that is plain text up to an unescaped `}` is refused at that `}`.
pub proof fn lemma_plain_then_close(s: Seq<char>, i: int)
    requires
        0 <= i < s.len() <= usize::MAX,
        forall|j: int| 0 <= j < i ==> is_plain(#[trigger] s[j]),
        s[i] == '}',
    ensures
        lexed(s) is Err,
        lexed(s)->Err_0.kind == LexErrorKind::UnexpectedClosingBrace,
        lexed(s)->Err_0.position == i,
{
    lemma_plain_then_close_from(start(), s, 0, i);
}

/// Plain text to the end of the line is copied into the literal text, from
/// any index on.
pub proof fn lemma_plain_from(st: LexerView, s: Seq<char>, k: int)
    requires
        0 <= k <= s.len(),
        st.mode == (Mode::Lit { ignore_next: false }),
        forall|j: int| k <= j < s.len() ==> is_plain(#[trigger] s[j]),
    ensures
        lex_from(st, s, k) == Ok::<RawSpeechView, LexErrorView>(
            built(LexerView { literal: st.literal + s.subrange(k, s.len() as int), ..st }, None),
        ),
    decreases s.len() - k,
{
    if k < s.len() {
        assert(is_plain(s[k]));
        let next = LexerView { literal: st.literal.push(s[k]), ..st };
        lemma_plain_from(next, s, k + 1);
        assert(next.literal + s.subrange(k + 1, s.len() as int) =~= st.literal + s.subrange(
            k,
            s.len() as int,
        ));
    } else {
        assert(st.literal + s.subrange(k, s.len() as int) =~= st.literal);
    }
}

/// A line of plain text is its own literal text: no speaker, no arguments,
/// no metadata.
pub proof fn lemma_plain_line(s: Seq<char>)
    requires
        forall|j: int| 0 <= j < s.len() ==> is_plain(#[trigger] s[j]),
    ensures
        lexed(s) == Ok::<RawSpeechView, LexErrorView>(
            RawSpeechView { speaker: None, literal: s, args: Seq::empty(), metadata: None },
        ),
{
    lemma_plain_from(start(), s, 0);
    assert(start().literal + s.subrange(0, s.len() as int) =~= s);
}

/// Every tag gives a line identifier or stays a tag, and the tags that stay
/// give no line identifier.
pub proof fn lemma_tags_are_parted(tags: Seq<Seq<char>>)
    ensures
        line_ids(tags).len() + plain_tags(tags).len() == tags.len(),
        forall|i: int|
            0 <= i < plain_tags(tags).len() ==> line_id_of(#[trigger] plain_tags(tags)[i]) is None
                && tags.contains(plain_tags(tags)[i]),
    decreases tags.len(),
{
    if tags.len() > 0 {
        lemma_tags_are_parted(tags.drop_last());
        let before = plain_tags(tags.drop_last());
        assert forall|i: int| 0 <= i < plain_tags(tags).len() implies line_id_of(
            #[trigger] plain_tags(tags)[i],
        ) is None && tags.contains(plain_tags(tags)[i]) by {
            if i < before.len() {
                let x = before[i];
                assert(tags.drop_last().contains(x));
                let j = choose|j: int| 0 <= j < tags.drop_last().len() && tags.drop_last()[j] == x;
                assert(tags[j] == x);
            } else {
                assert(tags[tags.len() - 1] == tags.last());
            }
        }
    }
}

/// No tag of a line's metadata is empty.
pub proof fn lemma_tags_are_not_empty(pieces: Seq<Seq<char>>)
    ensures
        forall|i: int|
            0 <= i < non_empty(pieces).len() ==> (#[trigger] non_empty(pieces)[i]).len() > 0,
    decreases pieces.len(),
{
    if pieces.len() > 0 {
        lemma_tags_are_not_empty(pieces.drop_last());
        let before = non_empty(pieces.drop_last());
        assert forall|i: int| 0 <= i < non_empty(pieces).len() implies (#[trigger] non_empty(
            pieces,
        )[i]).len() > 0 by {
            if i < before.len() {
                assert(before[i].len() > 0);
            }
        }
    }
}

/// The first `k` tags give no more line identifiers than all of them.
pub proof fn lemma_line_ids_grow(tags: Seq<Seq<char>>, k: int)
    requires
        0 <= k <= tags.len(),
    ensures
        line_ids(tags.take(k)).len() <= line_ids(tags).len(),
    decreases tags.len(),
{
    if k == tags.len() {
        assert(tags.take(k) =~= tags);
    } else {
        assert(tags.drop_last().take(k) =~= tags.take(k));
        lemma_line_ids_grow(tags.drop_last(), k);
    }
}

/// Two `line:` tags give at least two line identifiers.
pub proof fn lemma_two_line_ids(tags: Seq<Seq<char>>, i: int, j: int)
    requires
        0 <= i < j < tags.len(),
        line_id_of(tags[i]) is Some,
        line_id_of(tags[j]) is Some,
    ensures
        line_ids(tags).len() >= 2,
{
    lemma_line_ids_grow(tags, j + 1);
    assert(tags.take(j + 1).drop_last() =~= tags.take(j));
    assert(tags.take(j + 1).last() == tags[j]);
    lemma_line_ids_grow(tags.take(j), i + 1);
    assert(tags.take(j).take(i + 1) =~= tags.take(i + 1));
    assert(tags.take(i + 1).last() == tags[i]);
}

/// A line with two `line:` tags makes no speech, whatever else it holds.
pub proof fn lemma_two_line_ids_refused(
    raw: RawSpeechView,
    line_number: usize,
    speaker_expr: Option<HostExpr>,
    hosts: Seq<HostExpr>,
    i: int,
    j: int,
)
    requires
        raw.metadata is Some,
        0 <= i < j < tags_of(raw.metadata->Some_0).len(),
        line_id_of(tags_of(raw.metadata->Some_0)[i]) is Some,
        line_id_of(tags_of(raw.metadata->Some_0)[j]) is Some,
    ensures
        speech_of(raw, line_number, speaker_expr, hosts) is Err,
        marks_of(raw.metadata) is Err,
{
    lemma_two_line_ids(tags_of(raw.metadata->Some_0), i, j);
}

/// A speech that was made has text or expressions: not both are empty.
pub proof fn lemma_speech_is_not_empty(
    raw: RawSpeechView,
    line_number: usize,
    speaker_expr: Option<HostExpr>,
    hosts: Seq<HostExpr>,
)
    requires
        speech_of(raw, line_number, speaker_expr, hosts) is Ok,
    ensures
        ({
            let speech = speech_of(raw, line_number, speaker_expr, hosts)->Ok_0;
            speech.literal.len() > 0 || speech.exprs.len() > 0
        }),
{
}

} // verus!
