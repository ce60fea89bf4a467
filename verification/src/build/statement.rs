//! Grouping the tokens into statements.

use crate::build::stream::{
    lemma_successes_before, stops_at_failure, Item, ItemView, Stream,
};
use crate::build::token::{Token, TokenView};
use crate::error::{RingsError, RingsErrorView};
use crate::instruction::InstructionPrimitive;
use crate::Localized;
use vstd::prelude::*;

verus! {

/// Why the tokens do not form a statement.
#[derive(Clone, Debug, PartialEq, Eq)]
pub enum StatementParserError {
    /// No statement starts with this token.
    UnexpectedToken(Token),
    /// A label name was expected in place of this token.
    LabelExpected(Token),
    /// A number or a colon was expected in place of this token.
    InstrArgExpected(Token),
    /// The tokens ended in the middle of a statement.
    UnclosedStatement,
}

/// A [`StatementParserError`] as contracts see it.
pub enum StatementParserErrorView {
    UnexpectedToken(TokenView),
    LabelExpected(TokenView),
    InstrArgExpected(TokenView),
    UnclosedStatement,
}

impl View for StatementParserError {
    type V = StatementParserErrorView;

    open spec fn view(&self) -> StatementParserErrorView {
        match self {
            StatementParserError::UnexpectedToken(t) => StatementParserErrorView::UnexpectedToken(
                t@,
            ),
            StatementParserError::LabelExpected(t) => StatementParserErrorView::LabelExpected(t@),
            StatementParserError::InstrArgExpected(t) => StatementParserErrorView::InstrArgExpected(
                t@,
            ),
            StatementParserError::UnclosedStatement => StatementParserErrorView::UnclosedStatement,
        }
    }
}

/// An argument as it stands in the source: a number, or a reference to a
/// label.
#[derive(Clone, Debug, PartialEq, Eq)]
pub enum InstructionArg {
    Number(u8),
    Label(String),
}

/// An [`InstructionArg`] as contracts see it.
pub enum InstructionArgView {
    Number(u8),
    Label(Seq<char>),
}

impl View for InstructionArg {
    type V = InstructionArgView;

    open spec fn view(&self) -> InstructionArgView {
        match self {
            InstructionArg::Number(n) => InstructionArgView::Number(*n),
            InstructionArg::Label(l) => InstructionArgView::Label(l@),
        }
    }
}

/// A mnemonic with the arguments that followed it.
#[derive(Clone, Debug, PartialEq, Eq)]
pub enum InstructionStatement {
    Instruction1(InstructionPrimitive, InstructionArg),
    Instruction2(InstructionPrimitive, InstructionArg, InstructionArg),
    Instruction3(InstructionPrimitive, InstructionArg, InstructionArg, InstructionArg),
}

/// An [`InstructionStatement`] as contracts see it.
pub enum InstructionStatementView {
    Instruction1(InstructionPrimitive, InstructionArgView),
    Instruction2(InstructionPrimitive, InstructionArgView, InstructionArgView),
    Instruction3(InstructionPrimitive, InstructionArgView, InstructionArgView, InstructionArgView),
}

impl View for InstructionStatement {
    type V = InstructionStatementView;

    open spec fn view(&self) -> InstructionStatementView {
        match self {
            InstructionStatement::Instruction1(p, a) => InstructionStatementView::Instruction1(
                *p,
                a@,
            ),
            InstructionStatement::Instruction2(p, a, b) => InstructionStatementView::Instruction2(
                *p,
                a@,
                b@,
            ),
            InstructionStatement::Instruction3(
                p,
                a,
                b,
                c,
            ) => InstructionStatementView::Instruction3(*p, a@, b@, c@),
        }
    }
}

impl InstructionStatementView {
    /// The mnemonic of the statement.
    pub open spec fn primitive(self) -> InstructionPrimitive {
        match self {
            InstructionStatementView::Instruction1(p, _) => p,
            InstructionStatementView::Instruction2(p, _, _) => p,
            InstructionStatementView::Instruction3(p, _, _, _) => p,
        }
    }

    /// The arguments of the statement, in order.
    pub open spec fn args(self) -> Seq<InstructionArgView> {
        match self {
            InstructionStatementView::Instruction1(_, a) => seq![a],
            InstructionStatementView::Instruction2(_, a, b) => seq![a, b],
            InstructionStatementView::Instruction3(_, a, b, c) => seq![a, b, c],
        }
    }
}

/// A line of the source that says something: a label declaration or an
/// instruction.
#[derive(Clone, Debug, PartialEq, Eq)]
pub enum Statement {
    Label(String),
    Instruction(InstructionStatement),
}

/// A [`Statement`] as contracts see it.
pub enum StatementView {
    Label(Seq<char>),
    Instruction(InstructionStatementView),
}

impl View for Statement {
    type V = StatementView;

    open spec fn view(&self) -> StatementView {
        match self {
            Statement::Label(l) => StatementView::Label(l@),
            Statement::Instruction(i) => StatementView::Instruction(i@),
        }
    }
}

/// The view of what a step of the parser gave.
pub open spec fn parsed_view<T: View>(r: Result<Option<T>, StatementParserError>) -> Result<
    Option<T::V>,
    StatementParserErrorView,
> {
    match r {
        Ok(Some(t)) => Ok(Some(t@)),
        Ok(None) => Ok(None),
        Err(e) => Err(e@),
    }
}

/// Where the reading of one argument stands: at its start, or behind the
/// colon of a label reference.
#[derive(Clone, Copy, Debug, PartialEq, Eq, Structural)]
pub enum InstructionArgBuilder {
    Empty,
    Colon,
}

/// One step in reading an argument: a number is an argument by itself, a
/// colon asks for the name of a label, and any other token is an error.
pub open spec fn build_arg(builder: InstructionArgBuilder, token: TokenView) -> Result<
    (InstructionArgBuilder, Option<InstructionArgView>),
    StatementParserErrorView,
> {
    match builder {
        InstructionArgBuilder::Empty => match token {
            TokenView::Colon => Ok((InstructionArgBuilder::Colon, None)),
            TokenView::Number(n) => Ok(
                (InstructionArgBuilder::Empty, Some(InstructionArgView::Number(n))),
            ),
            t => Err(StatementParserErrorView::InstrArgExpected(t)),
        },
        InstructionArgBuilder::Colon => match token {
            TokenView::Word(w) => Ok(
                (InstructionArgBuilder::Empty, Some(InstructionArgView::Label(w))),
            ),
            t => Err(StatementParserErrorView::LabelExpected(t)),
        },
    }
}

impl InstructionArgBuilder {
    /// Takes the next token of an argument and returns the argument once it
    /// is complete. Where the token cannot stand here, the builder stays as
    /// it was.
    pub fn push(&mut self, token: Token) -> (r: Result<
        Option<InstructionArg>,
        StatementParserError,
    >)
        ensures
            match build_arg(*old(self), token@) {
                Ok((builder, arg)) => *final(self) == builder && parsed_view(r) == Ok::<
                    Option<InstructionArgView>,
                    StatementParserErrorView,
                >(arg),
                Err(e) => *final(self) == *old(self) && parsed_view(r) == Err::<
                    Option<InstructionArgView>,
                    StatementParserErrorView,
                >(e),
            },
    {
        match self {
            Self::Empty => match token {
                Token::Colon => {
                    *self = InstructionArgBuilder::Colon;
                    Ok(None)
                },
                Token::Number(n) => Ok(Some(InstructionArg::Number(n))),
                token => Err(StatementParserError::InstrArgExpected(token)),
            },
            Self::Colon => match token {
                Token::Word(w) => {
                    *self = InstructionArgBuilder::Empty;
                    Ok(Some(InstructionArg::Label(w)))
                },
                token => Err(StatementParserError::LabelExpected(token)),
            },
        }
    }
}

/// Where the parser stands between two tokens, as contracts see it.
pub enum ParseState {
    /// Between statements.
    Init,
    /// Behind the colon of a label declaration.
    LabelStart,
    /// Behind a mnemonic.
    InstrStart(InstructionPrimitive, InstructionArgBuilder),
    /// Behind the first argument of an instruction that takes more.
    Instr1Arg(InstructionPrimitive, InstructionArgView, InstructionArgBuilder),
    /// Behind the second argument of an instruction that takes three.
    Instr2Arg(InstructionPrimitive, InstructionArgView, InstructionArgView, InstructionArgBuilder),
}

/// One step of the parser: the state after the token and the statement that
/// the token completes, if any; or the reason why the token cannot stand
/// here.
///
/// A newline between statements is passed over. A colon starts a label
/// declaration, which one word completes. A mnemonic starts an instruction,
/// which is complete with as many arguments as the mnemonic takes.
pub open spec fn parse_step(state: ParseState, token: TokenView) -> Result<
    (ParseState, Option<StatementView>),
    StatementParserErrorView,
> {
    match state {
        ParseState::Init => match token {
            TokenView::Newline => Ok((ParseState::Init, None)),
            TokenView::Colon => Ok((ParseState::LabelStart, None)),
            TokenView::InstructionPrimitive(p) => Ok(
                (ParseState::InstrStart(p, InstructionArgBuilder::Empty), None),
            ),
            t => Err(StatementParserErrorView::UnexpectedToken(t)),
        },
        ParseState::LabelStart => match token {
            TokenView::Word(w) => Ok((ParseState::Init, Some(StatementView::Label(w)))),
            t => Err(StatementParserErrorView::LabelExpected(t)),
        },
        ParseState::InstrStart(p, builder) => match build_arg(builder, token) {
            Err(e) => Err(e),
            Ok((b, None)) => Ok((ParseState::InstrStart(p, b), None)),
            Ok((_, Some(arg))) => if p.num_args() == 1 {
                Ok(
                    (
                        ParseState::Init,
                        Some(
                            StatementView::Instruction(
                                InstructionStatementView::Instruction1(p, arg),
                            ),
                        ),
                    ),
                )
            } else {
                Ok((ParseState::Instr1Arg(p, arg, InstructionArgBuilder::Empty), None))
            },
        },
        ParseState::Instr1Arg(p, first, builder) => match build_arg(builder, token) {
            Err(e) => Err(e),
            Ok((b, None)) => Ok((ParseState::Instr1Arg(p, first, b), None)),
            Ok((_, Some(arg))) => if p.num_args() == 2 {
                Ok(
                    (
                        ParseState::Init,
                        Some(
                            StatementView::Instruction(
                                InstructionStatementView::Instruction2(p, first, arg),
                            ),
                        ),
                    ),
                )
            } else {
                Ok((ParseState::Instr2Arg(p, first, arg, InstructionArgBuilder::Empty), None))
            },
        },
        ParseState::Instr2Arg(p, first, second, builder) => match build_arg(builder, token) {
            Err(e) => Err(e),
            Ok((b, None)) => Ok((ParseState::Instr2Arg(p, first, second, b), None)),
            Ok((_, Some(arg))) => Ok(
                (
                    ParseState::Init,
                    Some(
                        StatementView::Instruction(
                            InstructionStatementView::Instruction3(p, first, second, arg),
                        ),
                    ),
                ),
            ),
        },
    }
}

/// Where the parser stands between two tokens.
#[derive(Clone, Debug, PartialEq, Eq)]
pub enum StatementParserState {
    Init,
    /// A colon has been detected.
    LabelStart,
    /// Instruction primitive has been detected.
    InstrStart(InstructionPrimitive, InstructionArgBuilder),
    /// First argument down.
    Instr1Arg(InstructionPrimitive, InstructionArg, InstructionArgBuilder),
    /// Two arguments down.
    Instr2Arg(InstructionPrimitive, InstructionArg, InstructionArg, InstructionArgBuilder),
}

impl View for StatementParserState {
    type V = ParseState;

    open spec fn view(&self) -> ParseState {
        match self {
            StatementParserState::Init => ParseState::Init,
            StatementParserState::LabelStart => ParseState::LabelStart,
            StatementParserState::InstrStart(p, b) => ParseState::InstrStart(*p, *b),
            StatementParserState::Instr1Arg(p, a, b) => ParseState::Instr1Arg(*p, a@, *b),
            StatementParserState::Instr2Arg(p, a, c, b) => ParseState::Instr2Arg(
                *p,
                a@,
                c@,
                *b,
            ),
        }
    }
}

impl StatementParserState {
    /// Takes the token: the state after it and the statement it completes,
    /// if any. Where the token cannot stand here, the state stays and the
    /// reason is returned.
    pub fn step(self, token: Token) -> (r: (Self, Result<Option<Statement>, StatementParserError>))
        ensures
            match parse_step(self@, token@) {
                Ok((state, statement)) => r.0@ == state && parsed_view(r.1) == Ok::<
                    Option<StatementView>,
                    StatementParserErrorView,
                >(statement),
                Err(e) => r.0@ == self@ && parsed_view(r.1) == Err::<
                    Option<StatementView>,
                    StatementParserErrorView,
                >(e),
            },
    {
        match self {
            StatementParserState::Init => match token {
                Token::Newline => (StatementParserState::Init, Ok(None)),
                Token::Colon => (StatementParserState::LabelStart, Ok(None)),
                Token::InstructionPrimitive(instr) => (
                    StatementParserState::InstrStart(instr, InstructionArgBuilder::Empty),
                    Ok(None),
                ),
                token => (
                    StatementParserState::Init,
                    Err(StatementParserError::UnexpectedToken(token)),
                ),
            },
            StatementParserState::LabelStart => match token {
                Token::Word(w) => (StatementParserState::Init, Ok(Some(Statement::Label(w)))),
                token => (
                    StatementParserState::LabelStart,
                    Err(StatementParserError::LabelExpected(token)),
                ),
            },
            StatementParserState::InstrStart(instr, builder) => {
                let mut builder = builder;
                match builder.push(token) {
                    Err(e) => (StatementParserState::InstrStart(instr, builder), Err(e)),
                    Ok(None) => (StatementParserState::InstrStart(instr, builder), Ok(None)),
                    Ok(Some(arg)) => {
                        if instr.get_num_args() == 1 {
                            (
                                StatementParserState::Init,
                                Ok(
                                    Some(
                                        Statement::Instruction(
                                            InstructionStatement::Instruction1(instr, arg),
                                        ),
                                    ),
                                ),
                            )
                        } else {
                            (
                                StatementParserState::Instr1Arg(
                                    instr,
                                    arg,
                                    InstructionArgBuilder::Empty,
                                ),
                                Ok(None),
                            )
                        }
                    },
                }
            },
            StatementParserState::Instr1Arg(instr, first, builder) => {
                let mut builder = builder;
                match builder.push(token) {
                    Err(e) => (StatementParserState::Instr1Arg(instr, first, builder), Err(e)),
                    Ok(None) => (
                        StatementParserState::Instr1Arg(instr, first, builder),
                        Ok(None),
                    ),
                    Ok(Some(arg)) => {
                        if instr.get_num_args() == 2 {
                            (
                                StatementParserState::Init,
                                Ok(
                                    Some(
                                        Statement::Instruction(
                                            InstructionStatement::Instruction2(instr, first, arg),
                                        ),
                                    ),
                                ),
                            )
                        } else {
                            (
                                StatementParserState::Instr2Arg(
                                    instr,
                                    first,
                                    arg,
                                    InstructionArgBuilder::Empty,
                                ),
                                Ok(None),
                            )
                        }
                    },
                }
            },
            StatementParserState::Instr2Arg(instr, first, second, builder) => {
                let mut builder = builder;
                match builder.push(token) {
                    Err(e) => (
                        StatementParserState::Instr2Arg(instr, first, second, builder),
                        Err(e),
                    ),
                    Ok(None) => (
                        StatementParserState::Instr2Arg(instr, first, second, builder),
                        Ok(None),
                    ),
                    Ok(Some(arg)) => (
                        StatementParserState::Init,
                        Ok(
                            Some(
                                Statement::Instruction(
                                    InstructionStatement::Instruction3(instr, first, second, arg),
                                ),
                            ),
                        ),
                    ),
                }
            },
        }
    }
}

/// The statement that a step completed, at the place `start` where it
/// began.
pub open spec fn concluded(start: Localized<()>, statement: Option<StatementView>) -> Seq<
    ItemView<StatementView>,
> {
    match statement {
        Some(s) => seq![start.with(Ok::<StatementView, RingsErrorView>(s))],
        None => Seq::empty(),
    }
}

/// The statements of the tokens `tokens`, read from the state `state`. A
/// statement stands at the place of its first token; `last` is the place
/// where the statement that is being read began.
///
/// An error among the tokens is handed on at its place, and an error of the
/// parser stands where the statement began; either ends the sequence.
/// Tokens that end in the middle of a statement leave it unclosed.
pub open spec fn statements_from(
    state: ParseState,
    last: Localized<()>,
    tokens: Seq<ItemView<TokenView>>,
) -> Seq<ItemView<StatementView>>
    decreases tokens.len(),
{
    if tokens.len() == 0 {
        if state is Init {
            Seq::empty()
        } else {
            seq![
                last.with(
                    Err::<StatementView, RingsErrorView>(
                        RingsErrorView::StatementParser(
                            StatementParserErrorView::UnclosedStatement,
                        ),
                    ),
                ),
            ]
        }
    } else {
        match tokens[0].value {
            Err(e) => seq![tokens[0].with(Err::<StatementView, RingsErrorView>(e))],
            Ok(token) => {
                let start = if state is Init {
                    tokens[0].with(())
                } else {
                    last
                };
                match parse_step(state, token) {
                    Err(e) => seq![
                        start.with(
                            Err::<StatementView, RingsErrorView>(
                                RingsErrorView::StatementParser(e),
                            ),
                        ),
                    ],
                    Ok((next, statement)) => concluded(start, statement) + statements_from(
                        next,
                        start,
                        tokens.skip(1),
                    ),
                }
            },
        }
    }
}

/// The parser yields nothing after an error, whether the error is its own
/// or one among the tokens.
pub proof fn lemma_statements_stop_at_failure(
    state: ParseState,
    last: Localized<()>,
    tokens: Seq<ItemView<TokenView>>,
)
    ensures
        stops_at_failure(statements_from(state, last, tokens)),
    decreases tokens.len(),
{
    if tokens.len() > 0 {
        match tokens[0].value {
            Ok(token) => {
                let start = if state is Init {
                    tokens[0].with(())
                } else {
                    last
                };
                match parse_step(state, token) {
                    Ok((next, statement)) => {
                        lemma_statements_stop_at_failure(next, start, tokens.skip(1));
                        lemma_successes_before(
                            concluded(start, statement),
                            statements_from(next, start, tokens.skip(1)),
                        );
                    },
                    Err(_) => {},
                }
            },
            Err(_) => {},
        }
    }
}

/// The statements of a whole sequence of tokens.
pub open spec fn parse(tokens: Seq<ItemView<TokenView>>) -> Seq<ItemView<StatementView>> {
    statements_from(
        ParseState::Init,
        Localized { line_number: 1, char_number: 1, value: () },
        tokens,
    )
}

/// A parser over a stream of tokens. It yields the statements one by one,
/// each with the position where it began.
pub struct StatementParser<I> {
    tokens: I,
    done: bool,
    state: StatementParserState,
    last_location: Localized<()>,
}

impl<I: Stream<Token>> StatementParser<I> {
    /// A parser at the start of the tokens `inner`.
    pub fn new(inner: I) -> (r: Self)
        requires
            inner.wf(),
        ensures
            r.wf(),
            r.remaining() == parse(inner.remaining()),
    {
        Self {
            tokens: inner,
            done: false,
            state: StatementParserState::Init,
            last_location: Localized::new(()),
        }
    }

    /// Takes the token into the statement that is being read, and returns
    /// the statement that the token completes, if any.
    fn consume(&mut self, token: Token) -> (r: Result<Option<Statement>, StatementParserError>)
        ensures
            final(self).tokens == old(self).tokens,
            final(self).done == old(self).done,
            final(self).last_location == old(self).last_location,
            match parse_step(old(self).state@, token@) {
                Ok((state, statement)) => final(self).state@ == state && parsed_view(r) == Ok::<
                    Option<StatementView>,
                    StatementParserErrorView,
                >(statement),
                Err(e) => final(self).state@ == old(self).state@ && parsed_view(r) == Err::<
                    Option<StatementView>,
                    StatementParserErrorView,
                >(e),
            },
    {
        let mut state = StatementParserState::Init;
        core::mem::swap(&mut self.state, &mut state);
        let (next, result) = state.step(token);
        self.state = next;
        result
    }
}

impl<I: Stream<Token>> Stream<Statement> for StatementParser<I> {
    closed spec fn wf(&self) -> bool {
        self.tokens.wf()
    }

    closed spec fn remaining(&self) -> Seq<ItemView<StatementView>> {
        if self.done {
            Seq::empty()
        } else {
            statements_from(self.state@, self.last_location, self.tokens.remaining())
        }
    }

    fn next(&mut self) -> (r: Option<Item<Statement>>) {
        if self.done {
            return None;
        }
        let ghost before = self.remaining();
        loop
            invariant
                self.wf(),
                !self.done,
                before == old(self).remaining(),
                before == statements_from(
                    self.state@,
                    self.last_location,
                    self.tokens.remaining(),
                ),
            decreases self.tokens.remaining().len(),
        {
            let ghost tokens = self.tokens.remaining();
            let (localized, token) = match self.tokens.next() {
                None => {
                    self.done = true;
                    let finished = match self.state {
                        StatementParserState::Init => true,
                        _ => false,
                    };
                    if finished {
                        return None;
                    }
                    let item = self.last_location.transform(
                        Err(RingsError::StatementParser(StatementParserError::UnclosedStatement)),
                    );
                    proof {
                        assert(self.remaining() =~= before.skip(1));
                    }
                    return Some(item);
                },
                Some(loc) => match loc.branch() {
                    Err(failure) => {
                        self.done = true;
                        let item = Localized::from_residual(failure);
                        proof {
                            assert(self.remaining() =~= before.skip(1));
                        }
                        return Some(item);
                    },
                    Ok(v) => v.cut(),
                },
            };
            let at_start = match self.state {
                StatementParserState::Init => true,
                _ => false,
            };
            if at_start {
                self.last_location = localized;
            }
            let ghost rest = statements_from(
                match parse_step(self.state@, token@) {
                    Ok((next, _)) => next,
                    Err(_) => self.state@,
                },
                self.last_location,
                tokens.skip(1),
            );
            match self.consume(token) {
                Ok(Some(statement)) => {
                    let item = self.last_location.transform(Ok(statement));
                    proof {
                        assert(self.remaining() =~= before.skip(1));
                    }
                    return Some(item);
                },
                Ok(None) => {
                    proof {
                        assert(before =~= rest);
                    }
                },
                Err(e) => {
                    self.done = true;
                    let item = self.last_location.transform(Err(RingsError::StatementParser(e)));
                    proof {
                        assert(self.remaining() =~= before.skip(1));
                    }
                    return Some(item);
                },
            }
        }
    }
}

} // verus!
