use rings::build::chars::CharIterator;
use rings::build::statement::{
    InstructionArg, InstructionArgBuilder, InstructionStatement, Statement, StatementParser,
    StatementParserError, StatementParserState,
};
use rings::build::stream::{Replay, Stream};
use rings::build::token::{Token, Tokenizer, TokenizerError};
use rings::error::RingsError;
use rings::instruction::InstructionPrimitive;
use rings::Localized;

fn at<V>(line: usize, column: usize, value: V) -> Localized<V> {
    Localized { line_number: line, char_number: column, value }
}

fn statements_of(source: &str) -> Vec<Localized<Result<Statement, RingsError>>> {
    let chars = CharIterator::new(source.as_bytes().to_vec());
    let mut parser = StatementParser::new(Tokenizer::new(chars));
    let mut items = Vec::new();
    while let Some(item) = parser.next() {
        items.push(item);
    }
    assert!(parser.next().is_none());
    items
}

fn parse_tokens(tokens: Vec<Localized<Result<Token, RingsError>>>) -> Vec<Localized<Result<Statement, RingsError>>> {
    let mut parser = StatementParser::new(Replay::new(tokens));
    let mut items = Vec::new();
    while let Some(item) = parser.next() {
        items.push(item);
    }
    items
}

fn number(n: u8) -> InstructionArg {
    InstructionArg::Number(n)
}

fn label(name: &str) -> InstructionArg {
    InstructionArg::Label(String::from(name))
}

fn word(text: &str) -> Token {
    Token::Word(String::from(text))
}

fn serialize(tokens: &[Localized<Result<Token, RingsError>>]) -> String {
    let mut text = String::new();
    for token in tokens {
        match token.value.as_ref().unwrap() {
            Token::Colon => text.push(':'),
            Token::Word(w) => {
                text.push_str(w);
                text.push(' ');
            }
            Token::Number(n) => {
                text.push_str(&format!("{}", n));
                text.push(' ');
            }
            Token::Newline => text.push('\n'),
            Token::InstructionPrimitive(p) => {
                text.push_str(&format!("{:?}", p));
                text.push(' ');
            }
        }
    }
    text
}

#[test]
fn statements_of_a_small_program() {
    let items = statements_of("mkr 4\nput 0 7\n:loop\njmp :loop\n");
    assert_eq!(
        items,
        vec![
            at(
                1,
                1,
                Ok(Statement::Instruction(InstructionStatement::Instruction1(
                    InstructionPrimitive::MKR,
                    number(4)
                )))
            ),
            at(
                2,
                1,
                Ok(Statement::Instruction(InstructionStatement::Instruction2(
                    InstructionPrimitive::PUT,
                    number(0),
                    number(7)
                )))
            ),
            at(3, 1, Ok(Statement::Label(String::from("loop")))),
            at(
                4,
                1,
                Ok(Statement::Instruction(InstructionStatement::Instruction1(
                    InstructionPrimitive::JMP,
                    label("loop")
                )))
            ),
        ]
    );
}

#[test]
fn tokens_written_out_again_parse_to_the_same_statements() {
    let source = "mkr 4\nput 0 7\n:loop\njmp :loop\n";
    let mut tokenizer = Tokenizer::new(CharIterator::new(source.as_bytes().to_vec()));
    let mut tokens = Vec::new();
    while let Some(item) = tokenizer.next() {
        tokens.push(item);
    }
    let rewritten = serialize(&tokens);
    let direct: Vec<Statement> =
        statements_of(source).into_iter().map(|s| s.value.unwrap()).collect();
    let again: Vec<Statement> =
        statements_of(&rewritten).into_iter().map(|s| s.value.unwrap()).collect();
    assert_eq!(direct.len(), 4);
    assert_eq!(again, direct);
    let from_tokens: Vec<Statement> =
        parse_tokens(tokens).into_iter().map(|s| s.value.unwrap()).collect();
    assert_eq!(from_tokens, direct);
}

#[test]
fn three_argument_instructions_take_rings_and_a_label() {
    let items = statements_of("jeq 1 2 :end\nadd 0 1 2");
    assert_eq!(
        items,
        vec![
            at(
                1,
                1,
                Ok(Statement::Instruction(InstructionStatement::Instruction3(
                    InstructionPrimitive::JEQ,
                    number(1),
                    number(2),
                    label("end")
                )))
            ),
            at(
                2,
                1,
                Ok(Statement::Instruction(InstructionStatement::Instruction3(
                    InstructionPrimitive::ADD,
                    number(0),
                    number(1),
                    number(2)
                )))
            ),
        ]
    );
}

#[test]
fn blank_lines_and_comments_are_passed_over() {
    let items = statements_of("\n\n# note\n   \nhlt 0\n\n");
    assert_eq!(
        items,
        vec![at(
            5,
            1,
            Ok(Statement::Instruction(InstructionStatement::Instruction1(
                InstructionPrimitive::HLT,
                number(0)
            )))
        )]
    );
}

#[test]
fn statement_may_span_no_line_break() {
    let items = statements_of("put 0\n7\n");
    assert_eq!(
        items,
        vec![at(
            1,
            1,
            Err(RingsError::StatementParser(StatementParserError::InstrArgExpected(
                Token::Newline
            )))
        )]
    );
}

#[test]
fn statement_cannot_start_with_a_number_or_a_word() {
    assert_eq!(
        statements_of("7\n"),
        vec![at(
            1,
            1,
            Err(RingsError::StatementParser(StatementParserError::UnexpectedToken(
                Token::Number(7)
            )))
        )]
    );
    assert_eq!(
        statements_of("hlt 0\n  halt\n"),
        vec![
            at(
                1,
                1,
                Ok(Statement::Instruction(InstructionStatement::Instruction1(
                    InstructionPrimitive::HLT,
                    number(0)
                )))
            ),
            at(
                2,
                3,
                Err(RingsError::StatementParser(StatementParserError::UnexpectedToken(word(
                    "halt"
                ))))
            ),
        ]
    );
}

#[test]
fn colon_must_be_followed_by_a_name() {
    assert_eq!(
        statements_of(": 7\n"),
        vec![at(
            1,
            1,
            Err(RingsError::StatementParser(StatementParserError::LabelExpected(Token::Number(
                7
            ))))
        )]
    );
    assert_eq!(
        statements_of("jmp :\n"),
        vec![at(
            1,
            1,
            Err(RingsError::StatementParser(StatementParserError::LabelExpected(
                Token::Newline
            )))
        )]
    );
}

#[test]
fn argument_must_be_a_number_or_a_label_reference() {
    assert_eq!(
        statements_of("put x 1\n"),
        vec![at(
            1,
            1,
            Err(RingsError::StatementParser(StatementParserError::InstrArgExpected(word("x"))))
        )]
    );
    assert_eq!(
        statements_of("add 1 2 hlt\n"),
        vec![at(
            1,
            1,
            Err(RingsError::StatementParser(StatementParserError::InstrArgExpected(
                Token::InstructionPrimitive(InstructionPrimitive::HLT)
            )))
        )]
    );
}

#[test]
fn tokens_that_end_inside_a_statement_leave_it_unclosed() {
    let items = parse_tokens(vec![
        at(3, 1, Ok(Token::InstructionPrimitive(InstructionPrimitive::PUT))),
        at(3, 5, Ok(Token::Number(1))),
    ]);
    assert_eq!(
        items,
        vec![at(3, 1, Err(RingsError::StatementParser(StatementParserError::UnclosedStatement)))]
    );
    let items = parse_tokens(vec![at(2, 1, Ok(Token::Colon))]);
    assert_eq!(
        items,
        vec![at(2, 1, Err(RingsError::StatementParser(StatementParserError::UnclosedStatement)))]
    );
}

#[test]
fn error_among_the_tokens_is_handed_on() {
    let items = statements_of("hlt 0\nput 0 0x\n");
    assert_eq!(
        items,
        vec![
            at(
                1,
                1,
                Ok(Statement::Instruction(InstructionStatement::Instruction1(
                    InstructionPrimitive::HLT,
                    number(0)
                )))
            ),
            at(2, 7, Err(RingsError::Tokenizer(TokenizerError::InvalidCharacter('\n')))),
        ]
    );
}

#[test]
fn argument_builder_steps() {
    let mut builder = InstructionArgBuilder::Empty;
    assert_eq!(builder.push(Token::Number(3)), Ok(Some(number(3))));
    assert_eq!(builder, InstructionArgBuilder::Empty);
    assert_eq!(builder.push(Token::Colon), Ok(None));
    assert_eq!(builder, InstructionArgBuilder::Colon);
    assert_eq!(builder.push(Token::Colon), Err(StatementParserError::LabelExpected(Token::Colon)));
    assert_eq!(builder, InstructionArgBuilder::Colon);
    assert_eq!(builder.push(word("top")), Ok(Some(label("top"))));
    assert_eq!(builder, InstructionArgBuilder::Empty);
    assert_eq!(
        builder.push(word("top")),
        Err(StatementParserError::InstrArgExpected(word("top")))
    );
    assert_eq!(builder, InstructionArgBuilder::Empty);
}

#[test]
fn parser_state_steps() {
    let (state, out) = StatementParserState::Init.step(Token::Newline);
    assert_eq!(state, StatementParserState::Init);
    assert_eq!(out, Ok(None));
    let (state, out) =
        StatementParserState::Init.step(Token::InstructionPrimitive(InstructionPrimitive::ROT));
    assert_eq!(
        state,
        StatementParserState::InstrStart(InstructionPrimitive::ROT, InstructionArgBuilder::Empty)
    );
    assert_eq!(out, Ok(None));
    let (state, out) = state.step(Token::Number(2));
    assert_eq!(
        state,
        StatementParserState::Instr1Arg(
            InstructionPrimitive::ROT,
            number(2),
            InstructionArgBuilder::Empty
        )
    );
    assert_eq!(out, Ok(None));
    let (state, out) = state.step(Token::Number(9));
    assert_eq!(state, StatementParserState::Init);
    assert_eq!(
        out,
        Ok(Some(Statement::Instruction(InstructionStatement::Instruction2(
            InstructionPrimitive::ROT,
            number(2),
            number(9)
        ))))
    );
    let (state, out) = StatementParserState::LabelStart.step(word("a"));
    assert_eq!(state, StatementParserState::Init);
    assert_eq!(out, Ok(Some(Statement::Label(String::from("a")))));
}
