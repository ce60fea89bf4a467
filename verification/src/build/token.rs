//! Splitting the characters into tokens.

use crate::build::stream::{
    item_view, lemma_successes_before, stops_at_failure, Item, ItemView, Stream,
};
use crate::error::{RingsError, RingsErrorView};
use crate::instruction::InstructionPrimitive;
use crate::{Localized, NumberSystem};
use vstd::prelude::*;

verus! {

/// Why the characters do not form a token.
#[derive(Clone, Copy, Debug, PartialEq, Eq, Structural)]
pub enum TokenizerError {
    /// This character cannot stand where it does.
    InvalidCharacter(char),
    /// This character is no digit of the number system.
    InvalidDigit(NumberSystem, char),
    /// The number, carried here, does not fit in a byte.
    NumberOutOfRange(NumberSystem, usize),
    /// The characters ended in the middle of a token.
    UnfinishedToken,
}

/// A lexical unit of the source.
#[derive(Clone, Debug, PartialEq, Eq)]
pub enum Token {
    Colon,
    Word(String),
    Number(u8),
    Newline,
    InstructionPrimitive(InstructionPrimitive),
}

/// A [`Token`] as contracts see it.
pub enum TokenView {
    Colon,
    Word(Seq<char>),
    Number(u8),
    Newline,
    InstructionPrimitive(InstructionPrimitive),
}

impl View for Token {
    type V = TokenView;

    open spec fn view(&self) -> TokenView {
        match self {
            Token::Colon => TokenView::Colon,
            Token::Word(w) => TokenView::Word(w@),
            Token::Number(n) => TokenView::Number(*n),
            Token::Newline => TokenView::Newline,
            Token::InstructionPrimitive(p) => TokenView::InstructionPrimitive(*p),
        }
    }
}

/// The outside function `String::push` appends one character to the end of
/// a string and leaves the characters before it as they were.
pub assume_specification[ std::string::String::push ](s: &mut std::string::String, ch: char)
    ensures
        final(s)@ == old(s)@.push(ch),
;

/// The characters that separate tokens: those with the Unicode property
/// White_Space.
pub open spec fn whitespace(c: char) -> bool {
    ||| '\u{9}' <= c <= '\u{D}'
    ||| c == ' '
    ||| c == '\u{85}'
    ||| c == '\u{A0}'
    ||| c == '\u{1680}'
    ||| '\u{2000}' <= c <= '\u{200A}'
    ||| c == '\u{2028}'
    ||| c == '\u{2029}'
    ||| c == '\u{202F}'
    ||| c == '\u{205F}'
    ||| c == '\u{3000}'
}

/// Whether `c` separates tokens.
pub fn is_whitespace(c: char) -> (r: bool)
    ensures
        r == whitespace(c),
{
    ('\u{9}' <= c && c <= '\u{D}') || c == ' ' || c == '\u{85}' || c == '\u{A0}' || c
        == '\u{1680}' || ('\u{2000}' <= c && c <= '\u{200A}') || c == '\u{2028}' || c
        == '\u{2029}' || c == '\u{202F}' || c == '\u{205F}' || c == '\u{3000}'
}

/// The value of `c` as a digit of `system`, if it is one. Hexadecimal takes
/// letters of either case.
pub open spec fn digit_value(system: NumberSystem, c: char) -> Option<usize> {
    match system {
        NumberSystem::Binary => if '0' <= c <= '1' {
            Some((c as int - '0' as int) as usize)
        } else {
            None
        },
        NumberSystem::Octal => if '0' <= c <= '7' {
            Some((c as int - '0' as int) as usize)
        } else {
            None
        },
        NumberSystem::Decimal => if '0' <= c <= '9' {
            Some((c as int - '0' as int) as usize)
        } else {
            None
        },
        NumberSystem::Hexadecimal => if '0' <= c <= '9' {
            Some((c as int - '0' as int) as usize)
        } else if 'A' <= c <= 'F' {
            Some((c as int - 'A' as int + 10) as usize)
        } else if 'a' <= c <= 'f' {
            Some((c as int - 'a' as int + 10) as usize)
        } else {
            None
        },
        NumberSystem::Unknown => None,
    }
}

/// The number `value` with the digit `digit` put behind it. A number too
/// large to be counted stays at the largest count, so that it is never
/// mistaken for a small one.
pub open spec fn accumulate(value: usize, system: NumberSystem, digit: usize) -> usize {
    if value * system.radix() + digit > usize::MAX {
        usize::MAX
    } else {
        (value * system.radix() + digit) as usize
    }
}

/// The token that a word is: the mnemonic, if the word has exactly three
/// characters and they spell one in whatever case, and else the word
/// itself.
pub open spec fn word_token(word: Seq<char>) -> TokenView {
    if word.len() == 3 {
        match InstructionPrimitive::parse((word[0], word[1], word[2])) {
            Some(p) => TokenView::InstructionPrimitive(p),
            None => TokenView::Word(word),
        }
    } else {
        TokenView::Word(word)
    }
}

/// A word while it is read: up to three characters are held one by one,
/// longer words as a string.
#[derive(Clone, Debug, PartialEq, Eq)]
pub enum WordPrimitive {
    Char(char),
    TwoChars(char, char),
    ThreeChars(char, char, char),
    String(String),
}

impl View for WordPrimitive {
    type V = Seq<char>;

    open spec fn view(&self) -> Seq<char> {
        match self {
            WordPrimitive::Char(a) => seq![*a],
            WordPrimitive::TwoChars(a, b) => seq![*a, *b],
            WordPrimitive::ThreeChars(a, b, c) => seq![*a, *b, *c],
            WordPrimitive::String(s) => s@,
        }
    }
}

impl WordPrimitive {
    /// A word held as a string has at least four characters.
    pub open spec fn wf(&self) -> bool {
        match self {
            WordPrimitive::String(s) => s@.len() >= 4,
            _ => true,
        }
    }

    /// The characters of the word as a string.
    pub fn into_string(self) -> (r: String)
        ensures
            r@ == self@,
    {
        match self {
            Self::String(s) => s,
            Self::Char(a) => {
                let mut s = String::new();
                s.push(a);
                assert(s@ =~= seq![a]);
                s
            },
            Self::TwoChars(a, b) => {
                let mut s = String::new();
                s.push(a);
                s.push(b);
                assert(s@ =~= seq![a, b]);
                s
            },
            Self::ThreeChars(a, b, c) => {
                let mut s = String::new();
                s.push(a);
                s.push(b);
                s.push(c);
                assert(s@ =~= seq![a, b, c]);
                s
            },
        }
    }

    /// The token that the finished word is.
    pub fn into_token(self) -> (r: Token)
        requires
            self.wf(),
        ensures
            r@ == word_token(self@),
    {
        match &self {
            Self::ThreeChars(a, b, c) => match InstructionPrimitive::try_from((*a, *b, *c)) {
                Ok(v) => Token::InstructionPrimitive(v),
                Err(..) => Token::Word(self.into_string()),
            },
            _ => Token::Word(self.into_string()),
        }
    }

    /// Puts one more character behind the word.
    pub fn push(&mut self, c: char)
        requires
            old(self).wf(),
        ensures
            final(self).wf(),
            final(self)@ == old(self)@.push(c),
    {
        let mut word = WordPrimitive::Char(c);
        core::mem::swap(self, &mut word);
        match word {
            Self::Char(a) => {
                *self = Self::TwoChars(a, c);
                assert(self@ =~= seq![a].push(c));
            },
            Self::TwoChars(a, b) => {
                *self = Self::ThreeChars(a, b, c);
                assert(self@ =~= seq![a, b].push(c));
            },
            Self::ThreeChars(a, b, d) => {
                let mut s = String::new();
                s.push(a);
                s.push(b);
                s.push(d);
                s.push(c);
                assert(s@ =~= seq![a, b, d].push(c));
                *self = Self::String(s);
            },
            Self::String(s) => {
                let mut s = s;
                s.push(c);
                *self = Self::String(s);
            },
        }
    }
}

/// Where the tokenizer stands between two characters, as contracts see it.
pub enum LexState {
    /// Between tokens.
    Init,
    /// In a comment, which the end of the line ends.
    Comment,
    /// Behind a zero that starts a number.
    Leading0,
    /// Behind the prefix of a number system, before the first digit.
    NumberStub(usize, NumberSystem),
    /// In a number that a separator may end.
    Number(usize, NumberSystem),
    /// In a word.
    Word(Seq<char>),
}

/// One step of the tokenizer: the state after the character `c` and the
/// token that `c` completes, if any; or the reason why `c` cannot stand
/// here.
pub open spec fn lex(state: LexState, c: char) -> Result<
    (LexState, Option<TokenView>),
    TokenizerError,
> {
    match state {
        LexState::Init => if c == '#' {
            Ok((LexState::Comment, None))
        } else if c == ':' {
            Ok((LexState::Init, Some(TokenView::Colon)))
        } else if c == '0' {
            Ok((LexState::Leading0, None))
        } else if '1' <= c <= '9' {
            Ok(
                (
                    LexState::Number((c as int - '0' as int) as usize, NumberSystem::Decimal),
                    None,
                ),
            )
        } else if whitespace(c) {
            Ok((LexState::Init, None))
        } else {
            Ok((LexState::Word(seq![c]), None))
        },
        LexState::Comment => if c == '\n' {
            Ok((LexState::Init, None))
        } else {
            Ok((LexState::Comment, None))
        },
        LexState::Leading0 => if c == 'x' || c == 'X' {
            Ok((LexState::NumberStub(0, NumberSystem::Hexadecimal), None))
        } else if c == 'b' {
            Ok((LexState::NumberStub(0, NumberSystem::Binary), None))
        } else if '0' <= c <= '7' {
            Ok(
                (LexState::Number((c as int - '0' as int) as usize, NumberSystem::Octal), None),
            )
        } else if c == '8' || c == '9' {
            Err(TokenizerError::InvalidDigit(NumberSystem::Octal, c))
        } else if whitespace(c) {
            Ok((LexState::Init, Some(TokenView::Number(0))))
        } else {
            Err(TokenizerError::InvalidCharacter(c))
        },
        LexState::NumberStub(value, system) => match digit_value(system, c) {
            Some(d) => Ok((LexState::Number(accumulate(value, system, d), system), None)),
            None => Err(TokenizerError::InvalidCharacter(c)),
        },
        LexState::Number(value, system) => match digit_value(system, c) {
            Some(d) => Ok((LexState::Number(accumulate(value, system, d), system), None)),
            None => if whitespace(c) {
                if value > 255 {
                    Err(TokenizerError::NumberOutOfRange(system, value))
                } else {
                    Ok((LexState::Init, Some(TokenView::Number(value as u8))))
                }
            } else {
                Err(TokenizerError::InvalidCharacter(c))
            },
        },
        LexState::Word(word) => if whitespace(c) {
            Ok((LexState::Init, Some(word_token(word))))
        } else {
            Ok((LexState::Word(word.push(c)), None))
        },
    }
}

/// The view of what a step gave.
pub open spec fn step_view<T: View, E>(r: Result<Option<T>, E>) -> Result<Option<T::V>, E> {
    match r {
        Ok(Some(t)) => Ok(Some(t@)),
        Ok(None) => Ok(None),
        Err(e) => Err(e),
    }
}

/// The value of `c` as a digit of `system`, if it is one.
pub fn digit(system: NumberSystem, c: char) -> (r: Option<usize>)
    ensures
        r == digit_value(system, c),
{
    let decimal: bool = '0' <= c && c <= '9';
    let from_zero: usize = if decimal {
        (c as u8 - 48) as usize
    } else {
        0
    };
    match system {
        NumberSystem::Binary => if decimal && from_zero <= 1 {
            Some(from_zero)
        } else {
            None
        },
        NumberSystem::Octal => if decimal && from_zero <= 7 {
            Some(from_zero)
        } else {
            None
        },
        NumberSystem::Decimal => if decimal {
            Some(from_zero)
        } else {
            None
        },
        NumberSystem::Hexadecimal => if decimal {
            Some(from_zero)
        } else if 'A' <= c && c <= 'F' {
            Some((c as u8 - 65 + 10) as usize)
        } else if 'a' <= c && c <= 'f' {
            Some((c as u8 - 97 + 10) as usize)
        } else {
            None
        },
        NumberSystem::Unknown => None,
    }
}

/// The radix of a number system; 0 for `Unknown`.
pub fn radix_of(system: NumberSystem) -> (r: usize)
    ensures
        r as int == system.radix(),
{
    match system {
        NumberSystem::Unknown => 0,
        NumberSystem::Decimal => 10,
        NumberSystem::Octal => 8,
        NumberSystem::Binary => 2,
        NumberSystem::Hexadecimal => 16,
    }
}

/// Puts the digit `digit` behind the number `value`.
pub fn push_digit(value: usize, system: NumberSystem, digit: usize) -> (r: usize)
    ensures
        r == accumulate(value, system, digit),
{
    match value.checked_mul(radix_of(system)) {
        Some(shifted) => match shifted.checked_add(digit) {
            Some(sum) => sum,
            None => usize::MAX,
        },
        None => usize::MAX,
    }
}

/// Where the tokenizer stands between two characters.
#[derive(Clone, Debug, PartialEq, Eq)]
pub enum TokenizerState {
    Init,
    Comment,
    /// A number has been detected with a leading zero.
    Leading0,
    /// A number of a known system is being built, but is not yet complete.
    NumberStub(usize, NumberSystem),
    /// A number of a known system is being built and can be considered
    /// complete.
    Number(usize, NumberSystem),
    /// A sequence of characters.
    Word(WordPrimitive),
}

impl View for TokenizerState {
    type V = LexState;

    open spec fn view(&self) -> LexState {
        match self {
            TokenizerState::Init => LexState::Init,
            TokenizerState::Comment => LexState::Comment,
            TokenizerState::Leading0 => LexState::Leading0,
            TokenizerState::NumberStub(v, s) => LexState::NumberStub(*v, *s),
            TokenizerState::Number(v, s) => LexState::Number(*v, *s),
            TokenizerState::Word(w) => LexState::Word(w@),
        }
    }
}

impl TokenizerState {
    /// The word that is being read, if any, is well formed.
    pub open spec fn wf(&self) -> bool {
        match self {
            TokenizerState::Word(w) => w.wf(),
            _ => true,
        }
    }

    /// Takes the character `c`: the state after it and the token it
    /// completes, if any. Where `c` cannot stand here, the state stays and
    /// the reason is returned.
    pub fn step(self, c: char) -> (r: (Self, Result<Option<Token>, TokenizerError>))
        requires
            self.wf(),
        ensures
            r.0.wf(),
            match lex(self@, c) {
                Ok((state, token)) => r.0@ == state && step_view(r.1) == Ok::<
                    Option<TokenView>,
                    TokenizerError,
                >(token),
                Err(e) => r.0@ == self@ && r.1 == Err::<Option<Token>, TokenizerError>(e),
            },
    {
        match self {
            TokenizerState::Init => {
                if c == '#' {
                    (TokenizerState::Comment, Ok(None))
                } else if c == ':' {
                    (TokenizerState::Init, Ok(Some(Token::Colon)))
                } else if c == '0' {
                    (TokenizerState::Leading0, Ok(None))
                } else if '1' <= c && c <= '9' {
                    (
                        TokenizerState::Number((c as u8 - 48) as usize, NumberSystem::Decimal),
                        Ok(None),
                    )
                } else if is_whitespace(c) {
                    (TokenizerState::Init, Ok(None))
                } else {
                    (TokenizerState::Word(WordPrimitive::Char(c)), Ok(None))
                }
            },
            TokenizerState::Comment => {
                if c == '\n' {
                    (TokenizerState::Init, Ok(None))
                } else {
                    (TokenizerState::Comment, Ok(None))
                }
            },
            TokenizerState::Leading0 => {
                if c == 'x' || c == 'X' {
                    (TokenizerState::NumberStub(0, NumberSystem::Hexadecimal), Ok(None))
                } else if c == 'b' {
                    (TokenizerState::NumberStub(0, NumberSystem::Binary), Ok(None))
                } else if '0' <= c && c <= '7' {
                    (
                        TokenizerState::Number((c as u8 - 48) as usize, NumberSystem::Octal),
                        Ok(None),
                    )
                } else if c == '8' || c == '9' {
                    (
                        TokenizerState::Leading0,
                        Err(TokenizerError::InvalidDigit(NumberSystem::Octal, c)),
                    )
                } else if is_whitespace(c) {
                    (TokenizerState::Init, Ok(Some(Token::Number(0))))
                } else {
                    (TokenizerState::Leading0, Err(TokenizerError::InvalidCharacter(c)))
                }
            },
            TokenizerState::NumberStub(value, system) => match digit(system, c) {
                Some(d) => (
                    TokenizerState::Number(push_digit(value, system, d), system),
                    Ok(None),
                ),
                None => (
                    TokenizerState::NumberStub(value, system),
                    Err(TokenizerError::InvalidCharacter(c)),
                ),
            },
            TokenizerState::Number(value, system) => match digit(system, c) {
                Some(d) => (
                    TokenizerState::Number(push_digit(value, system, d), system),
                    Ok(None),
                ),
                None => {
                    if is_whitespace(c) {
                        if value > 255 {
                            (
                                TokenizerState::Number(value, system),
                                Err(TokenizerError::NumberOutOfRange(system, value)),
                            )
                        } else {
                            (TokenizerState::Init, Ok(Some(Token::Number(value as u8))))
                        }
                    } else {
                        (
                            TokenizerState::Number(value, system),
                            Err(TokenizerError::InvalidCharacter(c)),
                        )
                    }
                },
            },
            TokenizerState::Word(word) => {
                if is_whitespace(c) {
                    (TokenizerState::Init, Ok(Some(word.into_token())))
                } else {
                    let mut word = word;
                    word.push(c);
                    (TokenizerState::Word(word), Ok(None))
                }
            },
        }
    }
}

/// The token that a step completed, at the place `start` where it began.
pub open spec fn completed(start: Localized<()>, token: Option<TokenView>) -> Seq<
    ItemView<TokenView>,
> {
    match token {
        Some(t) => seq![start.with(Ok::<TokenView, RingsErrorView>(t))],
        None => Seq::empty(),
    }
}

/// The `Newline` token that the end of a line gives, at the place `at` of
/// the character `c`, if `c` ends a line.
pub open spec fn line_end(at: Localized<()>, c: char) -> Seq<ItemView<TokenView>> {
    if c == '\n' {
        seq![at.with(Ok::<TokenView, RingsErrorView>(TokenView::Newline))]
    } else {
        Seq::empty()
    }
}

/// The tokens of the characters `chars`, read from the state `state`. A
/// token stands at the place of its first character; `last` is the place
/// where the token that is being read began.
///
/// An error among the characters is handed on at its place, and an error of
/// the tokenizer stands where the token began; either ends the sequence. A
/// newline gives a `Newline` token at its own place, after the token that
/// it completes. Characters that end in the middle of a token leave it
/// unfinished.
pub open spec fn tokens_from(state: LexState, last: Localized<()>, chars: Seq<ItemView<char>>)
    -> Seq<ItemView<TokenView>>
    decreases chars.len(),
{
    if chars.len() == 0 {
        if state is Init {
            Seq::empty()
        } else {
            seq![
                last.with(
                    Err::<TokenView, RingsErrorView>(
                        RingsErrorView::Tokenizer(TokenizerError::UnfinishedToken),
                    ),
                ),
            ]
        }
    } else {
        match chars[0].value {
            Err(e) => seq![chars[0].with(Err::<TokenView, RingsErrorView>(e))],
            Ok(c) => {
                let start = if state is Init {
                    chars[0].with(())
                } else {
                    last
                };
                match lex(state, c) {
                    Err(e) => seq![
                        start.with(Err::<TokenView, RingsErrorView>(RingsErrorView::Tokenizer(e))),
                    ],
                    Ok((next, token)) => completed(start, token) + line_end(chars[0].with(()), c)
                        + tokens_from(next, start, chars.skip(1)),
                }
            },
        }
    }
}

/// The tokenizer yields nothing after an error, whether the error is its
/// own or one among the characters.
pub proof fn lemma_tokens_stop_at_failure(
    state: LexState,
    last: Localized<()>,
    chars: Seq<ItemView<char>>,
)
    ensures
        stops_at_failure(tokens_from(state, last, chars)),
    decreases chars.len(),
{
    if chars.len() > 0 {
        match chars[0].value {
            Ok(c) => {
                let start = if state is Init {
                    chars[0].with(())
                } else {
                    last
                };
                match lex(state, c) {
                    Ok((next, token)) => {
                        lemma_tokens_stop_at_failure(next, start, chars.skip(1));
                        lemma_successes_before(
                            completed(start, token) + line_end(chars[0].with(()), c),
                            tokens_from(next, start, chars.skip(1)),
                        );
                    },
                    Err(_) => {},
                }
            },
            Err(_) => {},
        }
    }
}

/// The tokens of a whole sequence of characters.
pub open spec fn tokenize(chars: Seq<ItemView<char>>) -> Seq<ItemView<TokenView>> {
    tokens_from(LexState::Init, Localized { line_number: 1, char_number: 1, value: () }, chars)
}

/// The element that is held back for the next call, as a sequence.
pub open spec fn held<T: View>(carry: Option<Item<T>>) -> Seq<ItemView<T::V>> {
    match carry {
        Some(item) => seq![item_view(item)],
        None => Seq::empty(),
    }
}

/// A tokenizer over a stream of characters. It yields the tokens one by
/// one, each with the position where it began.
pub struct Tokenizer<I> {
    state: TokenizerState,
    carry: Option<Item<Token>>,
    last_location: Localized<()>,
    src: I,
    done: bool,
}

impl<I: Stream<char>> Tokenizer<I> {
    /// A tokenizer at the start of the characters `src`.
    pub fn new(src: I) -> (r: Self)
        requires
            src.wf(),
        ensures
            r.wf(),
            r.remaining() == tokenize(src.remaining()),
    {
        let r = Self {
            state: TokenizerState::Init,
            carry: None,
            src,
            done: false,
            last_location: Localized::new(()),
        };
        assert(r.remaining() =~= tokenize(src.remaining()));
        r
    }

    /// Takes the character `c` into the token that is being read, and
    /// returns the token that `c` completes, if any.
    fn consume(&mut self, c: char) -> (r: Result<Option<Token>, TokenizerError>)
        requires
            old(self).wf(),
        ensures
            final(self).wf(),
            final(self).carry == old(self).carry,
            final(self).last_location == old(self).last_location,
            final(self).src == old(self).src,
            final(self).done == old(self).done,
            match lex(old(self).state@, c) {
                Ok((state, token)) => final(self).state@ == state && step_view(r) == Ok::<
                    Option<TokenView>,
                    TokenizerError,
                >(token),
                Err(e) => final(self).state@ == old(self).state@ && r == Err::<
                    Option<Token>,
                    TokenizerError,
                >(e),
            },
    {
        let mut state = TokenizerState::Init;
        core::mem::swap(&mut self.state, &mut state);
        let (next, result) = state.step(c);
        self.state = next;
        result
    }
}

impl<I: Stream<char>> Stream<Token> for Tokenizer<I> {
    closed spec fn wf(&self) -> bool {
        self.src.wf() && self.state.wf()
    }

    closed spec fn remaining(&self) -> Seq<ItemView<TokenView>> {
        held(self.carry) + if self.done {
            Seq::empty()
        } else {
            tokens_from(self.state@, self.last_location, self.src.remaining())
        }
    }

    fn next(&mut self) -> (r: Option<Item<Token>>) {
        let ghost before = self.remaining();
        let carry = self.carry.take();
        if carry.is_some() {
            proof {
                assert(self.remaining() =~= before.skip(1));
            }
            return carry;
        }
        if self.done {
            return None;
        }
        loop
            invariant
                self.wf(),
                self.carry is None,
                !self.done,
                before == old(self).remaining(),
                before == tokens_from(self.state@, self.last_location, self.src.remaining()),
            decreases self.src.remaining().len(),
        {
            let ghost chars = self.src.remaining();
            let localized = match self.src.next() {
                None => {
                    self.done = true;
                    let finished = match self.state {
                        TokenizerState::Init => true,
                        _ => false,
                    };
                    if finished {
                        return None;
                    }
                    let item = self.last_location.transform(
                        Err(RingsError::Tokenizer(TokenizerError::UnfinishedToken)),
                    );
                    proof {
                        assert(self.remaining() =~= before.skip(1));
                    }
                    return Some(item);
                },
                Some(loc) => match loc.branch() {
                    Err(failure) => {
                        self.done = true;
                        let item = Localized::from_residual(failure);
                        proof {
                            assert(self.remaining() =~= before.skip(1));
                        }
                        return Some(item);
                    },
                    Ok(v) => v,
                },
            };
            let c = localized.value;
            let at_start = match self.state {
                TokenizerState::Init => true,
                _ => false,
            };
            if at_start {
                self.last_location = localized.transform(());
            }
            let ghost rest = tokens_from(
                match lex(self.state@, c) {
                    Ok((next, _)) => next,
                    Err(_) => self.state@,
                },
                self.last_location,
                chars.skip(1),
            );
            match self.consume(c) {
                Ok(Some(token)) => {
                    let item = self.last_location.transform(Ok(token));
                    if c == '\n' {
                        self.carry = Some(localized.transform(Ok(Token::Newline)));
                    }
                    proof {
                        assert(before =~= seq![item_view(item)] + line_end(localized.with(()), c)
                            + rest);
                        assert(self.remaining() =~= before.skip(1));
                    }
                    return Some(item);
                },
                Ok(None) => {
                    if c == '\n' {
                        let item = localized.transform(Ok(Token::Newline));
                        proof {
                            assert(before =~= seq![item_view(item)] + rest);
                            assert(self.remaining() =~= before.skip(1));
                        }
                        return Some(item);
                    }
                    proof {
                        assert(before =~= rest);
                    }
                },
                Err(e) => {
                    self.done = true;
                    let item = self.last_location.transform(Err(RingsError::Tokenizer(e)));
                    proof {
                        assert(self.remaining() =~= before.skip(1));
                    }
                    return Some(item);
                },
            }
        }
    }
}

} // verus!
