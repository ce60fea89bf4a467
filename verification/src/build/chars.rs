//! Decoding the source bytes into characters, each with its position.

use crate::build::stream::{
    lemma_successes_before, stops_at_failure, Item, ItemView, Stream,
};
use crate::error::{RingsError, RingsErrorView};
use crate::Localized;
use vstd::prelude::*;

verus! {

/// Why the next character could not be read.
#[derive(Clone, Debug, PartialEq, Eq)]
pub enum CharacterReaderError {
    /// Reading the source failed; the payload is the reader's message.
    IoError(String),
    /// The source ended in the middle of a character.
    IncompleteCharacter,
    /// The bytes encode this number, which is no Unicode scalar value.
    InvalidCharacter(u32),
}

/// A [`CharacterReaderError`] as contracts see it.
pub enum CharacterReaderErrorView {
    IoError(Seq<char>),
    IncompleteCharacter,
    InvalidCharacter(u32),
}

impl View for CharacterReaderError {
    type V = CharacterReaderErrorView;

    open spec fn view(&self) -> CharacterReaderErrorView {
        match self {
            CharacterReaderError::IoError(m) => CharacterReaderErrorView::IoError(m@),
            CharacterReaderError::IncompleteCharacter => CharacterReaderErrorView::IncompleteCharacter,
            CharacterReaderError::InvalidCharacter(c) => CharacterReaderErrorView::InvalidCharacter(
                *c,
            ),
        }
    }
}

/// The outside function `char::from_u32` turns a number into the character
/// with that code: it gives the character exactly when the number is a
/// Unicode scalar value (0 to 0x10FFFF without the surrogates 0xD800 to
/// 0xDFFF), and `None` otherwise.
pub assume_specification[ char::from_u32 ](i: u32) -> (r: Option<char>)
    ensures
        r == if vstd::utf8::is_scalar(i) {
            Some(i as char)
        } else {
            None::<char>
        },
;

/// How many bytes the character takes whose first byte is `byte`. Only the
/// high bits of the first byte decide.
pub open spec fn codepoint_length(byte: u8) -> int {
    if byte < 0x80 {
        1
    } else if byte < 0xE0 {
        2
    } else if byte < 0xF0 {
        3
    } else {
        4
    }
}

/// The number that the bytes from `at` encode: the low bits of the first
/// byte, then six bits of each byte that follows, most significant first.
pub open spec fn codepoint_at(bytes: Seq<u8>, at: int) -> u32 {
    let length = codepoint_length(bytes[at]);
    if length == 1 {
        vstd::utf8::codepoint_width_1(bytes[at])
    } else if length == 2 {
        vstd::utf8::codepoint_width_2(bytes[at], bytes[at + 1])
    } else if length == 3 {
        vstd::utf8::codepoint_width_3(bytes[at], bytes[at + 1], bytes[at + 2])
    } else {
        vstd::utf8::codepoint_width_4(bytes[at], bytes[at + 1], bytes[at + 2], bytes[at + 3])
    }
}

/// What reading one character gives, and the offset reading goes on from.
pub struct Reading {
    pub result: Option<Result<char, CharacterReaderErrorView>>,
    pub next: int,
}

/// What the source is out of bytes with: the failure of the reader, if it
/// has one, and else `otherwise`.
pub open spec fn exhausted(
    failure: Option<Seq<char>>,
    otherwise: Option<Result<char, CharacterReaderErrorView>>,
) -> Option<Result<char, CharacterReaderErrorView>> {
    match failure {
        Some(message) => Some(Err(CharacterReaderErrorView::IoError(message))),
        None => otherwise,
    }
}

/// Reads one character from offset `at` of a source that holds `bytes` and
/// then ends, with the failure `failure` if there is one.
///
/// At the end of the bytes there is nothing to read. A character that the
/// bytes end in the middle of is incomplete. A number that is no Unicode
/// scalar value is reported with its bytes consumed.
pub open spec fn read_at(bytes: Seq<u8>, failure: Option<Seq<char>>, at: int) -> Reading {
    if at >= bytes.len() {
        Reading { result: exhausted(failure, None), next: at }
    } else if at + codepoint_length(bytes[at]) > bytes.len() {
        Reading {
            result: exhausted(failure, Some(Err(CharacterReaderErrorView::IncompleteCharacter))),
            next: bytes.len() as int,
        }
    } else if vstd::utf8::is_scalar(codepoint_at(bytes, at)) {
        Reading {
            result: Some(Ok(codepoint_at(bytes, at) as char)),
            next: at + codepoint_length(bytes[at]),
        }
    } else {
        Reading {
            result: Some(Err(CharacterReaderErrorView::InvalidCharacter(codepoint_at(bytes, at)))),
            next: at + codepoint_length(bytes[at]),
        }
    }
}

/// The position after the character `c` at `position`: a newline leads to
/// the first column of the next line, any other character to the next
/// column.
pub open spec fn advance(position: Localized<()>, c: char) -> Localized<()> {
    if c == '\n' {
        Localized { line_number: (position.line_number + 1) as usize, char_number: 1, value: () }
    } else {
        Localized {
            line_number: position.line_number,
            char_number: (position.char_number + 1) as usize,
            value: (),
        }
    }
}

/// The characters from offset `at` on, the first of them at `position`. The
/// first error ends the sequence. After the last character comes one more
/// newline, so that the last line is closed whether the source closes it or
/// not.
pub open spec fn chars_from(
    bytes: Seq<u8>,
    failure: Option<Seq<char>>,
    at: int,
    position: Localized<()>,
) -> Seq<ItemView<char>>
    decreases bytes.len() - at,
{
    let reading = read_at(bytes, failure, at);
    match reading.result {
        None => seq![position.with(Ok::<char, RingsErrorView>('\n'))],
        Some(Err(e)) => seq![
            position.with(Err::<char, RingsErrorView>(RingsErrorView::CharacterRead(e))),
        ],
        Some(Ok(c)) => seq![position.with(Ok::<char, RingsErrorView>(c))] + chars_from(
            bytes,
            failure,
            reading.next,
            advance(position, c),
        ),
    }
}

/// All the characters of a source, with their positions.
pub open spec fn decode(bytes: Seq<u8>, failure: Option<Seq<char>>) -> Seq<ItemView<char>> {
    chars_from(bytes, failure, 0, Localized { line_number: 1, char_number: 1, value: () })
}

/// The decoder yields nothing after an error.
pub proof fn lemma_chars_stop_at_failure(
    bytes: Seq<u8>,
    failure: Option<Seq<char>>,
    at: int,
    position: Localized<()>,
)
    ensures
        stops_at_failure(chars_from(bytes, failure, at, position)),
        chars_from(bytes, failure, at, position).len() >= 1,
    decreases bytes.len() - at,
{
    let reading = read_at(bytes, failure, at);
    match reading.result {
        Some(Ok(c)) => {
            lemma_chars_stop_at_failure(bytes, failure, reading.next, advance(position, c));
            lemma_successes_before(
                seq![position.with(Ok::<char, RingsErrorView>(c))],
                chars_from(bytes, failure, reading.next, advance(position, c)),
            );
        },
        _ => {},
    }
}

/// Scanning only moves forward: a newline leads to the first column of a
/// later line, any other character to a later column of the same line.
pub proof fn lemma_position_moves_forward(position: Localized<()>, c: char)
    requires
        position.line_number < usize::MAX,
        position.char_number < usize::MAX,
    ensures
        advance(position, c).line_number > position.line_number || (advance(
            position,
            c,
        ).line_number == position.line_number && advance(position, c).char_number
            > position.char_number),
        position.wf() ==> advance(position, c).wf(),
        c == '\n' ==> advance(position, c).char_number == 1,
{
}

/// The view of what a read gave.
pub open spec fn reading_view(r: Option<Result<char, CharacterReaderError>>) -> Option<
    Result<char, CharacterReaderErrorView>,
> {
    match r {
        None => None,
        Some(Ok(c)) => Some(Ok(c)),
        Some(Err(e)) => Some(Err(e@)),
    }
}

/// A decoder over the bytes of a source. It yields the characters one by
/// one, each with its line and column.
pub struct CharIterator {
    bytes: Vec<u8>,
    failure: Option<String>,
    offset: usize,
    location: Localized<()>,
    done: bool,
}

impl CharIterator {
    /// The bytes of the source.
    pub closed spec fn source(&self) -> Seq<u8> {
        self.bytes@
    }

    /// The message of the failure that the source ends with, if any.
    pub closed spec fn failure(&self) -> Option<Seq<char>> {
        match self.failure {
            Some(m) => Some(m@),
            None => None,
        }
    }

    /// The offset of the next byte to read.
    pub closed spec fn offset(&self) -> int {
        self.offset as int
    }

    /// The position of the next character.
    pub closed spec fn position(&self) -> Localized<()> {
        self.location
    }

    /// The decoder has yielded its last element.
    pub closed spec fn finished(&self) -> bool {
        self.done
    }

    /// The offset is within the source, whose length leaves room to count
    /// one past it, and no coordinate is ahead of the offset.
    pub closed spec fn valid(&self) -> bool {
        &&& self.offset <= self.bytes.len() < usize::MAX
        &&& 1 <= self.location.line_number <= self.offset + 1
        &&& 1 <= self.location.char_number <= self.offset + 1
    }

    /// A decoder at the start of a source that holds `bytes` and then ends.
    pub fn new(bytes: Vec<u8>) -> (r: Self)
        requires
            bytes.len() < usize::MAX,
        ensures
            r.wf(),
            r.source() == bytes@,
            r.failure() is None,
            r.offset() == 0,
            r.remaining() == decode(bytes@, None),
    {
        Self { bytes, failure: None, offset: 0, location: Localized::new(()), done: false }
    }

    /// A decoder at the start of a source that holds `bytes` and then fails
    /// with `message`.
    pub fn failing(bytes: Vec<u8>, message: String) -> (r: Self)
        requires
            bytes.len() < usize::MAX,
        ensures
            r.wf(),
            r.source() == bytes@,
            r.failure() == Some(message@),
            r.offset() == 0,
            r.remaining() == decode(bytes@, Some(message@)),
    {
        Self {
            bytes,
            failure: Some(message),
            offset: 0,
            location: Localized::new(()),
            done: false,
        }
    }

    /// The next byte; `None` at the end of a source that ends cleanly.
    fn read_byte(&mut self) -> (r: Option<Result<u8, CharacterReaderError>>)
        requires
            old(self).valid(),
        ensures
            final(self).valid(),
            final(self).bytes == old(self).bytes,
            final(self).failure == old(self).failure,
            final(self).location == old(self).location,
            final(self).done == old(self).done,
            old(self).offset < old(self).bytes.len() ==> r == Some(
                Ok::<u8, CharacterReaderError>(old(self).bytes[old(self).offset as int]),
            ) && final(self).offset == old(self).offset + 1,
            old(self).offset >= old(self).bytes.len() ==> final(self).offset == old(self).offset
                && match r {
                None => old(self).failure() is None,
                Some(Ok(_)) => false,
                Some(Err(e)) => old(self).failure() is Some && e@
                    == CharacterReaderErrorView::IoError(old(self).failure()->Some_0),
            },
    {
        if self.offset < self.bytes.len() {
            let byte = self.bytes[self.offset];
            self.offset += 1;
            Some(Ok(byte))
        } else {
            match &self.failure {
                Some(message) => Some(Err(CharacterReaderError::IoError(message.clone()))),
                None => None,
            }
        }
    }

    /// A byte that continues a character: here the end of the source is an
    /// error.
    fn read_continuation(&mut self) -> (r: Result<u8, CharacterReaderError>)
        requires
            old(self).valid(),
        ensures
            final(self).valid(),
            final(self).bytes == old(self).bytes,
            final(self).failure == old(self).failure,
            final(self).location == old(self).location,
            final(self).done == old(self).done,
            old(self).offset < old(self).bytes.len() ==> r == Ok::<u8, CharacterReaderError>(
                old(self).bytes[old(self).offset as int],
            ) && final(self).offset == old(self).offset + 1,
            old(self).offset >= old(self).bytes.len() ==> final(self).offset == old(self).offset
                && r is Err && Some(Err::<char, CharacterReaderErrorView>(r->Err_0@)) == exhausted(
                old(self).failure(),
                Some(Err(CharacterReaderErrorView::IncompleteCharacter)),
            ),
    {
        match self.read_byte() {
            Some(Ok(v)) => Ok(v),
            Some(Err(e)) => Err(e),
            None => Err(CharacterReaderError::IncompleteCharacter),
        }
    }

    /// How many bytes the character takes whose first byte is `byte`.
    pub fn get_codepoint_length(byte: u8) -> (r: u8)
        ensures
            r as int == codepoint_length(byte),
            1 <= r <= 4,
    {
        if byte < 0x80 {
            1
        } else if byte < 0xE0 {
            2
        } else if byte < 0xF0 {
            3
        } else {
            4
        }
    }

    /// Reads one character from the source. `None` at the end of a source
    /// that ends cleanly.
    pub fn read_char(&mut self) -> (r: Option<Result<char, CharacterReaderError>>)
        requires
            old(self).wf(),
        ensures
            final(self).wf(),
            final(self).source() == old(self).source(),
            final(self).failure() == old(self).failure(),
            final(self).position() == old(self).position(),
            final(self).finished() == old(self).finished(),
            reading_view(r) == read_at(
                old(self).source(),
                old(self).failure(),
                old(self).offset(),
            ).result,
            final(self).offset() == read_at(
                old(self).source(),
                old(self).failure(),
                old(self).offset(),
            ).next,
    {
        let first = match self.read_byte() {
            None => {
                return None;
            },
            Some(Ok(v)) => v,
            Some(Err(e)) => {
                return Some(Err(e));
            },
        };
        let length = Self::get_codepoint_length(first);
        let codepoint: u32 = if length == 1 {
            (first & 0x7F) as u32
        } else {
            let second = match self.read_continuation() {
                Ok(v) => v,
                Err(e) => {
                    return Some(Err(e));
                },
            };
            if length == 2 {
                (((first & 0x1F) as u32) << 6) | ((second & 0x3F) as u32)
            } else {
                let third = match self.read_continuation() {
                    Ok(v) => v,
                    Err(e) => {
                        return Some(Err(e));
                    },
                };
                if length == 3 {
                    (((first & 0x0F) as u32) << 12) | (((second & 0x3F) as u32) << 6) | ((third
                        & 0x3F) as u32)
                } else {
                    let fourth = match self.read_continuation() {
                        Ok(v) => v,
                        Err(e) => {
                            return Some(Err(e));
                        },
                    };
                    (((first & 0x07) as u32) << 18) | (((second & 0x3F) as u32) << 12) | (((third
                        & 0x3F) as u32) << 6) | ((fourth & 0x3F) as u32)
                }
            }
        };
        match char::from_u32(codepoint) {
            Some(c) => Some(Ok(c)),
            None => Some(Err(CharacterReaderError::InvalidCharacter(codepoint))),
        }
    }
}

impl Stream<char> for CharIterator {
    open spec fn wf(&self) -> bool {
        self.valid()
    }

    open spec fn remaining(&self) -> Seq<ItemView<char>> {
        if self.finished() {
            Seq::empty()
        } else {
            chars_from(self.source(), self.failure(), self.offset(), self.position())
        }
    }

    fn next(&mut self) -> (r: Option<Item<char>>) {
        if self.done {
            return None;
        }
        let ghost before = self.remaining();
        let ghost start = self.location;
        match self.read_char() {
            None => {
                self.done = true;
                let item = self.location.transform(Ok('\n'));
                proof {
                    assert(before.skip(1) =~= Seq::empty());
                }
                Some(item)
            },
            Some(Ok(c)) => {
                let item = self.location.transform(Ok(c));
                if c == '\n' {
                    self.location.new_line();
                } else {
                    self.location.inc_char();
                }
                proof {
                    assert(self.location == advance(start, c));
                    assert(before.skip(1) =~= self.remaining());
                }
                Some(item)
            },
            Some(Err(e)) => {
                self.done = true;
                let item = self.location.transform(Err(RingsError::CharacterRead(e)));
                proof {
                    assert(before.skip(1) =~= Seq::empty());
                }
                Some(item)
            },
        }
    }
}

} // verus!
