use rings::build::chars::{CharIterator, CharacterReaderError};
use rings::build::stream::Stream;
use rings::error::RingsError;
use rings::Localized;

fn at<V>(line: usize, column: usize, value: V) -> Localized<V> {
    Localized { line_number: line, char_number: column, value }
}

fn all(mut source: CharIterator) -> Vec<Localized<Result<char, RingsError>>> {
    let mut items = Vec::new();
    while let Some(item) = source.next() {
        items.push(item);
    }
    assert!(source.next().is_none());
    items
}

#[test]
fn characters_carry_line_and_column() {
    let items = all(CharIterator::new(b"a\nb".to_vec()));
    assert_eq!(
        items,
        vec![at(1, 1, Ok('a')), at(1, 2, Ok('\n')), at(2, 1, Ok('b')), at(2, 2, Ok('\n'))]
    );
}

#[test]
fn empty_source_yields_one_newline() {
    assert_eq!(all(CharIterator::new(Vec::new())), vec![at(1, 1, Ok('\n'))]);
}

#[test]
fn source_with_trailing_newline_still_gets_the_closing_one() {
    let items = all(CharIterator::new(b"x\n".to_vec()));
    assert_eq!(items, vec![at(1, 1, Ok('x')), at(1, 2, Ok('\n')), at(2, 1, Ok('\n'))]);
}

#[test]
fn multi_byte_characters_are_decoded() {
    let items = all(CharIterator::new("\u{E9}\u{20AC}\u{1F600}".as_bytes().to_vec()));
    assert_eq!(
        items,
        vec![
            at(1, 1, Ok('\u{E9}')),
            at(1, 2, Ok('\u{20AC}')),
            at(1, 3, Ok('\u{1F600}')),
            at(1, 4, Ok('\n')),
        ]
    );
}

#[test]
fn read_char_decodes_each_width() {
    let mut source = CharIterator::new(vec![0x41, 0xC3, 0xA9, 0xE2, 0x82, 0xAC, 0xF0, 0x9F, 0x98, 0x80]);
    assert_eq!(source.read_char(), Some(Ok('A')));
    assert_eq!(source.read_char(), Some(Ok('\u{E9}')));
    assert_eq!(source.read_char(), Some(Ok('\u{20AC}')));
    assert_eq!(source.read_char(), Some(Ok('\u{1F600}')));
    assert_eq!(source.read_char(), None);
}

#[test]
fn codepoint_length_follows_the_leading_byte() {
    assert_eq!(CharIterator::get_codepoint_length(0x00), 1);
    assert_eq!(CharIterator::get_codepoint_length(0x7F), 1);
    assert_eq!(CharIterator::get_codepoint_length(0x80), 2);
    assert_eq!(CharIterator::get_codepoint_length(0xDF), 2);
    assert_eq!(CharIterator::get_codepoint_length(0xE0), 3);
    assert_eq!(CharIterator::get_codepoint_length(0xEF), 3);
    assert_eq!(CharIterator::get_codepoint_length(0xF0), 4);
    assert_eq!(CharIterator::get_codepoint_length(0xFF), 4);
}

#[test]
fn only_the_low_bits_of_each_byte_count() {
    let mut source = CharIterator::new(vec![0x80, 0x41]);
    assert_eq!(source.read_char(), Some(Ok('\u{1}')));
}

#[test]
fn source_that_ends_inside_a_character_is_incomplete() {
    let items = all(CharIterator::new(vec![b'a', 0xE2, 0x82]));
    assert_eq!(
        items,
        vec![
            at(1, 1, Ok('a')),
            at(1, 2, Err(RingsError::CharacterRead(CharacterReaderError::IncompleteCharacter))),
        ]
    );
}

#[test]
fn surrogate_is_no_character() {
    let items = all(CharIterator::new(vec![0xED, 0xA0, 0x80, b'a']));
    assert_eq!(
        items,
        vec![at(1, 1, Err(RingsError::CharacterRead(CharacterReaderError::InvalidCharacter(0xD800))))]
    );
}

#[test]
fn number_above_the_last_scalar_value_is_no_character() {
    let mut source = CharIterator::new(vec![0xF7, 0xBF, 0xBF, 0xBF, b'a']);
    assert_eq!(
        source.read_char(),
        Some(Err(CharacterReaderError::InvalidCharacter(0x1F_FFFF)))
    );
    assert_eq!(source.read_char(), Some(Ok('a')));
}

#[test]
fn failure_of_the_reader_is_handed_on_where_it_happened() {
    let items = all(CharIterator::failing(b"a\nb".to_vec(), String::from("disk gone")));
    assert_eq!(
        items,
        vec![
            at(1, 1, Ok('a')),
            at(1, 2, Ok('\n')),
            at(2, 1, Ok('b')),
            at(
                2,
                2,
                Err(RingsError::CharacterRead(CharacterReaderError::IoError(String::from(
                    "disk gone"
                ))))
            ),
        ]
    );
}

#[test]
fn failure_inside_a_character_wins_over_incompleteness() {
    let mut source = CharIterator::failing(vec![0xE2, 0x82], String::from("cut"));
    assert_eq!(
        source.read_char(),
        Some(Err(CharacterReaderError::IoError(String::from("cut"))))
    );
}
