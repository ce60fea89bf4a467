use rings::{Localized, MaybeLocalized, NumberSystem};

fn at<V>(line: usize, column: usize, value: V) -> Localized<V> {
    Localized { line_number: line, char_number: column, value }
}

#[test]
fn new_value_sits_at_line_one_column_one() {
    let l = Localized::new('x');
    assert_eq!(l, at(1, 1, 'x'));
}

#[test]
fn transform_keeps_the_position() {
    let l = at(7, 3, "old");
    assert_eq!(l.transform(42u8), at(7, 3, 42u8));
}

#[test]
fn cut_splits_position_and_value() {
    let (place, value) = at(4, 9, String::from("v")).cut();
    assert_eq!(place, at(4, 9, ()));
    assert_eq!(value, "v");
}

#[test]
fn inc_char_moves_one_column() {
    let mut l = at(2, 5, ());
    l.inc_char();
    assert_eq!(l, at(2, 6, ()));
}

#[test]
fn new_line_resets_the_column() {
    let mut l = at(2, 5, ());
    l.new_line();
    assert_eq!(l, at(3, 1, ()));
}

#[test]
fn map_applies_the_function_in_place() {
    let l = at(3, 4, 20u8).map(|v| u16::from(v) * 20);
    assert_eq!(l, at(3, 4, 400u16));
}

#[test]
fn unwrap_drops_the_position() {
    assert_eq!(at(9, 9, 5u8).unwrap(), 5);
}

#[test]
fn into_err_and_into_ok_pick_their_side() {
    let good: Localized<Result<u8, char>> = at(1, 2, Ok(3));
    let bad: Localized<Result<u8, char>> = at(5, 6, Err('e'));
    assert_eq!(good.clone().into_ok(), Some(at(1, 2, 3u8)));
    assert_eq!(good.into_err(), None);
    assert_eq!(bad.clone().into_ok(), None);
    assert_eq!(bad.into_err(), Some(at(5, 6, 'e')));
}

#[test]
fn branch_keeps_the_position_of_a_failure() {
    let bad: Localized<Result<u8, char>> = at(5, 6, Err('e'));
    assert_eq!(bad.branch(), Err(at(5, 6, 'e')));
    let good: Localized<Result<u8, char>> = at(8, 1, Ok(1));
    assert_eq!(good.branch(), Ok(at(8, 1, 1u8)));
}

#[test]
fn residual_and_output_wrap_at_the_same_place() {
    let failure: Localized<Result<u8, char>> = Localized::from_residual(at(3, 3, 'e'));
    assert_eq!(failure, at(3, 3, Err('e')));
    let success: Localized<Result<u8, char>> = Localized::from_output(at(3, 4, 8u8));
    assert_eq!(success, at(3, 4, Ok(8)));
}

#[test]
fn maybe_localized_unwrap_gives_the_value_of_either_variant() {
    assert_eq!(MaybeLocalized::General(4u8).unwrap(), 4);
    assert_eq!(MaybeLocalized::Localized(at(2, 2, 6u8)).unwrap(), 6);
    assert_eq!(*MaybeLocalized::Localized(at(2, 2, 6u8)).value_of(), 6);
}

#[test]
fn maybe_localized_cut_and_transform_keep_the_variant() {
    let (place, value) = MaybeLocalized::Localized(at(2, 3, 'q')).cut();
    assert_eq!(place, MaybeLocalized::Localized(at(2, 3, ())));
    assert_eq!(value, 'q');
    let (place, value) = MaybeLocalized::General('q').cut();
    assert_eq!(place, MaybeLocalized::General(()));
    assert_eq!(value, 'q');
    assert_eq!(
        MaybeLocalized::Localized(at(2, 3, 'q')).transform(1u8),
        MaybeLocalized::Localized(at(2, 3, 1u8))
    );
    assert_eq!(MaybeLocalized::General('q').transform(1u8), MaybeLocalized::General(1u8));
}

#[test]
fn maybe_localized_map_keeps_the_variant() {
    assert_eq!(
        MaybeLocalized::Localized(at(2, 3, 2u8)).map(|v| v + 1),
        MaybeLocalized::Localized(at(2, 3, 3u8))
    );
    assert_eq!(MaybeLocalized::General(2u8).map(|v| v + 1), MaybeLocalized::General(3u8));
}

#[test]
fn maybe_localized_into_err_and_into_ok() {
    let bad: MaybeLocalized<Result<u8, char>> = MaybeLocalized::Localized(at(5, 6, Err('e')));
    assert_eq!(bad.clone().into_err(), Some(MaybeLocalized::Localized(at(5, 6, 'e'))));
    assert_eq!(bad.into_ok(), None);
    let good: MaybeLocalized<Result<u8, char>> = MaybeLocalized::General(Ok(1));
    assert_eq!(good.clone().into_ok(), Some(MaybeLocalized::General(1u8)));
    assert_eq!(good.into_err(), None);
}

#[test]
fn maybe_localized_branch_and_wrappers() {
    let bad: MaybeLocalized<Result<u8, char>> = MaybeLocalized::General(Err('e'));
    assert_eq!(bad.branch(), Err(MaybeLocalized::General('e')));
    let good: MaybeLocalized<Result<u8, char>> = MaybeLocalized::Localized(at(1, 9, Ok(1)));
    assert_eq!(good.branch(), Ok(MaybeLocalized::Localized(at(1, 9, 1u8))));
    let failure: MaybeLocalized<Result<u8, char>> =
        MaybeLocalized::from_residual(MaybeLocalized::Localized(at(3, 3, 'e')));
    assert_eq!(failure, MaybeLocalized::Localized(at(3, 3, Err('e'))));
    let success: MaybeLocalized<Result<u8, char>> =
        MaybeLocalized::from_output(MaybeLocalized::General(8u8));
    assert_eq!(success, MaybeLocalized::General(Ok(8)));
}

#[test]
fn default_number_system_is_unknown() {
    assert_eq!(NumberSystem::default(), NumberSystem::Unknown);
}
