use mini_parc::inputs::{characters, Input};

#[test]
fn test_offset() {
    let input = Input::new(3, 12, "hello there!".to_string());
    let input = input.char_offset(4);
    assert_eq!(input.line, 3);
    assert_eq!(input.col, 16);
    assert_eq!(input.source, "o there!".to_string());
}

#[test]
fn offset_by_nothing_keeps_the_input() {
    let input = Input::new(1, 2, "abc".to_string()).char_offset(0);
    assert_eq!(input.line, 1);
    assert_eq!(input.col, 2);
    assert_eq!(input.source, "abc".to_string());
}

#[test]
fn offset_past_the_end_empties_the_text() {
    let input = Input::new(0, 5, "abc".to_string()).char_offset(7);
    assert_eq!(input.line, 0);
    assert_eq!(input.col, 12);
    assert_eq!(input.source, String::new());
}

#[test]
fn offset_counts_characters_not_bytes() {
    let input = Input::new(0, 0, "héllo".to_string()).char_offset(2);
    assert_eq!(input.col, 2);
    assert_eq!(input.source, "llo".to_string());
}

#[test]
fn text_converts_to_input_at_origin() {
    let from_str: Input = "some text".into();
    assert_eq!(from_str.line, 0);
    assert_eq!(from_str.col, 0);
    assert_eq!(from_str.source, "some text".to_string());

    let from_string: Input = String::from("other").into();
    assert_eq!(from_string.line, 0);
    assert_eq!(from_string.col, 0);
    assert_eq!(from_string.source, "other".to_string());
}

#[test]
fn clone_keeps_every_field() {
    let input = Input::new(4, 9, "xyz".to_string());
    let copy = input.clone();
    assert_eq!(copy.line, 4);
    assert_eq!(copy.col, 9);
    assert_eq!(copy.source, input.source);
}

#[test]
fn characters_come_in_order() {
    assert_eq!(characters("aé\"b"), vec!['a', 'é', '"', 'b']);
    assert_eq!(characters(""), Vec::<char>::new());
}
