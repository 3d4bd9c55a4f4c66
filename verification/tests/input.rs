use nablo_ui::layout::LayoutId;
use nablo_ui::math::rect::Rect;
use nablo_ui::math::vec2::Vec2;
use nablo_ui::widgets::floating_container::{Anchor, FloatPostion};
use nablo_ui::widgets::inputbox::{
    chars_of, convert_index, convert_range, is_float_literal, is_word_spliter, lines_of, NumerValidation, Pointer,
    PointerAmount, SimpleValidator, Validator, ValidatorResult,
};
use nablo_ui::window::event::Key;
use nablo_ui::window::input_state::{ImeString, Modifiers};

fn state(p: &Pointer) -> (usize, usize, bool) {
    (p.start(), p.end(), p.is_start_current())
}

fn selection(start: usize, end: usize) -> Pointer {
    let mut p = Pointer::new(start);
    p.move_by("a very long text without any line feed at all", PointerAmount::Char((end - start) as isize), true);
    p
}

#[test]
fn keys_type_characters() {
    assert_eq!(Key::KeyA.get_char(false), Some('a'));
    assert_eq!(Key::KeyA.get_char(true), Some('A'));
    assert_eq!(Key::Key1.get_char(true), Some('!'));
    assert_eq!(Key::Key0.get_char(true), Some(')'));
    assert_eq!(Key::Num7.get_char(true), Some('7'));
    assert_eq!(Key::Enter.get_char(false), Some('\n'));
    assert_eq!(Key::Space.get_char(true), Some(' '));
    assert_eq!(Key::Backslash.get_char(true), Some('|'));
    assert_eq!(Key::Quote.get_char(false), Some('\''));
    assert_eq!(Key::Quote.get_char(true), Some('"'));
    assert_eq!(Key::Escape.get_char(false), None);
    assert_eq!(Key::Return.get_char(false), None);
    assert_eq!(Key::Unknown(5).get_char(true), None);
}

#[test]
fn ime_strings_can_be_empty() {
    assert!(ImeString::Nothing.is_empty());
    assert!(ImeString::ImeOff(String::new()).is_empty());
    assert!(!ImeString::ImeOff("a".to_string()).is_empty());
    assert!(ImeString::Ime { input: String::new(), selected: (0, 0) }.is_empty());
    assert!(!ImeString::Ime { input: "ni".to_string(), selected: (0, 2) }.is_empty());
    assert_eq!(Modifiers::default(), Modifiers { shift: false, ctrl: false, alt: false });
}

#[test]
fn positions_become_byte_indices() {
    assert_eq!(convert_index("héllo", 0), 0);
    assert_eq!(convert_index("héllo", 1), 1);
    assert_eq!(convert_index("héllo", 2), 3);
    assert_eq!(convert_index("héllo", 5), 6);
    assert_eq!(convert_index("héllo", 50), 6);
    assert_eq!(convert_range("héllo", 1, 2), 1..3);
    assert_eq!(convert_range("héllo", 0, 0), 0..0);
    assert_eq!(convert_range("héllo", 2, 5), 3..6);
    assert_eq!(chars_of("hé"), vec!['h', 'é']);
    let mut p = Pointer::new(2);
    assert_eq!(p.current_index("héllo"), 3);
    assert_eq!(p.current_index_utf8(), 2);
    p.move_to_end("héllo");
    assert_eq!(state(&p), (5, 5, true));
    assert_eq!(p.current_index("héllo"), 6);
    p.move_to_start();
    assert_eq!(state(&p), (0, 0, true));
    p.select_all("héllo");
    assert_eq!(state(&p), (0, 5, false));
    assert!(p.has_selected_text());
    assert_eq!(p.get_selected_text("héllo"), "héllo");
    assert_eq!(state(&Pointer::default()), (0, 0, false));
}

#[test]
fn the_cursor_moves_by_characters() {
    let mut p = Pointer::new(2);
    p.move_by("hello", PointerAmount::Char(1), false);
    assert_eq!(state(&p), (3, 3, false));
    p.move_by("hello", PointerAmount::Char(10), false);
    assert_eq!(state(&p), (5, 5, false));
    p.move_by("hello", PointerAmount::Char(-2), true);
    assert_eq!(state(&p), (3, 5, true));
    p.move_by("hello", PointerAmount::Char(-1), true);
    assert_eq!(state(&p), (2, 5, true));
    p.move_by("hello", PointerAmount::Char(4), true);
    assert_eq!(state(&p), (5, 5, false));
    p.move_by("hello", PointerAmount::Char(-9), true);
    assert_eq!(state(&p), (0, 0, false));
    let mut p = selection(1, 3);
    assert_eq!(state(&p), (1, 3, false));
    p.move_by("hello", PointerAmount::Char(-9), false);
    assert_eq!(state(&p), (0, 0, false));
    let mut p = Pointer::new(3);
    p.move_by("hello", PointerAmount::Char(-2), true);
    p.move_by("hello", PointerAmount::Char(-9), true);
    assert_eq!(state(&p), (0, 3, true));
}

#[test]
fn the_cursor_moves_by_words_and_lines() {
    let text = "one two,three\nfour";
    let mut p = Pointer::new(0);
    p.move_by(text, PointerAmount::Word(1), false);
    assert_eq!(state(&p), (4, 4, false));
    p.move_by(text, PointerAmount::Word(1), false);
    assert_eq!(state(&p), (8, 8, false));
    p.move_by(text, PointerAmount::Word(-1), false);
    assert_eq!(state(&p), (4, 4, false));
    p.move_by(text, PointerAmount::Word(-5), false);
    assert_eq!(state(&p), (0, 0, false));
    p.move_by(text, PointerAmount::Word(9), true);
    assert_eq!(state(&p), (0, 18, false));
    let mut p = Pointer::new(5);
    p.move_by(text, PointerAmount::Line(1), false);
    assert_eq!(state(&p), (14, 14, false));
    p.move_by(text, PointerAmount::Line(-1), false);
    assert_eq!(state(&p), (0, 0, false));
    p.move_by(text, PointerAmount::Line(1), true);
    assert_eq!(state(&p), (0, 14, false));
    assert!(is_word_spliter(' '));
    assert!(is_word_spliter('~'));
    assert!(!is_word_spliter('a'));
}

#[test]
fn deleting_removes_the_selection_or_one_character() {
    let mut text = "héllo".to_string();
    let mut p = Pointer::new(2);
    p.delete(&mut text);
    assert_eq!(text, "hllo");
    assert_eq!(state(&p), (1, 1, false));
    p.delete(&mut text);
    assert_eq!(text, "llo");
    assert_eq!(state(&p), (0, 0, false));
    p.delete(&mut text);
    assert_eq!(text, "llo");
    let mut p = selection(1, 3);
    p.delete(&mut text);
    assert_eq!(text, "l");
    assert_eq!(state(&p), (1, 1, false));
    let mut p = Pointer::new(7);
    p.delete(&mut text);
    assert_eq!(text, "l");
    assert_eq!(state(&p), (7, 7, false));
    let mut text = "abcdef".to_string();
    let mut p = selection(2, 4);
    p.delete_selected_text(&mut text);
    assert_eq!(text, "abef");
    assert_eq!(state(&p), (2, 2, false));
    p.delete_selected_text(&mut text);
    assert_eq!(text, "abef");
}

#[test]
fn typing_puts_text_where_the_cursor_stands() {
    let mut text = "héllo".to_string();
    let mut p = Pointer::new(2);
    let out = p.insert_text(&mut text, ImeString::ImeOff("XY".to_string()), &None);
    assert!(matches!(out, ValidatorResult::Valid));
    assert_eq!(text, "héXYllo");
    assert_eq!(state(&p), (4, 4, false));
    let out = p.insert_text(&mut text, ImeString::Ime { input: "ni".to_string(), selected: (0, 2) }, &None);
    assert!(matches!(out, ValidatorResult::Valid));
    assert_eq!(text, "héXYnillo");
    assert_eq!(state(&p), (4, 6, false));
    let out = p.insert_text(&mut text, ImeString::ImeOff("你".to_string()), &None);
    assert!(matches!(out, ValidatorResult::Valid));
    assert_eq!(text, "héXY你llo");
    assert_eq!(state(&p), (5, 5, false));
    let out = p.insert_text(&mut text, ImeString::Nothing, &None);
    assert!(matches!(out, ValidatorResult::Valid));
    assert_eq!(text, "héXY你llo");
    let mut p = Pointer::new(99);
    p.insert_text(&mut text, ImeString::ImeOff("!".to_string()), &None);
    assert_eq!(text, "héXY你llo!");
    assert_eq!(state(&p), (100, 100, false));
}

#[test]
fn a_validator_decides_what_is_typed() {
    let digits: Option<Box<dyn Validator>> =
        Some(Box::new(SimpleValidator { number_validation: NumerValidation::Integer, ..SimpleValidator::default() }));
    let mut text = "12".to_string();
    let mut p = Pointer::new(2);
    let out = p.insert_text(&mut text, ImeString::ImeOff("3a".to_string()), &digits);
    assert!(matches!(out, ValidatorResult::Invalid { allow_input: true, .. }));
    assert_eq!(text, "12");
    assert_eq!(state(&p), (2, 2, false));
    let out = p.insert_text(&mut text, ImeString::ImeOff("34".to_string()), &digits);
    assert!(matches!(out, ValidatorResult::Valid));
    assert_eq!(text, "1234");
    let out = p.insert_text(&mut text, ImeString::Ime { input: "x".to_string(), selected: (0, 1) }, &digits);
    assert!(matches!(out, ValidatorResult::Valid));
    assert_eq!(text, "1234x");
    let mut p = selection(1, 3);
    let out = p.insert_text(&mut text, ImeString::ImeOff("z".to_string()), &digits);
    assert!(matches!(out, ValidatorResult::Invalid { .. }));
    assert_eq!(text, "14x");
    assert_eq!(state(&p), (1, 1, false));
    let mut p = Pointer::new(0);
    let out = p.insert_validated(&mut text, ImeString::ImeOff("q".to_string()), ValidatorResult::Banned);
    assert!(matches!(out, ValidatorResult::Banned));
    assert_eq!(text, "14x");
}

fn message(result: ValidatorResult) -> (String, bool) {
    match result {
        ValidatorResult::Invalid { message, allow_input } => (message.unwrap(), allow_input),
        other => panic!("no refusal: {:?}", other),
    }
}

#[test]
fn the_simple_validator_checks_in_order() {
    let p = Pointer::new(1);
    let plain = SimpleValidator::default();
    assert!(matches!(plain.check("abc", "x", p), ValidatorResult::Valid));
    assert!(matches!(plain.validate("abc", "x", p), ValidatorResult::Valid));
    assert!(!plain.validate_when_change());
    assert!(matches!(plain.check("a\nb", "x", p), ValidatorResult::FinishType));
    let lines = SimpleValidator { allow_breakline: true, ..plain };
    assert!(matches!(lines.check("a\nb", "x", p), ValidatorResult::Valid));
    let banned = SimpleValidator { banned: true, limit: Some(0), ..plain };
    assert!(matches!(banned.check("a", "x", p), ValidatorResult::Banned));
    let short = SimpleValidator { limit: Some(3), ..plain };
    assert!(matches!(short.check("ab", "x", p), ValidatorResult::Valid));
    assert_eq!(message(short.check("abc", "x", p)), ("Too long".to_string(), false));
    assert_eq!(message(short.check("a\nbc", "x", p)), ("Too long".to_string(), false));
    let digits = SimpleValidator { number_validation: NumerValidation::Integer, ..plain };
    assert!(matches!(digits.check("0123456789", "x", p), ValidatorResult::Valid));
    assert!(matches!(digits.check("٣", "x", p), ValidatorResult::Valid));
    assert_eq!(message(digits.check("12 ", "x", p)), ("Only digits allowed".to_string(), true));
    let number = SimpleValidator { number_validation: NumerValidation::Float, ..plain };
    assert!(matches!(number.check(".", "15", p), ValidatorResult::Valid));
    assert!(matches!(number.check("e", "15", p), ValidatorResult::Valid));
    assert_eq!(message(number.check("x", "15", p)), ("Invalid number: invalid float literal".to_string(), true));
    assert_eq!(
        message(number.check("", "", p)),
        ("Invalid number: cannot parse float from empty string".to_string(), true)
    );
    assert_eq!(NumerValidation::default(), NumerValidation::Off);
}

#[test]
fn float_literals_follow_the_grammar() {
    for good in ["1", "-1", "+1.5", "1.", ".5", "1e5", "1.5E-3", "inf", "-Infinity", "NaN", "+nan", "0.0e+0", "007"] {
        assert!(is_float_literal(&chars_of(good)), "{}", good);
        assert!(good.parse::<f32>().is_ok(), "{}", good);
    }
    for bad in ["", ".", "+", "-", "e5", "1e", "1e+", "1.5.2", "1 ", " 1", "infinit", "na", "1f", "0x10", "--1", "1e5.0"] {
        assert!(!is_float_literal(&chars_of(bad)), "{}", bad);
        assert!(bad.parse::<f32>().is_err(), "{}", bad);
    }
}

#[test]
fn texts_have_lines() {
    assert_eq!(lines_of("a\nbc\r\n\nd"), vec!["a", "bc", "", "d"]);
    assert_eq!(lines_of("a\n"), vec!["a"]);
    assert_eq!(lines_of(""), Vec::<&str>::new());
    assert_eq!(lines_of("\n"), vec![""]);
    assert_eq!(lines_of("a\r"), vec!["a\r"]);
    for text in ["a\nbc\r\n\nd", "a\n", "", "\n", "a\r", "\r\n\r\n", "x\ry\n"] {
        assert_eq!(lines_of(text), text.lines().collect::<Vec<_>>());
    }
    let text = "one\ntwo\nthree";
    let p = selection(2, 9);
    assert_eq!(p.get_selected_text(text), "e\ntwo\nt");
    assert_eq!(p.get_selected_text_lines(text), vec!["e", "two", "t"]);
    assert_eq!(p.get_selected_lines(text), vec!["one", "two", "three"]);
    let p = selection(4, 6);
    assert_eq!(p.get_selected_lines(text), vec!["two"]);
    let p = Pointer::new(0);
    assert_eq!(p.get_selected_lines(text), vec!["one"]);
}

#[test]
fn floating_containers_find_their_place() {
    let parent = Rect::new(10, 20, 100, 50);
    let size = Vec2::new(30, 10);
    assert_eq!(Anchor::TopLeft.corner(parent, size), Vec2::new(10, 20));
    assert_eq!(Anchor::TopCenter.corner(parent, size), Vec2::new(45, 20));
    assert_eq!(Anchor::TopRight.corner(parent, size), Vec2::new(80, 20));
    assert_eq!(Anchor::MiddleLeft.corner(parent, size), Vec2::new(10, 40));
    assert_eq!(Anchor::MiddleCenter.corner(parent, size), Vec2::new(45, 40));
    assert_eq!(Anchor::MiddleRight.corner(parent, size), Vec2::new(80, 40));
    assert_eq!(Anchor::BottomLeft.corner(parent, size), Vec2::new(10, 60));
    assert_eq!(Anchor::BottomCenter.corner(parent, size), Vec2::new(45, 60));
    assert_eq!(Anchor::BottomRight.corner(parent, size), Vec2::new(80, 60));
    let widget = Vec2::new(1, 2);
    let cursor = Vec2::new(3, 4);
    let by = Vec2::new(5, 5);
    assert_eq!(FloatPostion::Absolote(by).get_pos(parent, size, widget, cursor), by);
    assert_eq!(FloatPostion::Relative(by).get_pos(parent, size, widget, cursor), Vec2::new(15, 25));
    assert_eq!(FloatPostion::RelativeWidget(LayoutId(3), by).get_pos(parent, size, widget, cursor), Vec2::new(6, 7));
    assert_eq!(FloatPostion::RelativeCursor(by).get_pos(parent, size, widget, cursor), Vec2::new(8, 9));
    assert_eq!(
        FloatPostion::Anchored { anchor: Anchor::BottomRight, padding: Vec2::same(-2) }.get_pos(parent, size, widget, cursor),
        Vec2::new(78, 58)
    );
}

#[test]
fn without_a_selection_nothing_is_deleted_wherever_the_cursor_stands() {
    let mut text = String::from("abc");
    let mut p = Pointer::new(7);
    assert!(!p.has_selected_text());
    p.delete_selected_text(&mut text);
    assert_eq!(text, "abc");
    assert_eq!(p.current_index_utf8(), 7);
    let mut p = Pointer::new(2);
    p.delete_selected_text(&mut text);
    assert_eq!(text, "abc");
    assert_eq!(p.current_index_utf8(), 2);
}
