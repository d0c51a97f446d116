use wordle_helper::filter::{Filter, PositionalFilter};
use wordle_helper::input::{process_input, InputMode, Key, KeyCode};

fn chr(c: char) -> Key {
    Key { code: KeyCode::Char(c), has_modifiers: false }
}

fn esc() -> Key {
    Key { code: KeyCode::Esc, has_modifiers: false }
}

#[test]
fn keystroke_sequence_is_deterministic() {
    // From Global(false), the sequence '+', '3', 'c', '-', 'd'.
    let mut f = Filter::new();
    let mode = InputMode::Global(false);

    let (mode, ok) = process_input(mode, chr('+'), &mut f);
    assert!(ok);
    assert_eq!(mode, InputMode::Global(true));
    assert!(f.is_empty());

    let (mode, ok) = process_input(mode, chr('3'), &mut f);
    assert!(ok);
    assert_eq!(mode, InputMode::Positional(2, true));
    assert!(f.is_empty());

    let (mode, ok) = process_input(mode, chr('c'), &mut f);
    assert!(ok);
    assert_eq!(mode, InputMode::Positional(2, true));
    assert_eq!(f.positional[2], Some(PositionalFilter::MustBe('c')));
    assert!(f.must_occur.is_empty());

    let (mode, ok) = process_input(mode, chr('-'), &mut f);
    assert!(ok);
    assert_eq!(mode, InputMode::Positional(2, false));
    assert_eq!(f.positional[2], Some(PositionalFilter::MustBe('c')));

    let (mode, ok) = process_input(mode, chr('d'), &mut f);
    assert!(ok);
    assert_eq!(mode, InputMode::Positional(2, false));
    assert_eq!(f.positional[2], Some(PositionalFilter::MustNotBe(vec!['d'])));
    assert_eq!(f.must_occur, vec!['d']);
}

#[test]
fn esc_resets_mode_and_keeps_filter() {
    let mut f = Filter::new();
    let _ = process_input(InputMode::Positional(1, false), chr('d'), &mut f);
    let before = f.clone();

    for start in [
        InputMode::Global(false),
        InputMode::Global(true),
        InputMode::Positional(0, true),
        InputMode::Positional(4, false),
    ] {
        let (mode, ok) = process_input(start, esc(), &mut f);
        assert!(ok);
        assert_eq!(mode, InputMode::Global(false));
        assert_eq!(f, before);
    }
}

#[test]
fn star_resets_mode_like_esc() {
    let mut f = Filter::new();
    let (mode, ok) = process_input(InputMode::Positional(3, true), chr('*'), &mut f);
    assert!(ok);
    assert_eq!(mode, InputMode::Global(false));
    assert!(f.is_empty());
}

#[test]
fn global_must_occur_is_not_deduplicated() {
    let mut f = Filter::new();
    let mode = InputMode::Global(true);
    let _ = process_input(mode, chr('e'), &mut f);
    let _ = process_input(mode, chr('e'), &mut f);
    assert_eq!(f.must_occur, vec!['e', 'e']);
}

#[test]
fn induced_must_occur_is_deduplicated() {
    // The same letter pressed twice in the same Positional(x, false) mode
    // enters must_occur only once.
    let mut f = Filter::new();
    let mode = InputMode::Positional(1, false);
    let _ = process_input(mode, chr('e'), &mut f);
    let _ = process_input(mode, chr('e'), &mut f);
    assert_eq!(f.must_occur, vec!['e']);
    assert_eq!(f.positional[1], Some(PositionalFilter::MustNotBe(vec!['e'])));
}

#[test]
fn must_occur_stays_sorted() {
    let mut f = Filter::new();
    let mode = InputMode::Global(true);
    for c in ['d', 'b', 'e', 'b'] {
        let _ = process_input(mode, chr(c), &mut f);
    }
    assert_eq!(f.must_occur, vec!['b', 'b', 'd', 'e']);
}

#[test]
fn must_not_occur_appends_sorted() {
    let mut f = Filter::new();
    let mode = InputMode::Global(false);
    for c in ['q', 'a', 'q'] {
        let _ = process_input(mode, chr(c), &mut f);
    }
    assert_eq!(f.must_not_occur, vec!['a', 'q', 'q']);
}

#[test]
fn must_not_be_set_accumulates_sorted_deduplicated() {
    let mut f = Filter::new();
    let mode = InputMode::Positional(0, false);
    for c in ['d', 'b', 'd'] {
        let _ = process_input(mode, chr(c), &mut f);
    }
    assert_eq!(f.positional[0], Some(PositionalFilter::MustNotBe(vec!['b', 'd'])));
    assert_eq!(f.must_occur, vec!['b', 'd']);
}

#[test]
fn must_be_discards_must_not_be() {
    let mut f = Filter::new();
    let _ = process_input(InputMode::Positional(2, false), chr('d'), &mut f);
    assert_eq!(f.positional[2], Some(PositionalFilter::MustNotBe(vec!['d'])));
    let _ = process_input(InputMode::Positional(2, true), chr('c'), &mut f);
    assert_eq!(f.positional[2], Some(PositionalFilter::MustBe('c')));
}

#[test]
fn must_not_be_replaces_must_be() {
    let mut f = Filter::new();
    let _ = process_input(InputMode::Positional(2, true), chr('c'), &mut f);
    let _ = process_input(InputMode::Positional(2, false), chr('d'), &mut f);
    assert_eq!(f.positional[2], Some(PositionalFilter::MustNotBe(vec!['d'])));
}

#[test]
fn digit_keeps_current_flag() {
    let mut f = Filter::new();
    let (mode, _) = process_input(InputMode::Positional(0, false), chr('5'), &mut f);
    assert_eq!(mode, InputMode::Positional(4, false));
    let (mode, _) = process_input(InputMode::Global(true), chr('1'), &mut f);
    assert_eq!(mode, InputMode::Positional(0, true));
}

#[test]
fn unmapped_keys_are_invalid_and_change_nothing() {
    let mut f = Filter::new();
    let start = InputMode::Positional(2, true);
    for key in [chr('A'), chr('0'), chr('9'), chr('!'), Key { code: KeyCode::Other, has_modifiers: false }] {
        let (mode, ok) = process_input(start, key, &mut f);
        assert!(!ok);
        assert_eq!(mode, start);
        assert!(f.is_empty());
    }
}

#[test]
fn modified_keys_are_invalid_and_change_nothing() {
    let mut f = Filter::new();
    let start = InputMode::Global(true);
    for code in [KeyCode::Char('+'), KeyCode::Char('e'), KeyCode::Esc] {
        let key = Key { code, has_modifiers: true };
        let (mode, ok) = process_input(start, key, &mut f);
        assert!(!ok);
        assert_eq!(mode, start);
        assert!(f.is_empty());
    }
}

#[test]
fn minus_sets_flag_false() {
    let mut f = Filter::new();
    let (mode, ok) = process_input(InputMode::Global(true), chr('-'), &mut f);
    assert!(ok);
    assert_eq!(mode, InputMode::Global(false));
    let (mode, ok) = process_input(InputMode::Positional(3, true), chr('-'), &mut f);
    assert!(ok);
    assert_eq!(mode, InputMode::Positional(3, false));
}
