use vamp::input::{Editor, Key, State, TermAction, CONTROL_R};

fn hist(v: &[&str]) -> Vec<String> {
    v.iter().map(|s| s.to_string()).collect()
}

fn writes(acts: &[TermAction]) -> Vec<String> {
    acts.iter()
        .filter_map(|a| match a {
            TermAction::Write(s) => Some(s.clone()),
            _ => None,
        })
        .collect()
}

fn type_str(e: &mut Editor, s: &str, preset: &String, h: &Vec<String>) {
    for c in s.chars() {
        assert!(e.can_take(Key::Char(c), h));
        e.step(Key::Char(c), preset, h, false);
    }
}

#[test]
fn typing_and_editing() {
    let h = hist(&[]);
    let p = "> ".to_string();
    let mut e = Editor::new(&h);
    type_str(&mut e, "abc", &p, &h);
    assert_eq!(e.inp, "abc");
    assert_eq!(e.cursor_index, 3);
    let acts = e.step(Key::ArrowLeft, &p, &h, false);
    assert!(matches!(acts[..], [TermAction::MoveLeft(1)]));
    let acts = e.step(Key::Char('X'), &p, &h, false);
    assert_eq!(e.inp, "abXc");
    assert_eq!(writes(&acts), vec!["> abXc"]);
    assert!(matches!(acts[2], TermAction::MoveLeft(1)));
    e.step(Key::Backspace, &p, &h, false);
    assert_eq!(e.inp, "abc");
    assert_eq!(e.cursor_index, 2);
    e.step(Key::Del, &p, &h, false);
    assert_eq!(e.inp, "ab");
    e.step(Key::Home, &p, &h, false);
    assert_eq!(e.cursor_index, 0);
    e.step(Key::End, &p, &h, false);
    assert_eq!(e.cursor_index, 2);
    let acts = e.step(Key::Enter, &p, &h, false);
    assert!(e.state == State::Send);
    assert!(matches!(&acts[..], [TermAction::WriteLine(s)] if s.is_empty()));
    assert!(e.step(Key::Char('z'), &p, &h, false).is_empty());
    assert_eq!(e.inp, "ab");
}

#[test]
fn type_then_backspace_restores() {
    let h = hist(&[]);
    let p = String::new();
    let mut e = Editor::new(&h);
    type_str(&mut e, "hé", &p, &h);
    e.step(Key::Home, &p, &h, false);
    e.step(Key::Char('ü'), &p, &h, false);
    assert_eq!(e.inp, "ühé");
    e.step(Key::Backspace, &p, &h, false);
    assert_eq!(e.inp, "hé");
    assert_eq!(e.cursor_index, 0);
}

#[test]
fn editing_inside_a_multibyte_character_is_refused() {
    let h = hist(&[]);
    let p = String::new();
    let mut e = Editor::new(&h);
    type_str(&mut e, "é", &p, &h);
    assert_eq!(e.cursor_index, 1);
    assert!(!e.can_take(Key::Char('a'), &h));
    assert!(!e.can_take(Key::Del, &h));
    assert!(e.can_take(Key::Backspace, &h));
    e.step(Key::Backspace, &p, &h, false);
    assert_eq!(e.inp, "");
}

#[test]
fn history_walk_restores_the_typed_line() {
    let h = hist(&["first", "second"]);
    let p = "$ ".to_string();
    let mut e = Editor::new(&h);
    type_str(&mut e, "new", &p, &h);
    let acts = e.step(Key::ArrowUp, &p, &h, false);
    assert_eq!(e.inp, "second");
    assert_eq!(e.cursor_index, 6);
    assert!(matches!(acts[..], [TermAction::MoveLeft(3), TermAction::MoveRight(6), TermAction::ClearLine, TermAction::Write(_)]));
    e.step(Key::ArrowUp, &p, &h, false);
    assert_eq!(e.inp, "first");
    assert!(e.step(Key::ArrowUp, &p, &h, false).is_empty());
    assert_eq!(e.history_index, 0);
    e.step(Key::ArrowDown, &p, &h, false);
    e.step(Key::ArrowDown, &p, &h, false);
    assert_eq!(e.inp, "new");
    assert_eq!(e.history_index, 2);
    assert!(e.step(Key::ArrowDown, &p, &h, false).is_empty());
    assert_eq!(e.history_index, 2);
}

#[test]
fn reverse_search_finds_and_takes_an_entry() {
    let h = hist(&["git status", "ls", "git log"]);
    let p = String::new();
    let mut e = Editor::new(&h);
    type_str(&mut e, "x", &p, &h);
    let acts = e.step(Key::Char(CONTROL_R), &p, &h, false);
    assert!(e.state == State::ReverseSearch);
    assert_eq!(writes(&acts), vec!["(reverse search) "]);
    e.step(Key::Char('g'), &p, &h, false);
    let acts = e.step(Key::Char('i'), &p, &h, false);
    assert_eq!(e.reverse_search_results, vec![0, 2]);
    assert_eq!(e.reverse_search_index, 1);
    let shown = writes(&acts);
    assert!(shown[0].starts_with("(reverse search) "));
    assert!(shown[0].ends_with(" log"));
    e.step(Key::Char(CONTROL_R), &p, &h, false);
    assert_eq!(e.reverse_search_index, 0);
    assert!(!e.can_take(Key::Char(CONTROL_R), &h));
    e.step(Key::Enter, &p, &h, false);
    assert!(e.state == State::Input);
    assert_eq!(e.inp, "git status");
    assert_eq!(e.current_input, "x");
    assert_eq!(e.history_index, 0);
}

#[test]
fn reverse_search_toggles_back() {
    let h = hist(&["a"]);
    let p = "> ".to_string();
    let mut e = Editor::new(&h);
    type_str(&mut e, "ab", &p, &h);
    e.step(Key::Char(CONTROL_R), &p, &h, false);
    let acts = e.step(Key::Char(CONTROL_R), &p, &h, false);
    assert!(e.state == State::Input);
    assert_eq!(e.inp, "ab");
    assert_eq!(writes(&acts), vec!["> ab"]);
}

#[test]
fn reverse_search_without_result_keeps_the_search_text() {
    let h = hist(&["abc"]);
    let p = String::new();
    let mut e = Editor::new(&h);
    e.step(Key::Char(CONTROL_R), &p, &h, false);
    let acts = e.step(Key::Char('z'), &p, &h, false);
    assert_eq!(writes(&acts), vec!["(reverse search) z"]);
    assert!(!e.can_take(Key::Enter, &h));
    e.step(Key::Backspace, &p, &h, false);
    assert_eq!(e.reverse_search, "");
    assert_eq!(e.reverse_search_results, vec![0]);
}

#[test]
fn search_shows_the_styled_text_it_is_given() {
    let h = hist(&["make all", "git log"]);
    let p = String::new();
    let mut e = Editor::new(&h);
    e.step(Key::Char(CONTROL_R), &p, &h, false);
    let acts = e.search_with(Key::Char('a'), &p, &h, &"<a>".to_string());
    assert_eq!(e.reverse_search, "a");
    assert_eq!(e.reverse_search_results, vec![0]);
    assert_eq!(writes(&acts), vec!["(reverse search) m<a>ke <a>ll"]);
    e.search_with(Key::Backspace, &p, &h, &"".to_string());
    assert_eq!(e.reverse_search, "");
}

#[test]
fn an_ascii_line_takes_every_key() {
    let h = hist(&["ls", "pwd"]);
    let p = "$ ".to_string();
    let mut e = Editor::new(&h);
    let keys = [
        Key::Char('a'),
        Key::ArrowLeft,
        Key::Del,
        Key::Del,
        Key::Backspace,
        Key::ArrowUp,
        Key::ArrowUp,
        Key::ArrowUp,
        Key::Home,
        Key::Char('x'),
        Key::End,
        Key::ArrowRight,
        Key::ArrowDown,
        Key::ArrowDown,
        Key::ArrowDown,
        Key::Backspace,
        Key::Other,
    ];
    for k in keys {
        assert!(e.can_take(k, &h));
        e.step(k, &p, &h, false);
        assert!(e.inp.is_ascii());
        assert!(e.cursor_index <= e.inp.len());
        assert!(e.history_index <= h.len());
    }
}

#[test]
fn a_result_outside_the_history_is_not_taken() {
    let h = hist(&[]);
    let mut e = Editor::new(&h);
    e.state = State::ReverseSearch;
    e.reverse_search_results = vec![5];
    assert!(!e.can_take(Key::Enter, &h));
    assert!(e.can_take(Key::Backspace, &h));
}
