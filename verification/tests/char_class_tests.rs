use regex::Regex;
use vamp::input::{Editor, Key, TermAction, CONTROL_R};
use vamp::patterns::find_and_replace;
use vamp::text::split_words;

#[test]
fn whitespace_is_the_unicode_white_space_property() {
    for u in 0u32..=0x10ffff {
        if let Some(c) = char::from_u32(u) {
            let v = vec!['a', c, 'b'];
            let n = split_words(&v).len();
            assert_eq!(n == 2, c.is_whitespace(), "character {:x}", u);
        }
    }
}

#[test]
fn variable_names_are_word_characters() {
    let re = Regex::new(r"\$(\w+)").unwrap();
    for u in (0u32..=0x10ffff).step_by(1009) {
        if let Some(c) = char::from_u32(u) {
            let s = format!("${}", c);
            let ours = find_and_replace(&s, r"\$(\w+)", |_| String::new()).is_empty();
            assert_eq!(ours, re.is_match(&s), "character {:x}", u);
        }
    }
}

#[test]
fn search_text_is_highlighted_in_colour() {
    let h = vec!["git log".to_string()];
    let p = String::new();
    let mut e = Editor::new(&h);
    e.step(Key::Char(CONTROL_R), &p, &h, false);
    let acts = e.step(Key::Char('g'), &p, &h, true);
    let shown: Vec<String> = acts
        .iter()
        .filter_map(|a| match a {
            TermAction::Write(s) => Some(s.clone()),
            _ => None,
        })
        .collect();
    assert_eq!(shown, vec!["(reverse search) \x1b[36mg\x1b[0mit lo\x1b[36mg\x1b[0m"]);
}

#[test]
fn search_text_is_plain_without_colours() {
    let h = vec!["git log".to_string()];
    let p = String::new();
    let mut e = Editor::new(&h);
    e.step(Key::Char(CONTROL_R), &p, &h, false);
    let acts = e.step(Key::Char('g'), &p, &h, false);
    let shown: Vec<String> = acts
        .iter()
        .filter_map(|a| match a {
            TermAction::Write(s) => Some(s.clone()),
            _ => None,
        })
        .collect();
    assert_eq!(shown, vec!["(reverse search) git log"]);
}
