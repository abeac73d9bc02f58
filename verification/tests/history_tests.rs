use vamp::history::{push_history, search_history, HISTORY_LIMIT};

#[test]
fn history_grows_until_the_limit() {
    let mut h: Vec<String> = Vec::new();
    push_history(&"a".to_string(), &mut h);
    push_history(&"b".to_string(), &mut h);
    assert_eq!(h, vec!["a", "b"]);
    let mut full: Vec<String> = (0..HISTORY_LIMIT).map(|i| i.to_string()).collect();
    push_history(&"new".to_string(), &mut full);
    assert_eq!(full.len(), HISTORY_LIMIT);
    assert_eq!(full[0], "1");
    assert_eq!(full[HISTORY_LIMIT - 1], "new");
}

#[test]
fn history_over_the_limit_is_not_trimmed() {
    let mut over: Vec<String> = (0..HISTORY_LIMIT + 1).map(|i| i.to_string()).collect();
    push_history(&"x".to_string(), &mut over);
    assert_eq!(over.len(), HISTORY_LIMIT + 2);
    assert_eq!(over[0], "0");
}

#[test]
fn search_finds_every_entry_holding_the_text() {
    let h: Vec<String> = ["git status", "ls", "git log", "echo git"].iter().map(|s| s.to_string()).collect();
    assert_eq!(search_history(&"git".to_string(), &h), vec![0, 2, 3]);
    assert_eq!(search_history(&"zzz".to_string(), &h), Vec::<usize>::new());
    assert_eq!(search_history(&String::new(), &h), vec![0, 1, 2, 3]);
}
