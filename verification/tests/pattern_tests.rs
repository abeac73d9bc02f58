use regex::Regex;
use vamp::patterns::{
    alias_definitions, byte_slice, byte_suffix, find_and_replace, find_and_replace_checked,
    first_group_from, first_pair, pair_complete, pairs_complete, pairs_of, parse_assignment,
    replace_captures, substitute, ALIAS_REGEX, ASSIGNMENT_REGEX, SUBSTITUTION_REGEX,
    VARIABLE_REGEX,
};

const SUBSTITUTION: &str = SUBSTITUTION_REGEX;
const VARIABLE: &str = VARIABLE_REGEX;

const SAMPLES: &[&str] = &[
    "",
    "echo $HOME and $USER_1!",
    "$",
    "$$a",
    "a$(b)c",
    "x `date` y `",
    "$(one) $(two)",
    "$(a\n) b)",
    "``a` $(x",
    "echo $(ls `pwd`) $x",
    "$é_ok $_",
    "`multi\nline`",
];

fn regex_replace(pattern: &str, input: &str) -> String {
    let re = Regex::new(pattern).unwrap();
    re.replace_all(input, |caps: &regex::Captures| {
        let inner = caps.iter().skip(1).flatten().next().unwrap().as_str();
        format!("<{}>", inner)
    })
    .to_string()
}

#[test]
fn variable_substitution_matches_regex() {
    for s in SAMPLES {
        let ours = find_and_replace(s, VARIABLE, |n| format!("<{}>", n));
        assert_eq!(ours, regex_replace(VARIABLE, s), "input {:?}", s);
    }
}

#[test]
fn inline_substitution_matches_regex() {
    for s in SAMPLES {
        let ours = find_and_replace(s, SUBSTITUTION, |n| format!("<{}>", n));
        assert_eq!(ours, regex_replace(SUBSTITUTION, s), "input {:?}", s);
    }
}

#[test]
fn plain_text_passes_unchanged() {
    let s = "ls -la /tmp | grep x";
    assert_eq!(find_and_replace(s, VARIABLE, |_| "!".to_string()), s);
    assert_eq!(find_and_replace(s, SUBSTITUTION, |_| "!".to_string()), s);
}

#[test]
fn substitution_keeps_text_between_matches() {
    let got = find_and_replace("a $x b $y c", VARIABLE, |n| n.to_uppercase());
    assert_eq!(got, "a X b Y c");
}

#[test]
fn substitution_hands_over_the_first_group_that_took_part() {
    let got = find_and_replace("p `a` q $(b c) r", SUBSTITUTION, |n| format!("[{}]", n));
    assert_eq!(got, "p [a] q [b c] r");
}

#[test]
fn identity_replacement_of_whole_groups_changes_nothing() {
    for s in ["", "one two", "é ü, x_1 !", "  spaced  out  "] {
        assert_eq!(find_and_replace(s, r"(\w+)", |w| w.to_string()), s);
    }
}

#[test]
fn any_regex_can_be_used() {
    let got = find_and_replace("2024-01-31", r"(\d+)", |n| format!("{}", n.len()));
    assert_eq!(got, "4-2-2");
}

#[test]
fn checked_substitution_refuses_bad_patterns() {
    assert_eq!(find_and_replace_checked("abc", r"(b", |n| n.to_string()), None);
    assert_eq!(find_and_replace_checked("abc", r"b", |n| n.to_string()), None);
    assert_eq!(find_and_replace_checked("xyz", r"b", |n| n.to_string()), Some("xyz".to_string()));
    assert_eq!(
        find_and_replace_checked("abc", r"(b)", |n| n.to_uppercase()),
        Some("aBc".to_string())
    );
}

#[test]
fn captures_are_replaced_as_given() {
    let caps = vec![vec![Some((1, 3)), None, Some((2, 3))], vec![Some((4, 6)), Some((4, 5))]];
    let got = replace_captures("abcdefg", &caps, |n| n.to_uppercase());
    assert_eq!(got, "aCdEg");
}

#[test]
fn first_group_is_found_after_a_start() {
    let c = vec![Some((0, 1)), None, None, Some((2, 3))];
    assert_eq!(first_group_from(&c, 1), Some(3));
    assert_eq!(first_group_from(&c, 0), Some(0));
    assert_eq!(first_group_from(&c, 4), None);
    assert_eq!(first_group_from(&vec![Some((0, 0)), None], 1), None);
}

#[test]
fn byte_slices_follow_the_encoding() {
    let s = "aé€x";
    assert_eq!(byte_slice(s, 1, 3), "é");
    assert_eq!(byte_slice(s, 3, 6), "€");
    assert_eq!(byte_slice(s, 3, 3), "");
    assert_eq!(byte_suffix(s, 3), "€x");
    assert_eq!(byte_suffix(s, 7), "");
}

#[test]
fn alias_definitions_match_regex() {
    let re = Regex::new(ALIAS_REGEX).unwrap();
    for s in [
        r#"ll="ls -la""#,
        r#"a="1" b="2""#,
        r#"x="" y="z""#,
        r#"=" q="w""#,
        "nothing here",
        r#"k=v"#,
        r#"é="ü" _="""#,
    ] {
        let ours: Vec<(String, String)> = alias_definitions(s);
        let theirs: Vec<(String, String)> = re
            .captures_iter(s)
            .map(|c| (c[1].to_string(), c[2].to_string()))
            .collect();
        assert_eq!(ours, theirs, "input {:?}", s);
    }
}

#[test]
fn assignment_matches_regex() {
    let re = Regex::new(ASSIGNMENT_REGEX).unwrap();
    for s in ["x=1", "name='a b'", "x=", "=1", " x=1", "a b=c", "v=first\nsecond", "é=ü"] {
        let ours = parse_assignment(s);
        let theirs = re
            .captures_iter(s)
            .next()
            .map(|c| (c[1].to_string(), c[2].to_string()));
        assert_eq!(ours, theirs, "input {:?}", s);
    }
}

#[test]
fn assignment_splits_name_and_value() {
    assert_eq!(parse_assignment("x=a b"), Some(("x".to_string(), "a b".to_string())));
    assert_eq!(parse_assignment("echo x=1"), None);
}

#[test]
fn substitution_runs_commands_then_variables() {
    let got = substitute("echo `cmd` $x $(a $y)", |c| format!("<{}>", c), |v| v.to_uppercase());
    assert_eq!(got, Some("echo <cmd> X <a Y>".to_string()));
    let got = substitute("$(echo $HOME)", |c| c.to_string(), |v| format!("[{}]", v));
    assert_eq!(got, Some("echo [HOME]".to_string()));
    assert_eq!(substitute("plain", |_| String::new(), |_| String::new()), Some("plain".to_string()));
}

#[test]
fn pairs_are_read_from_captures() {
    let s = "ab=cd xy=z";
    let caps = vec![
        vec![Some((0, 5)), Some((0, 2)), Some((3, 5))],
        vec![Some((6, 10)), Some((6, 8)), Some((9, 10))],
    ];
    assert!(pairs_complete(&caps));
    assert_eq!(
        pairs_of(s, &caps),
        vec![("ab".to_string(), "cd".to_string()), ("xy".to_string(), "z".to_string())]
    );
    assert_eq!(first_pair(s, &caps), Some(("ab".to_string(), "cd".to_string())));
    assert_eq!(first_pair(s, &vec![]), None);
    assert!(!pair_complete(&vec![Some((0, 1)), None, Some((0, 1))]));
    assert!(!pairs_complete(&vec![vec![Some((0, 1)), Some((0, 1))]]));
}
