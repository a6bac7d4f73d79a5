use mailbox_dispatch::render::render_match;

#[test]
fn joins_groups_with_tabs() {
    let groups = vec![Some("a".to_string()), None, Some("c".to_string())];
    assert_eq!(render_match("abc", &groups), "a\t[NONE]\tc");
}

#[test]
fn whole_match_when_no_groups() {
    let groups: Vec<Option<String>> = Vec::new();
    assert_eq!(render_match("whole", &groups), "whole");
}

#[test]
fn single_group_stands_alone() {
    let groups = vec![Some("x".to_string())];
    assert_eq!(render_match("x!", &groups), "x");
}

#[test]
fn renders_regex_captures() {
    // The processing capability's own path: captures from a real pattern,
    // with an optional group that does not participate.
    let re = regex::Regex::new(r"(\w+)=(\w+)(?:;(\w+))?").unwrap();
    let caps = re.captures("key=value").unwrap();
    let whole = caps.get(0).unwrap().as_str();
    let mut groups: Vec<Option<String>> = Vec::new();
    for i in 1..caps.len() {
        groups.push(caps.get(i).map(|m| m.as_str().to_string()));
    }
    assert_eq!(render_match(whole, &groups), "key\tvalue\t[NONE]");
}
