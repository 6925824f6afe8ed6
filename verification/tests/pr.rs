//! Pull requests.
use cutter::json::parse_json;
use cutter::pr::{fetch, from_gh, list_items, parse, pr_list_args, GhPr, PrState};

#[test]
fn parses_and_filters_states() {
    let json = br#"[
            {"number":12,"state":"OPEN","isDraft":false,"url":"u12","title":"open one"},
            {"number":7,"state":"OPEN","isDraft":true,"url":"u7","title":"draft one"},
            {"number":3,"state":"MERGED","isDraft":false,"url":"u3","title":"merged one"},
            {"number":9,"state":"CLOSED","isDraft":false,"url":"u9","title":"closed one"}
        ]"#;
    let prs = parse("frontend", json);
    // Closed-unmerged dropped; three remain.
    assert_eq!(prs.len(), 3);
    let by_num: std::collections::HashMap<u64, PrState> =
        prs.iter().map(|p| (p.number, p.state)).collect();
    assert_eq!(by_num[&12], PrState::Open);
    assert_eq!(by_num[&7], PrState::Draft);
    assert_eq!(by_num[&3], PrState::Merged);
    assert!(!by_num.contains_key(&9));
    assert_eq!(prs[0].repo, "frontend");
}

#[test]
fn bad_json_is_empty() {
    assert!(parse("r", b"not json").is_empty());
    assert!(parse("r", b"").is_empty());
}

#[test]
fn one_wrong_item_spoils_the_list() {
    let good = r#"{"number":1,"state":"OPEN","isDraft":false,"url":"u"}"#;
    let list = |items: &str| parse("r", items.as_bytes());
    assert_eq!(list(&format!("[{good}]")).len(), 1);
    assert_eq!(list(&format!("[{good}]"))[0].title, "");
    assert!(list(&format!("[{good}, {{\"number\":1}}]")).is_empty());
    assert!(list(&format!("[{good}, {{\"number\":-1,\"state\":\"OPEN\",\"isDraft\":false,\"url\":\"u\"}}]")).is_empty());
    assert!(list(&format!("[{good}, {{\"number\":1,\"state\":\"OPEN\",\"isDraft\":false,\"url\":\"u\",\"title\":null}}]")).is_empty());
    assert!(list(good).is_empty());
}

#[test]
fn items_may_be_spelled_in_order() {
    let answer = parse_json(r#"[[5,"MERGED",true,"u"],[6,"OPEN",true,"u","t"]]"#).unwrap();
    let prs = list_items("r", Some(answer));
    assert_eq!(prs.len(), 2);
    assert_eq!(prs[0].state, PrState::Merged);
    assert_eq!(prs[1].title, "t");
    let answer = parse_json(r#"[[5,"MERGED",true,"u","t",1]]"#).unwrap();
    assert!(list_items("r", Some(answer)).is_empty());
    assert!(list_items("r", None).is_empty());
}

#[test]
fn states_are_mapped() {
    let gh = |state: &str, is_draft: bool| {
        from_gh("r", GhPr { number: 1, state: state.into(), is_draft, url: "u".into(), title: "t".into() })
            .map(|p| p.state.label())
    };
    assert_eq!(gh("OPEN", false), Some("open"));
    assert_eq!(gh("OPEN", true), Some("draft"));
    assert_eq!(gh("MERGED", true), Some("merged"));
    assert_eq!(gh("CLOSED", false), None);
}

#[test]
fn lists_are_sorted_by_number_and_keep_the_order_of_repos() {
    let item = |n: u64, t: &str| {
        format!("{{\"number\":{n},\"state\":\"OPEN\",\"isDraft\":false,\"url\":\"u\",\"title\":\"{t}\"}}")
    };
    let a = format!("[{},{}]", item(9, "a9"), item(2, "a2"));
    let b = format!("[{},{}]", item(2, "b2"), item(1, "b1"));
    let prs = fetch(&vec![
        ("a".to_string(), a.into_bytes()),
        ("x".to_string(), b"oops".to_vec()),
        ("b".to_string(), b.into_bytes()),
    ]);
    let titles: Vec<&str> = prs.iter().map(|p| p.title.as_str()).collect();
    assert_eq!(titles, vec!["b1", "a2", "b2", "a9"]);
    assert_eq!(prs[0].repo, "b");
}

#[test]
fn asks_for_every_state_of_a_branch() {
    assert_eq!(
        pr_list_args("feat").join(" "),
        "pr list --head feat --state all --limit 30 --json number,state,isDraft,url,title"
    );
}
