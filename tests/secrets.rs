use keychain_cli::text::contains_text;
use keychain_cli::{
    add_key, key_list_text, mask_value, parse_key_list, secrets_json, shell_export_line, KeychainManager, Secret,
    Secrets,
};

fn sample() -> Secrets {
    Secrets::from_env_content(
        "# comment\r\n\
         DB_PASSWORD = hunter2 \r\n\
         \n\
         PORT=8080\n\
         not a pair\n\
         Api_Token=a=b\n",
    )
}

#[test]
fn parses_pairs_and_marks_sensitive_keys() {
    let s = sample();
    let got: Vec<(&str, &str, bool)> = s
        .secrets
        .iter()
        .map(|x| (x.key.as_str(), x.value.as_str(), x.sensitive))
        .collect();
    assert_eq!(
        got,
        vec![
            ("DB_PASSWORD", "hunter2", true),
            ("PORT", "8080", false),
            ("Api_Token", "a=b", true),
        ]
    );
}

#[test]
fn filter_by_keys_keeps_listed_names() {
    let s = sample().filter_by_keys(Some(" PORT , Api_Token"));
    let keys: Vec<&str> = s.secrets.iter().map(|x| x.key.as_str()).collect();
    assert_eq!(keys, vec!["PORT", "Api_Token"]);
    assert_eq!(sample().filter_by_keys(None).secrets.len(), 3);
    assert!(sample().filter_by_keys(Some("port")).secrets.is_empty());
}

#[test]
fn sensitive_only_keeps_order() {
    let keys: Vec<String> = sample().sensitive_only().into_iter().map(|x| x.key).collect();
    assert_eq!(keys, vec!["DB_PASSWORD".to_string(), "Api_Token".to_string()]);
}

#[test]
fn to_map_later_entry_wins() {
    let s = Secrets {
        secrets: vec![
            Secret { key: "A".into(), value: "1".into(), sensitive: false },
            Secret { key: "A".into(), value: "2".into(), sensitive: false },
            Secret { key: "B".into(), value: "3".into(), sensitive: true },
        ],
    };
    let m = s.to_map();
    assert_eq!(m.len(), 2);
    assert_eq!(m["A"], "2");
    assert_eq!(m["B"], "3");
}

#[test]
fn mask_value_shows_ends_only() {
    assert_eq!(mask_value("abcd"), "****");
    assert_eq!(mask_value(""), "****");
    assert_eq!(mask_value("abcdefgh"), "ab...gh");
    assert_eq!(mask_value("abcdef"), "ab...ef");
}

#[test]
fn mask_value_counts_bytes() {
    // Six bytes, cut after the first and before the last character.
    assert_eq!(mask_value("ééé"), "é...é");
    // Four bytes in two characters: masked whole.
    assert_eq!(mask_value("éé"), "****");
    // The cut after two bytes falls inside a character: masked whole.
    assert_eq!(mask_value("aéééa"), "****");
}

#[test]
fn keychain_manager_names() {
    let m = KeychainManager::new("team-dev");
    assert_eq!(m.service_name(), "team-dev");
    assert_eq!(m.keys_file_name(), "team-dev.keys");
}

#[test]
fn contains_text_edges() {
    assert!(contains_text("abc", ""));
    assert!(contains_text("", ""));
    assert!(!contains_text("", "a"));
    assert!(contains_text("abcabd", "abd"));
    assert!(!contains_text("ab", "abc"));
}

#[test]
fn export_line_escapes_single_quotes() {
    assert_eq!(shell_export_line("A", "x"), "export A='x'");
    assert_eq!(shell_export_line("B", "it's"), "export B='it'\\''s'");
    assert_eq!(shell_export_line("C", ""), "export C=''");
}

fn owned(v: &[&str]) -> Vec<String> {
    v.iter().map(|s| s.to_string()).collect()
}

#[test]
fn add_key_sorts_only_when_new() {
    assert_eq!(add_key(owned(&["b", "a"]), "a"), owned(&["b", "a"]));
    assert_eq!(add_key(owned(&["b", "a"]), "c"), owned(&["a", "b", "c"]));
    assert_eq!(add_key(owned(&["Z", "ä"]), "a"), owned(&["Z", "a", "ä"]));
    assert_eq!(add_key(Vec::new(), "k"), owned(&["k"]));
}

#[test]
fn key_list_lines_round_trip() {
    assert_eq!(parse_key_list(""), Vec::<String>::new());
    assert_eq!(parse_key_list("a\r\nb\n\nc\n"), owned(&["a", "b", "", "c"]));
    assert_eq!(parse_key_list("a\nb\r"), owned(&["a", "b\r"]));
    let keys = owned(&["A_KEY", "B_TOKEN"]);
    assert_eq!(key_list_text(&keys), "A_KEY\nB_TOKEN");
    assert_eq!(parse_key_list(&key_list_text(&keys)), keys);
    assert_eq!(key_list_text(&Vec::new()), "");
}

#[test]
fn secrets_json_is_a_pretty_object() {
    let pairs = vec![
        ("A".to_string(), "1".to_string()),
        ("B".to_string(), "say \"hi\"".to_string()),
    ];
    assert_eq!(
        secrets_json(&pairs),
        "{\n  \"A\": \"1\",\n  \"B\": \"say \\\"hi\\\"\"\n}"
    );
    assert_eq!(secrets_json(&Vec::new()), "{}");
}
