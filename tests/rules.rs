use keychain_cli::rules::{contains_all_texts, contains_any_text, load_env_rules};
use keychain_cli::text::decimal_text;
use keychain_cli::{Rule, RuleEngine, RuleType};

fn substring(pattern: &str, enabled: bool) -> Rule {
    Rule {
        id: "test".to_string(),
        rule_type: RuleType::Substring {
            pattern: pattern.to_string(),
        },
        description: "Test".to_string(),
        enabled,
    }
}

fn with_patterns(all: bool, patterns: &[&str]) -> Rule {
    let patterns: Vec<String> = patterns.iter().map(|p| p.to_string()).collect();
    Rule {
        id: "test".to_string(),
        rule_type: if all {
            RuleType::ContainsAll { patterns }
        } else {
            RuleType::ContainsAny { patterns }
        },
        description: "Test".to_string(),
        enabled: true,
    }
}

fn builtin_engine() -> RuleEngine {
    RuleEngine::new(Vec::new(), None)
}

#[test]
fn test_substring_rule() {
    let rule = substring(".env", true);
    assert!(rule.check("cat .env"));
    assert!(rule.check("cat deploy/.env"));
    // Containment is on raw text, so a longer file name that holds the
    // pattern is flagged too.
    assert!(rule.check("cat .env.example"));
}

#[test]
fn test_contains_all_rule() {
    let rule = with_patterns(true, &["docker", "compose", "config"]);
    assert!(rule.check("docker compose config"));
    assert!(rule.check("docker  compose  config"));
    assert!(!rule.check("docker compose build"));
    assert!(!rule.check("docker config"));
}

#[test]
fn test_case_insensitive() {
    let rule = substring("PASSWORD", true);
    assert!(rule.check("grep PASSWORD file.txt"));
    assert!(rule.check("grep password file.txt"));
    assert!(rule.check("grep PaSsWoRd file.txt"));
}

#[test]
fn test_disabled_rule() {
    let rule = substring(".env", false);
    assert!(!rule.check("cat .env"));
}

#[test]
fn test_dangerous_commands() {
    let engine = builtin_engine();
    assert!(engine.is_dangerous("cat .env"));
    assert!(engine.is_dangerous("grep PASSWORD ~"));
    assert!(engine.is_dangerous("docker compose config"));
    assert!(engine.is_dangerous("cat /Volumes/keys/private.key"));
}

#[test]
fn test_safe_commands() {
    let engine = builtin_engine();
    assert!(!engine.is_dangerous("ls src/"));
    assert!(!engine.is_dangerous("cat README.md"));
    assert!(!engine.is_dangerous("echo hello"));
    assert!(!engine.is_dangerous("cd /tmp"));
}

#[test]
fn disabled_rules_of_every_kind_match_nothing() {
    for mut rule in [
        substring("", true),
        with_patterns(true, &[]),
        with_patterns(false, &["cat"]),
    ] {
        assert!(rule.check("cat .env"));
        rule.enabled = false;
        assert!(!rule.check("cat .env"));
        assert!(!rule.check(""));
    }
}

#[test]
fn substring_rule_is_containment_ignoring_case() {
    let rule = substring("Key", true);
    assert!(rule.check("find . -name KEYFILE"));
    assert!(rule.check("monkey"));
    assert!(!rule.check("k e y"));
    assert!(!rule.check(""));
}

#[test]
fn empty_pattern_lists() {
    let all = with_patterns(true, &[]);
    let any = with_patterns(false, &[]);
    for command in ["", "echo hello", "cat .env"] {
        assert!(all.check(command));
        assert!(!any.check(command));
    }
}

#[test]
fn case_blind_for_every_strategy() {
    for rule in [
        substring("password", true),
        with_patterns(true, &["password"]),
        with_patterns(false, &["password"]),
    ] {
        assert!(rule.check("PASSWORD"));
        assert!(rule.check("password"));
        assert!(rule.check("PaSsWoRd"));
        assert!(!rule.check("passw0rd"));
    }
}

#[test]
fn contains_any_needs_one_pattern() {
    let rule = with_patterns(false, &["mysqldump", "pg_dump"]);
    assert!(rule.check("PG_DUMP mydb"));
    assert!(!rule.check("psql mydb"));
}

#[test]
fn first_match_is_the_earliest_rule() {
    let engine = builtin_engine();
    // Both the `.env` rule (first) and the `cat`/`.env` rule match.
    assert_eq!(engine.first_match("cat .env"), Some(0));
    assert!(engine.is_dangerous("cat .env"));
    assert_eq!(engine.first_match("grep PASSWORD ~"), Some(10));
    assert_eq!(engine.first_match("docker compose config"), Some(1));
    assert_eq!(engine.first_match("cat /Volumes/keys/private.key"), Some(6));
    assert_eq!(engine.first_match("echo hello"), None);
}

#[test]
fn builtin_table_is_complete_and_enabled() {
    let rules = keychain_cli::rules::load_builtin_rules();
    assert_eq!(rules.len(), 28);
    assert!(rules.iter().all(|r| r.enabled));
    assert_eq!(rules[0].id, "env_file_access");
    assert_eq!(rules[27].id, "ls_ssh");
    assert_eq!(builtin_engine().active_rules_count(), 28);
}

#[test]
fn empty_optional_layers_leave_builtin_decisions() {
    let plain = builtin_engine();
    let blank_env = RuleEngine::new(Vec::new(), Some(" | |"));
    for command in [
        "cat .env",
        "ls src/",
        "echo hello",
        "redis-cli KEYS *",
        "cat README.md",
    ] {
        assert_eq!(plain.is_dangerous(command), blank_env.is_dangerous(command));
    }
    assert_eq!(blank_env.active_rules_count(), 28);
}

#[test]
fn env_layer_makes_trimmed_substring_rules() {
    let rules = load_env_rules(Some("foo| |  Bar "));
    assert_eq!(rules.len(), 2);
    assert_eq!(rules[0].id, "env_custom_0");
    assert_eq!(rules[1].id, "env_custom_2");
    assert_eq!(rules[1].description, "Custom rule from env:   Bar ");
    match &rules[1].rule_type {
        RuleType::Substring { pattern } => assert_eq!(pattern, "Bar"),
        _ => panic!("expected a substring rule"),
    }
    assert!(rules[1].enabled);
    assert!(load_env_rules(None).is_empty());
    assert!(load_env_rules(Some("")).is_empty());
}

#[test]
fn env_layer_numbers_past_nine() {
    let rules = load_env_rules(Some("a|b|c|d|e|f|g|h|i|j|k"));
    assert_eq!(rules.len(), 11);
    assert_eq!(rules[10].id, "env_custom_10");
}

#[test]
fn env_and_config_layers_extend_the_engine() {
    let engine = RuleEngine::new(vec![substring("readme", false)], Some("README"));
    assert_eq!(engine.active_rules_count(), 29);
    assert!(engine.is_dangerous("cat README.md"));
    assert_eq!(engine.first_match("cat README.md"), Some(29));

    let config = RuleEngine::new(vec![substring("tmp", true)], None);
    assert!(config.is_dangerous("cd /TMP"));
    assert_eq!(config.first_match("cd /tmp"), Some(28));
}

#[test]
fn exact_pattern_lists_after_lowering() {
    let patterns = vec!["docker".to_string(), "config".to_string()];
    assert!(contains_all_texts("docker  compose config", &patterns));
    assert!(!contains_all_texts("docker compose build", &patterns));
    assert!(!contains_all_texts("DOCKER CONFIG", &patterns));
    assert!(contains_all_texts("", &Vec::new()));
    assert!(contains_any_text("cat config", &patterns));
    assert!(!contains_any_text("cat .env", &patterns));
    assert!(!contains_any_text("cat .env", &Vec::new()));
}

#[test]
fn decimal_numerals() {
    assert_eq!(decimal_text(0), "0");
    assert_eq!(decimal_text(7), "7");
    assert_eq!(decimal_text(10), "10");
    assert_eq!(decimal_text(1203), "1203");
    assert_eq!(decimal_text(usize::MAX), usize::MAX.to_string());
}

#[test]
fn env_patterns_trim_unicode_white_space() {
    let rules = load_env_rules(Some("\u{3000}vault\u{00a0}|\t\n"));
    assert_eq!(rules.len(), 1);
    match &rules[0].rule_type {
        RuleType::Substring { pattern } => assert_eq!(pattern, "vault"),
        _ => panic!("expected a substring rule"),
    }
}
