//! Command-risk rules and the layered engine that evaluates them.

use crate::text::{
    occurs_at,
    contains_text, decimal, decimal_text, case_folded, lowercase, seq_contains, slice_texts, split_on,
    split_pieces_lack_sep, split_text, string_texts, trim_of, trim_of_is_trimmed_part, trimmed,
};
use vstd::prelude::*;

verus! {

/// What a match strategy means, over the characters of its patterns.
pub enum Strategy {
    Substring(Seq<char>),
    ContainsAll(Seq<Seq<char>>),
    ContainsAny(Seq<Seq<char>>),
}

/// The mathematical content of a [`Rule`].
pub struct RuleView {
    pub id: Seq<char>,
    pub strategy: Strategy,
    pub description: Seq<char>,
    pub enabled: bool,
}

/// `pattern` occurs in `command` once both are lower-cased.
pub open spec fn contains_ignoring_case(command: Seq<char>, pattern: Seq<char>) -> bool {
    seq_contains(case_folded(command), case_folded(pattern))
}

/// Every one of `patterns` occurs in `command`.
pub open spec fn contains_every(command: Seq<char>, patterns: Seq<Seq<char>>) -> bool {
    forall|i: int| 0 <= i < patterns.len() ==> #[trigger] seq_contains(command, patterns[i])
}

/// At least one of `patterns` occurs in `command`.
pub open spec fn contains_some(command: Seq<char>, patterns: Seq<Seq<char>>) -> bool {
    exists|i: int| 0 <= i < patterns.len() && #[trigger] seq_contains(command, patterns[i])
}

/// Each pattern lower-cased.
pub open spec fn lowered_all(patterns: Seq<Seq<char>>) -> Seq<Seq<char>> {
    patterns.map_values(|p: Seq<char>| case_folded(p))
}

/// Every pattern, lower-cased, occurs in `command_lower`.
pub open spec fn all_occur(command_lower: Seq<char>, patterns: Seq<Seq<char>>) -> bool {
    contains_every(command_lower, lowered_all(patterns))
}

/// Some pattern, lower-cased, occurs in `command_lower`.
pub open spec fn any_occurs(command_lower: Seq<char>, patterns: Seq<Seq<char>>) -> bool {
    contains_some(command_lower, lowered_all(patterns))
}

impl Strategy {
    /// Whether the strategy accepts an already lower-cased command; each
    /// pattern is lower-cased on its own.
    pub open spec fn accepts_lowered(self, command_lower: Seq<char>) -> bool {
        match self {
            Strategy::Substring(p) => seq_contains(command_lower, case_folded(p)),
            Strategy::ContainsAll(ps) => all_occur(command_lower, ps),
            Strategy::ContainsAny(ps) => any_occurs(command_lower, ps),
        }
    }
}

impl RuleView {
    /// Whether the rule flags `command`: it is enabled and its strategy accepts
    /// the lower-cased command.
    pub open spec fn matches(self, command: Seq<char>) -> bool {
        self.enabled && self.strategy.accepts_lowered(case_folded(command))
    }
}

/// How a rule decides whether a command contains what it looks for.
/// Every comparison ignores case.
#[derive(Debug, Clone)]
pub enum RuleType {
    /// The command contains `pattern`.
    Substring { pattern: String },
    /// The command contains every one of `patterns`, in any order.
    ContainsAll { patterns: Vec<String> },
    /// The command contains at least one of `patterns`.
    ContainsAny { patterns: Vec<String> },
}

impl View for RuleType {
    type V = Strategy;

    open spec fn view(&self) -> Strategy {
        match self {
            RuleType::Substring { pattern } => Strategy::Substring(pattern@),
            RuleType::ContainsAll { patterns } => Strategy::ContainsAll(string_texts(patterns@)),
            RuleType::ContainsAny { patterns } => Strategy::ContainsAny(string_texts(patterns@)),
        }
    }
}

/// A named predicate over command strings.
#[derive(Debug, Clone)]
pub struct Rule {
    pub id: String,
    pub rule_type: RuleType,
    pub description: String,
    pub enabled: bool,
}

impl View for Rule {
    type V = RuleView;

    open spec fn view(&self) -> RuleView {
        RuleView {
            id: self.id@,
            strategy: self.rule_type@,
            description: self.description@,
            enabled: self.enabled,
        }
    }
}

/// Whether one pattern, lower-cased, occurs in an already lower-cased command.
fn pattern_occurs(command_lower: &str, pattern: &String) -> (r: bool)
    ensures
        r == seq_contains(command_lower@, case_folded(pattern@)),
{
    let p = lowercase(pattern.as_str());
    contains_text(command_lower, p.as_str())
}

/// Lower-cases each pattern.
fn lowercase_all(patterns: &Vec<String>) -> (r: Vec<String>)
    ensures
        string_texts(r@) == lowered_all(string_texts(patterns@)),
{
    let mut r: Vec<String> = Vec::new();
    let mut i: usize = 0;
    assert(string_texts(r@) =~= Seq::<Seq<char>>::empty());
    while i < patterns.len()
        invariant
            i <= patterns.len(),
            string_texts(r@) == lowered_all(string_texts(patterns@)).take(i as int),
        decreases patterns.len() - i,
    {
        let ghost before = string_texts(r@);
        let p = lowercase(patterns[i].as_str());
        r.push(p);
        assert(string_texts(r@) =~= before.push(p@));
        assert(lowered_all(string_texts(patterns@)).take(i + 1) =~= lowered_all(
            string_texts(patterns@),
        ).take(i as int).push(p@));
        i += 1;
    }
    assert(lowered_all(string_texts(patterns@)).take(i as int) =~= lowered_all(
        string_texts(patterns@),
    ));
    r
}

/// Whether every one of `patterns` occurs in `command`, compared exactly.
pub fn contains_all_texts(command: &str, patterns: &Vec<String>) -> (r: bool)
    ensures
        r == contains_every(command@, string_texts(patterns@)),
{
    let mut i: usize = 0;
    while i < patterns.len()
        invariant
            i <= patterns.len(),
            forall|k: int|
                0 <= k < i ==> #[trigger] seq_contains(command@, string_texts(patterns@)[k]),
        decreases patterns.len() - i,
    {
        assert(string_texts(patterns@)[i as int] == patterns@[i as int]@);
        if !contains_text(command, patterns[i].as_str()) {
            return false;
        }
        i += 1;
    }
    true
}

/// Whether at least one of `patterns` occurs in `command`, compared exactly.
pub fn contains_any_text(command: &str, patterns: &Vec<String>) -> (r: bool)
    ensures
        r == contains_some(command@, string_texts(patterns@)),
{
    let mut i: usize = 0;
    while i < patterns.len()
        invariant
            i <= patterns.len(),
            forall|k: int|
                0 <= k < i ==> !#[trigger] seq_contains(command@, string_texts(patterns@)[k]),
        decreases patterns.len() - i,
    {
        assert(string_texts(patterns@)[i as int] == patterns@[i as int]@);
        if contains_text(command, patterns[i].as_str()) {
            return true;
        }
        i += 1;
    }
    false
}

impl RuleType {
    /// Applies the strategy to a command that has already been lower-cased;
    /// the patterns are lower-cased here.
    pub fn accepts_lowered(&self, command_lower: &str) -> (r: bool)
        ensures
            r == self@.accepts_lowered(command_lower@),
    {
        match self {
            RuleType::Substring { pattern } => pattern_occurs(command_lower, pattern),
            RuleType::ContainsAll { patterns } => {
                let lowered = lowercase_all(patterns);
                contains_all_texts(command_lower, &lowered)
            },
            RuleType::ContainsAny { patterns } => {
                let lowered = lowercase_all(patterns);
                contains_any_text(command_lower, &lowered)
            },
        }
    }
}

impl Rule {
    /// Whether this rule flags `command`. A disabled rule flags nothing.
    pub fn check(&self, command: &str) -> (r: bool)
        ensures
            r == self@.matches(command@),
    {
        if !self.enabled {
            return false;
        }
        let command_lower = lowercase(command);
        self.rule_type.accepts_lowered(command_lower.as_str())
    }
}

/// The content of each rule, in order.
pub open spec fn rule_views(rules: Seq<Rule>) -> Seq<RuleView> {
    rules.map_values(|r: Rule| r@)
}

/// Some rule of `rules` flags `command`.
pub open spec fn dangerous(rules: Seq<RuleView>, command: Seq<char>) -> bool {
    exists|i: int| 0 <= i < rules.len() && #[trigger] rules[i].matches(command)
}

/// Rule `i` flags `command` and no earlier rule does.
pub open spec fn is_first_match(rules: Seq<RuleView>, command: Seq<char>, i: int) -> bool {
    &&& 0 <= i < rules.len()
    &&& rules[i].matches(command)
    &&& forall|j: int| 0 <= j < i ==> !#[trigger] rules[j].matches(command)
}

/// How many of `rules` are enabled.
pub open spec fn enabled_count(rules: Seq<RuleView>) -> nat
    decreases rules.len(),
{
    if rules.len() == 0 {
        0
    } else {
        enabled_count(rules.drop_last()) + if rules.last().enabled {
            1nat
        } else {
            0nat
        }
    }
}

/// The content of an enabled `Substring` rule.
pub open spec fn substring_view(id: Seq<char>, pattern: Seq<char>, description: Seq<char>) -> RuleView {
    RuleView { id, strategy: Strategy::Substring(pattern), description, enabled: true }
}

/// The content of an enabled `ContainsAll` rule.
pub open spec fn contains_all_view(
    id: Seq<char>,
    patterns: Seq<Seq<char>>,
    description: Seq<char>,
) -> RuleView {
    RuleView { id, strategy: Strategy::ContainsAll(patterns), description, enabled: true }
}

/// The compiled-in rules, in load order.
pub open spec fn builtin_table() -> Seq<RuleView> {
    seq![
        substring_view("env_file_access"@, ".env"@, "Block access to .env files"@),
        contains_all_view("docker_compose_config"@, seq!["docker"@, "compose"@, "config"@], "Block docker compose config access"@),
        contains_all_view("docker_hyphen_compose_config"@, seq!["docker-compose"@, "config"@], "Block docker-compose config access"@),
        contains_all_view("security_find_generic"@, seq!["security"@, "find-generic"@], "Block security find-generic (keychain access)"@),
        contains_all_view("security_find_internet"@, seq!["security"@, "find-internet"@], "Block security find-internet (keychain access)"@),
        contains_all_view("security_get_keychain"@, seq!["security"@, "get-keychain"@], "Block security get-keychain"@),
        contains_all_view("volumes_keys_access"@, seq!["/Volumes"@, "keys"@], "Block access to /Volumes/.../keys"@),
        contains_all_view("volumes_secret_access"@, seq!["/Volumes"@, "secret"@], "Block access to /Volumes/.../secret"@),
        contains_all_view("volumes_password_access"@, seq!["/Volumes"@, "password"@], "Block access to /Volumes/.../password"@),
        contains_all_view("volumes_credential_access"@, seq!["/Volumes"@, "credential"@], "Block access to /Volumes/.../credential"@),
        contains_all_view("grep_password"@, seq!["grep"@, "password"@], "Block grep for password patterns"@),
        contains_all_view("grep_secret"@, seq!["grep"@, "secret"@], "Block grep for secret patterns"@),
        contains_all_view("grep_key"@, seq!["grep"@, "key"@], "Block grep for key patterns"@),
        contains_all_view("grep_token"@, seq!["grep"@, "token"@], "Block grep for token patterns"@),
        contains_all_view("grep_api_key"@, seq!["grep"@, "api_key"@], "Block grep for api_key patterns"@),
        substring_view("ssh_dir_access"@, "/.ssh/"@, "Block access to ~/.ssh directory"@),
        substring_view("aws_dir_access"@, "/.aws/"@, "Block access to ~/.aws directory"@),
        substring_view("bash_history"@, ".bash_history"@, "Block access to .bash_history"@),
        substring_view("zsh_history"@, ".zsh_history"@, "Block access to .zsh_history"@),
        substring_view("mysqldump"@, "mysqldump"@, "Block mysqldump (database export)"@),
        substring_view("pg_dump"@, "pg_dump"@, "Block pg_dump (PostgreSQL export)"@),
        contains_all_view("redis_cli_keys"@, seq!["redis-cli"@, "keys"@], "Block redis-cli keys (Redis inspection)"@),
        contains_all_view("git_config_get"@, seq!["git"@, "config"@, "get"@], "Block git config get (credential access)"@),
        contains_all_view("find_password"@, seq!["find"@, "password"@], "Block find for password files"@),
        contains_all_view("find_secret"@, seq!["find"@, "secret"@], "Block find for secret files"@),
        contains_all_view("find_key"@, seq!["find"@, "key"@], "Block find for key files"@),
        contains_all_view("cat_env"@, seq!["cat"@, ".env"@], "Block cat .env"@),
        contains_all_view("ls_ssh"@, seq!["ls"@, "/.ssh"@], "Block ls ~/.ssh"@),
    ]
}

fn substring_rule(id: &str, pattern: &str, description: &str) -> (r: Rule)
    ensures
        r@ == substring_view(id@, pattern@, description@),
{
    Rule {
        id: id.to_owned(),
        rule_type: RuleType::Substring { pattern: pattern.to_owned() },
        description: description.to_owned(),
        enabled: true,
    }
}

fn contains_both_rule(id: &str, first: &str, second: &str, description: &str) -> (r: Rule)
    ensures
        r@ == contains_all_view(id@, seq![first@, second@], description@),
{
    let patterns = vec![first.to_owned(), second.to_owned()];
    assert(string_texts(patterns@) =~= seq![first@, second@]);
    Rule {
        id: id.to_owned(),
        rule_type: RuleType::ContainsAll { patterns },
        description: description.to_owned(),
        enabled: true,
    }
}

fn contains_all_three_rule(id: &str, first: &str, second: &str, third: &str, description: &str) -> (r: Rule)
    ensures
        r@ == contains_all_view(id@, seq![first@, second@, third@], description@),
{
    let patterns = vec![first.to_owned(), second.to_owned(), third.to_owned()];
    assert(string_texts(patterns@) =~= seq![first@, second@, third@]);
    Rule {
        id: id.to_owned(),
        rule_type: RuleType::ContainsAll { patterns },
        description: description.to_owned(),
        enabled: true,
    }
}

/// The compiled-in rules: `.env` files, container config dumps, keychain
/// queries, secret directories on mounted volumes, searches for credentials,
/// SSH and cloud credential directories, shell history, database dumps and
/// version-control credential queries. All of them are enabled.
pub fn load_builtin_rules() -> (r: Vec<Rule>)
    ensures
        rule_views(r@) == builtin_table(),
{
    let r = vec![
        substring_rule("env_file_access", ".env", "Block access to .env files"),
        contains_all_three_rule("docker_compose_config", "docker", "compose", "config", "Block docker compose config access"),
        contains_both_rule("docker_hyphen_compose_config", "docker-compose", "config", "Block docker-compose config access"),
        contains_both_rule("security_find_generic", "security", "find-generic", "Block security find-generic (keychain access)"),
        contains_both_rule("security_find_internet", "security", "find-internet", "Block security find-internet (keychain access)"),
        contains_both_rule("security_get_keychain", "security", "get-keychain", "Block security get-keychain"),
        contains_both_rule("volumes_keys_access", "/Volumes", "keys", "Block access to /Volumes/.../keys"),
        contains_both_rule("volumes_secret_access", "/Volumes", "secret", "Block access to /Volumes/.../secret"),
        contains_both_rule("volumes_password_access", "/Volumes", "password", "Block access to /Volumes/.../password"),
        contains_both_rule("volumes_credential_access", "/Volumes", "credential", "Block access to /Volumes/.../credential"),
        contains_both_rule("grep_password", "grep", "password", "Block grep for password patterns"),
        contains_both_rule("grep_secret", "grep", "secret", "Block grep for secret patterns"),
        contains_both_rule("grep_key", "grep", "key", "Block grep for key patterns"),
        contains_both_rule("grep_token", "grep", "token", "Block grep for token patterns"),
        contains_both_rule("grep_api_key", "grep", "api_key", "Block grep for api_key patterns"),
        substring_rule("ssh_dir_access", "/.ssh/", "Block access to ~/.ssh directory"),
        substring_rule("aws_dir_access", "/.aws/", "Block access to ~/.aws directory"),
        substring_rule("bash_history", ".bash_history", "Block access to .bash_history"),
        substring_rule("zsh_history", ".zsh_history", "Block access to .zsh_history"),
        substring_rule("mysqldump", "mysqldump", "Block mysqldump (database export)"),
        substring_rule("pg_dump", "pg_dump", "Block pg_dump (PostgreSQL export)"),
        contains_both_rule("redis_cli_keys", "redis-cli", "keys", "Block redis-cli keys (Redis inspection)"),
        contains_all_three_rule("git_config_get", "git", "config", "get", "Block git config get (credential access)"),
        contains_both_rule("find_password", "find", "password", "Block find for password files"),
        contains_both_rule("find_secret", "find", "secret", "Block find for secret files"),
        contains_both_rule("find_key", "find", "key", "Block find for key files"),
        contains_both_rule("cat_env", "cat", ".env", "Block cat .env"),
        contains_both_rule("ls_ssh", "ls", "/.ssh", "Block ls ~/.ssh"),
    ];
    assert(rule_views(r@) =~= builtin_table());
    r
}

/// The rule that the environment override makes of the piece at `index`.
pub open spec fn env_rule_view(index: nat, piece: Seq<char>) -> RuleView {
    RuleView {
        id: "env_custom_"@ + decimal(index),
        strategy: Strategy::Substring(trim_of(piece)),
        description: "Custom rule from env: "@ + piece,
        enabled: true,
    }
}

/// The rules made of the first `n` pieces: one for each piece that is not
/// blank once trimmed, numbered by the piece's position.
pub open spec fn env_rules_upto(pieces: Seq<Seq<char>>, n: nat) -> Seq<RuleView>
    decreases n,
{
    if n == 0 {
        Seq::empty()
    } else {
        let earlier = env_rules_upto(pieces, (n - 1) as nat);
        if trim_of(pieces[n - 1]).len() > 0 {
            earlier.push(env_rule_view((n - 1) as nat, pieces[n - 1]))
        } else {
            earlier
        }
    }
}

/// The environment layer: nothing when the variable is absent, else one
/// `Substring` rule per non-blank `|`-separated piece of its value.
pub open spec fn env_layer(value: Option<&str>) -> Seq<RuleView> {
    match value {
        None => Seq::empty(),
        Some(v) => env_rules_upto(split_on(v@, '|'), split_on(v@, '|').len()),
    }
}

/// All layers in load order: built-in, then the rules file, then the
/// environment override.
pub open spec fn layered(config: Seq<RuleView>, env_value: Option<&str>) -> Seq<RuleView> {
    builtin_table() + config + env_layer(env_value)
}

fn env_rule(index: usize, piece: &str, pattern: &str) -> (r: Rule)
    ensures
        r@.id == "env_custom_"@ + decimal(index as nat),
        r@.strategy == Strategy::Substring(pattern@),
        r@.description == "Custom rule from env: "@ + piece@,
        r@.enabled,
{
    let mut id = "env_custom_".to_owned();
    let number = decimal_text(index);
    id.append(number.as_str());
    let mut description = "Custom rule from env: ".to_owned();
    description.append(piece);
    Rule {
        id,
        rule_type: RuleType::Substring { pattern: pattern.to_owned() },
        description,
        enabled: true,
    }
}

/// The rules of the environment override, read from the raw value of the
/// variable (`None` when it is not set). No escape exists for a literal `|`.
pub fn load_env_rules(value: Option<&str>) -> (r: Vec<Rule>)
    ensures
        rule_views(r@) == env_layer(value),
{
    let mut rules: Vec<Rule> = Vec::new();
    match value {
        None => {
            assert(rule_views(rules@) =~= Seq::<RuleView>::empty());
        },
        Some(v) => {
            let pieces = split_text(v, '|');
            let ghost ps = split_on(v@, '|');
            let mut i: usize = 0;
            assert(rule_views(rules@) =~= Seq::<RuleView>::empty());
            while i < pieces.len()
                invariant
                    i <= pieces.len(),
                    slice_texts(pieces@) == ps,
                    rule_views(rules@) == env_rules_upto(ps, i as nat),
                decreases pieces.len() - i,
            {
                let ghost before = rule_views(rules@);
                assert(ps[i as int] == pieces@[i as int]@);
                let pattern = trimmed(pieces[i]);
                if !pattern.is_empty() {
                    let rule = env_rule(i, pieces[i], pattern);
                    rules.push(rule);
                    assert(rule_views(rules@) =~= before.push(rule@));
                }
                i += 1;
            }
        },
    }
    rules
}

/// An ordered, immutable collection of rules drawn from the built-in table,
/// a user rules file and an environment override.
pub struct RuleEngine {
    rules: Vec<Rule>,
}

impl View for RuleEngine {
    type V = Seq<RuleView>;

    closed spec fn view(&self) -> Seq<RuleView> {
        rule_views(self.rules@)
    }
}

impl RuleEngine {
    /// An engine over the built-in rules, then `config_rules` (the rules file,
    /// empty when it is absent or unreadable), then the rules of the
    /// environment override whose raw value is `env_value`.
    pub fn new(config_rules: Vec<Rule>, env_value: Option<&str>) -> (r: Self)
        ensures
            r@ == layered(rule_views(config_rules@), env_value),
    {
        let mut rules = load_builtin_rules();
        let mut config_rules = config_rules;
        let mut env_rules = load_env_rules(env_value);
        let ghost b = rules@;
        let ghost c = config_rules@;
        let ghost e = env_rules@;
        rules.append(&mut config_rules);
        rules.append(&mut env_rules);
        assert(rules@ == b + c + e);
        assert(rule_views(b + c + e) =~= rule_views(b) + rule_views(c) + rule_views(e));
        RuleEngine { rules }
    }

    /// The position of the first rule, in load order, that flags `command`.
    /// Rules after it are not evaluated.
    pub fn first_match(&self, command: &str) -> (r: Option<usize>)
        ensures
            match r {
                Some(i) => is_first_match(self@, command@, i as int),
                None => !dangerous(self@, command@),
            },
    {
        let mut i: usize = 0;
        while i < self.rules.len()
            invariant
                i <= self.rules.len(),
                forall|j: int| 0 <= j < i ==> !#[trigger] self@[j].matches(command@),
            decreases self.rules.len() - i,
        {
            if self.rules[i].check(command) {
                return Some(i);
            }
            i += 1;
        }
        None
    }

    /// Whether any rule flags `command`.
    pub fn is_dangerous(&self, command: &str) -> (r: bool)
        ensures
            r == dangerous(self@, command@),
    {
        match self.first_match(command) {
            Some(_) => true,
            None => false,
        }
    }

    /// The number of enabled rules across all layers.
    pub fn active_rules_count(&self) -> (r: usize)
        ensures
            r == enabled_count(self@),
    {
        let mut n: usize = 0;
        let mut i: usize = 0;
        while i < self.rules.len()
            invariant
                i <= self.rules.len(),
                n <= i,
                n == enabled_count(self@.take(i as int)),
            decreases self.rules.len() - i,
        {
            assert(self@.take(i + 1).drop_last() =~= self@.take(i as int));
            if self.rules[i].enabled {
                n += 1;
            }
            i += 1;
        }
        assert(self@.take(i as int) =~= self@);
        n
    }
}

} // verus!

verus! {

/// A disabled rule flags no command, whatever its patterns.
pub proof fn disabled_rule_never_matches(rule: Rule, command: Seq<char>)
    requires
        !rule.enabled,
    ensures
        !rule@.matches(command),
{
}

/// An enabled `Substring` rule flags exactly the commands that contain its
/// pattern when case is ignored.
pub proof fn substring_rule_is_case_blind_containment(rule: Rule, command: Seq<char>)
    requires
        rule.enabled,
        rule.rule_type is Substring,
    ensures
        rule@.matches(command) == contains_ignoring_case(
            command,
            rule.rule_type->Substring_pattern@,
        ),
{
}

/// With no patterns, an enabled `ContainsAll` rule flags every command and a
/// `ContainsAny` rule flags none.
pub proof fn empty_pattern_lists(rule: Rule, command: Seq<char>)
    ensures
        rule.enabled && rule@.strategy == Strategy::ContainsAll(Seq::empty()) ==> rule@.matches(
            command,
        ),
        rule@.strategy == Strategy::ContainsAny(Seq::empty()) ==> !rule@.matches(command),
{
}

proof fn first_match_at_or_before(rules: Seq<RuleView>, command: Seq<char>, i: int)
    requires
        0 <= i < rules.len(),
        rules[i].matches(command),
    ensures
        exists|k: int| k <= i && #[trigger] is_first_match(rules, command, k),
    decreases i,
{
    if forall|j: int| 0 <= j < i ==> !#[trigger] rules[j].matches(command) {
        assert(is_first_match(rules, command, i));
    } else {
        let j = choose|j: int| 0 <= j < i && #[trigger] rules[j].matches(command);
        first_match_at_or_before(rules, command, j);
    }
}

/// When two rules both flag a command, the command is dangerous, and exactly
/// one rule is the first to flag it: one no later than either of the two.
pub proof fn first_match_is_determined(rules: Seq<RuleView>, command: Seq<char>, i: int, j: int)
    requires
        0 <= i < rules.len(),
        0 <= j < rules.len(),
        rules[i].matches(command),
        rules[j].matches(command),
    ensures
        dangerous(rules, command),
        exists|k: int| k <= i && k <= j && #[trigger] is_first_match(rules, command, k),
        forall|k1: int, k2: int|
            #[trigger] is_first_match(rules, command, k1) && #[trigger] is_first_match(
                rules,
                command,
                k2,
            ) ==> k1 == k2,
{
    let m = if i <= j {
        i
    } else {
        j
    };
    first_match_at_or_before(rules, command, m);
    assert forall|k1: int, k2: int|
        #[trigger] is_first_match(rules, command, k1) && #[trigger] is_first_match(
            rules,
            command,
            k2,
        ) implies k1 == k2 by {
        if k1 < k2 {
            assert(rules[k1].matches(command));
        } else if k2 < k1 {
            assert(rules[k2].matches(command));
        }
    }
}

/// Optional layers that contribute no rules (no rules file, no override
/// variable, or one whose pieces are all blank) leave every decision to the
/// built-in table.
pub proof fn empty_layers_keep_builtin_decisions(
    config: Seq<RuleView>,
    env_value: Option<&str>,
    command: Seq<char>,
)
    requires
        config.len() == 0,
        env_layer(env_value).len() == 0,
    ensures
        layered(config, env_value) == builtin_table(),
        dangerous(layered(config, env_value), command) == dangerous(builtin_table(), command),
{
    assert(layered(config, env_value) =~= builtin_table());
}

/// The optional layers only add rules: whatever the built-in table flags
/// stays flagged, whatever the rules file and the override hold.
pub proof fn layers_never_unblock_builtin(
    config: Seq<RuleView>,
    env_value: Option<&str>,
    command: Seq<char>,
)
    requires
        dangerous(builtin_table(), command),
    ensures
        dangerous(layered(config, env_value), command),
{
    let i = choose|i: int| 0 <= i < builtin_table().len() && #[trigger] builtin_table()[i].matches(
        command,
    );
    assert(layered(config, env_value)[i] == builtin_table()[i]);
}

proof fn env_rules_come_from_pieces(pieces: Seq<Seq<char>>, n: nat, i: int)
    requires
        0 <= i < env_rules_upto(pieces, n).len(),
    ensures
        exists|k: int|
            0 <= k < n && trim_of(pieces[k]).len() > 0 && env_rules_upto(pieces, n)[i]
                == #[trigger] env_rule_view(k as nat, pieces[k]),
    decreases n,
{
    let earlier = env_rules_upto(pieces, (n - 1) as nat);
    if i < earlier.len() {
        env_rules_come_from_pieces(pieces, (n - 1) as nat, i);
        let k = choose|k: int|
            0 <= k < n - 1 && trim_of(pieces[k]).len() > 0 && earlier[i]
                == #[trigger] env_rule_view(k as nat, pieces[k]);
        assert(env_rules_upto(pieces, n)[i] == env_rule_view(k as nat, pieces[k]));
    } else {
        assert(env_rules_upto(pieces, n)[i] == env_rule_view((n - 1) as nat, pieces[n - 1]));
    }
}

/// A pattern as the environment override leaves it: not empty, with no
/// white space at either end, and without `|`.
pub open spec fn is_clean_pattern(p: Seq<char>) -> bool {
    &&& p.len() > 0
    &&& trim_of(p) == p
    &&& !p.contains('|')
}

/// Every rule of the environment layer is an enabled `Substring` rule whose
/// pattern is clean.
pub proof fn env_patterns_are_clean(value: &str, i: int)
    requires
        0 <= i < env_layer(Some(value)).len(),
    ensures
        env_layer(Some(value))[i].enabled,
        env_layer(Some(value))[i].strategy is Substring,
        is_clean_pattern(env_layer(Some(value))[i].strategy->Substring_0),
{
    let pieces = split_on(value@, '|');
    env_rules_come_from_pieces(pieces, pieces.len(), i);
    let k = choose|k: int|
        0 <= k < pieces.len() && trim_of(pieces[k]).len() > 0 && env_layer(Some(value))[i]
            == #[trigger] env_rule_view(k as nat, pieces[k]);
    split_pieces_lack_sep(value@, '|');
    assert(!pieces[k].contains('|'));
    trim_of_is_trimmed_part(pieces[k], '|');
}

/// Lower-casing makes one word of `PASSWORD`, `password` and `PaSsWoRd`.
proof fn password_spellings_fold_alike()
    ensures
        case_folded("PASSWORD"@) == "password"@,
        case_folded("password"@) == "password"@,
        case_folded("PaSsWoRd"@) == "password"@,
{
    reveal_strlit("PASSWORD");
    reveal_strlit("password");
    reveal_strlit("PaSsWoRd");
    assert(case_folded("PASSWORD"@) =~= "password"@);
    assert(case_folded("password"@) =~= "password"@);
    assert(case_folded("PaSsWoRd"@) =~= "password"@);
}

/// An enabled rule whose one pattern is `password`, under any strategy,
/// flags `PASSWORD`, `password` and `PaSsWoRd` alike: it flags all three.
pub proof fn password_spellings_agree(rule: Rule)
    requires
        rule.enabled,
        rule@.strategy == Strategy::Substring("password"@) || rule@.strategy
            == Strategy::ContainsAll(seq!["password"@]) || rule@.strategy == Strategy::ContainsAny(
            seq!["password"@],
        ),
    ensures
        rule@.matches("PASSWORD"@) == rule@.matches("password"@),
        rule@.matches("PaSsWoRd"@) == rule@.matches("password"@),
        rule@.matches("password"@),
{
    password_spellings_fold_alike();
    let w = "password"@;
    assert(w.subrange(0, w.len() as int) =~= w);
    assert(occurs_at(w, w, 0));
    assert(seq_contains(w, w));
    assert(lowered_all(seq![w]) =~= seq![w]);
    assert(seq![w][0] == w);
}

} // verus!
