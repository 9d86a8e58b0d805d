//! Secrets read from `.env` text, and the selections made of them.

use crate::text::{
    chars_of, contains_text, case_folded, lowercase, seq_contains, slice_texts, split_on, split_text,
    string_texts, trim_of, trimmed,
};
use std::collections::HashMap;
use vstd::string::StringSliceAdditionalSpecFns;
use vstd::utf8::{decode_utf8, is_char_boundary};
use vstd::prelude::*;
use vstd::std_specs::hash::{builds_valid_hashers, obeys_key_model};

verus! {

/// One `KEY=VALUE` entry.
#[derive(Debug, Clone)]
pub struct Secret {
    pub key: String,
    pub value: String,
    pub sensitive: bool,
}

/// The mathematical content of a [`Secret`].
pub struct SecretView {
    pub key: Seq<char>,
    pub value: Seq<char>,
    pub sensitive: bool,
}

impl View for Secret {
    type V = SecretView;

    open spec fn view(&self) -> SecretView {
        SecretView { key: self.key@, value: self.value@, sensitive: self.sensitive }
    }
}

/// The content of each secret, in order.
pub open spec fn secret_views(secrets: Seq<Secret>) -> Seq<SecretView> {
    secrets.map_values(|s: Secret| s@)
}

/// The entries of one `.env` file, in file order.
pub struct Secrets {
    pub secrets: Vec<Secret>,
}

/// Words whose presence in a key, ignoring case, marks its value as sensitive.
pub open spec fn sensitive_keywords() -> Seq<Seq<char>> {
    seq![
        "password"@,
        "secret"@,
        "key"@,
        "token"@,
        "api_key"@,
        "private"@,
        "credential"@,
        "auth"@,
        "oauth"@,
        "jwt"@,
        "encryption"@,
        "cipher"@,
        "hash"@,
        "salt"@,
    ]
}

/// The lower-cased key contains one of the sensitive keywords.
pub open spec fn is_sensitive_key(key: Seq<char>) -> bool {
    exists|i: int|
        0 <= i < sensitive_keywords().len() && #[trigger] seq_contains(
            case_folded(key),
            sensitive_keywords()[i],
        )
}

/// `p` is the position of the first `=` in `t`.
pub open spec fn is_first_eq(t: Seq<char>, p: int) -> bool {
    &&& 0 <= p < t.len()
    &&& t[p] == '='
    &&& forall|q: int| 0 <= q < p ==> t[q] != '='
}

/// The entry that one line holds: none for a blank line, a `#` comment or a
/// line without `=`; otherwise the trimmed text before the first `=` as key
/// and the trimmed text after it as value.
pub open spec fn entry_of_line(line: Seq<char>) -> Option<SecretView> {
    let t = trim_of(line);
    if t.len() == 0 || t[0] == '#' {
        None
    } else if exists|p: int| is_first_eq(t, p) {
        let p = choose|p: int| is_first_eq(t, p);
        let key = trim_of(t.subrange(0, p));
        Some(
            SecretView {
                key,
                value: trim_of(t.subrange(p + 1, t.len() as int)),
                sensitive: is_sensitive_key(key),
            },
        )
    } else {
        None
    }
}

/// The entries of the first `n` lines.
pub open spec fn entries_upto(lines: Seq<Seq<char>>, n: nat) -> Seq<SecretView>
    decreases n,
{
    if n == 0 {
        Seq::empty()
    } else {
        let earlier = entries_upto(lines, (n - 1) as nat);
        match entry_of_line(lines[n - 1]) {
            Some(e) => earlier.push(e),
            None => earlier,
        }
    }
}

/// The entries of `.env` text, line by line. A `\r` before a line break is
/// white space and goes with the trimming.
pub open spec fn parse_env(content: Seq<char>) -> Seq<SecretView> {
    entries_upto(split_on(content, '\n'), split_on(content, '\n').len())
}

fn keyword_list() -> (r: Vec<&'static str>)
    ensures
        slice_texts(r@) == sensitive_keywords(),
{
    let r = vec![
        "password",
        "secret",
        "key",
        "token",
        "api_key",
        "private",
        "credential",
        "auth",
        "oauth",
        "jwt",
        "encryption",
        "cipher",
        "hash",
        "salt",
    ];
    assert(slice_texts(r@) =~= sensitive_keywords());
    r
}

/// Whether `key`, lower-cased, contains one of the sensitive keywords.
pub fn has_sensitive_keyword(key: &str) -> (r: bool)
    ensures
        r == is_sensitive_key(key@),
{
    let key_lower = lowercase(key);
    let keywords = keyword_list();
    let mut i: usize = 0;
    while i < keywords.len()
        invariant
            i <= keywords.len(),
            slice_texts(keywords@) == sensitive_keywords(),
            key_lower@ == case_folded(key@),
            forall|k: int|
                0 <= k < i ==> !#[trigger] seq_contains(case_folded(key@), sensitive_keywords()[k]),
        decreases keywords.len() - i,
    {
        assert(sensitive_keywords()[i as int] == keywords@[i as int]@);
        if contains_text(key_lower.as_str(), keywords[i]) {
            return true;
        }
        i += 1;
    }
    false
}

/// The entry that one line of `.env` text holds, if any.
pub fn parse_line(line: &str) -> (r: Option<Secret>)
    ensures
        match r {
            Some(s) => entry_of_line(line@) == Some(s@),
            None => entry_of_line(line@) is None,
        },
{
    let t = trimmed(line);
    let chars = chars_of(t);
    if chars.len() == 0 || chars[0] == '#' {
        return None;
    }
    let mut p: usize = 0;
    while p < chars.len() && chars[p] != '='
        invariant
            p <= chars.len(),
            chars@ == t@,
            forall|q: int| 0 <= q < p ==> chars@[q] != '=',
        decreases chars.len() - p,
    {
        p += 1;
    }
    if p == chars.len() {
        assert(!exists|q: int| is_first_eq(t@, q));
        return None;
    }
    assert(is_first_eq(t@, p as int));
    assert forall|q: int| is_first_eq(t@, q) implies q == p by {
        if q < p {
            assert(t@[q] != '=');
        } else if p < q {
            assert(t@[p as int] != '=');
        }
    }
    let key = trimmed(t.substring_char(0, p));
    let value = trimmed(t.substring_char(p + 1, chars.len()));
    let sensitive = has_sensitive_keyword(key);
    Some(Secret { key: key.to_owned(), value: value.to_owned(), sensitive })
}

/// The secrets of `ps`, in order, whose key is one of `allowed`.
pub open spec fn listed_upto(ps: Seq<SecretView>, allowed: Seq<Seq<char>>, n: nat) -> Seq<
    SecretView,
>
    decreases n,
{
    if n == 0 {
        Seq::empty()
    } else {
        let earlier = listed_upto(ps, allowed, (n - 1) as nat);
        if allowed.contains(ps[n - 1].key) {
            earlier.push(ps[n - 1])
        } else {
            earlier
        }
    }
}

/// The secrets of `ps`, in order, that are marked sensitive.
pub open spec fn sensitive_upto(ps: Seq<SecretView>, n: nat) -> Seq<SecretView>
    decreases n,
{
    if n == 0 {
        Seq::empty()
    } else {
        let earlier = sensitive_upto(ps, (n - 1) as nat);
        if ps[n - 1].sensitive {
            earlier.push(ps[n - 1])
        } else {
            earlier
        }
    }
}

/// The key names of a comma-separated filter, each trimmed.
pub open spec fn filter_names(filter: Seq<char>) -> Seq<Seq<char>> {
    split_on(filter, ',').map_values(|p: Seq<char>| trim_of(p))
}

/// The key-to-value map of `ps`; a later entry for a key replaces an
/// earlier one.
pub open spec fn key_map(ps: Seq<Secret>) -> Map<String, String>
    decreases ps.len(),
{
    if ps.len() == 0 {
        Map::empty()
    } else {
        key_map(ps.drop_last()).insert(ps.last().key, ps.last().value)
    }
}

/// The bytes at both ends of `bytes` that a mask shows fall on character
/// boundaries: after the second byte and before the last two.
pub open spec fn mask_cuts_fit(bytes: Seq<u8>) -> bool {
    is_char_boundary(bytes, 2) && is_char_boundary(bytes, bytes.len() - 2)
}

/// How a value is shown for confirmation, measured in UTF-8 bytes: `****`
/// when it has four bytes or fewer, else the text of its first two bytes and
/// of its last two bytes around `...`. Where either cut would fall inside a
/// character, nothing of the value is shown: `****`.
pub fn mask_value(value: &str) -> (r: String)
    ensures
        value.spec_bytes().len() <= 4 ==> r@ == "****"@,
        value.spec_bytes().len() > 4 && mask_cuts_fit(value.spec_bytes()) ==> r@ == decode_utf8(
            value.spec_bytes().subrange(0, 2),
        ) + "..."@ + decode_utf8(
            value.spec_bytes().subrange(
                value.spec_bytes().len() - 2,
                value.spec_bytes().len() as int,
            ),
        ),
        value.spec_bytes().len() > 4 && !mask_cuts_fit(value.spec_bytes()) ==> r@ == "****"@,
{
    broadcast use vstd::utf8::encode_utf8_decode_utf8;

    let n = value.as_bytes().len();
    if n <= 4 {
        return "****".to_owned();
    }
    let head_fits = value.is_char_boundary(2);
    let tail_fits = value.is_char_boundary(n - 2);
    assert(head_fits && tail_fits <==> mask_cuts_fit(value.spec_bytes()));
    if !head_fits || !tail_fits {
        return "****".to_owned();
    }
    let (head, _) = value.split_at(2);
    let (_, tail) = value.split_at(n - 2);
    let mut r = head.to_owned();
    r.append("...");
    r.append(tail);
    assert(decode_utf8(head.spec_bytes()) == head@);
    assert(decode_utf8(tail.spec_bytes()) == tail@);
    r
}

/// `value` with each single quote written as `'\\''`, so that it can stand
/// between single quotes in a POSIX shell.
pub open spec fn shell_quoted_body(value: Seq<char>) -> Seq<char>
    decreases value.len(),
{
    if value.len() == 0 {
        Seq::empty()
    } else {
        shell_quoted_body(value.drop_last()) + if value.last() == '\'' {
            "'\\''"@
        } else {
            seq![value.last()]
        }
    }
}

/// The shell line that exports `key` with the value `value`, single-quoted:
/// `export KEY='VALUE'`.
pub fn shell_export_line(key: &str, value: &str) -> (r: String)
    ensures
        r@ == "export "@ + key@ + "='"@ + shell_quoted_body(value@) + "'"@,
{
    let chars = chars_of(value);
    let mut r = "export ".to_owned();
    r.append(key);
    r.append("='");
    let ghost head = r@;
    let mut k: usize = 0;
    while k < chars.len()
        invariant
            k <= chars.len(),
            chars@ == value@,
            r@ == head + shell_quoted_body(value@.subrange(0, k as int)),
        decreases chars.len() - k,
    {
        assert(value@.subrange(0, k + 1).drop_last() =~= value@.subrange(0, k as int));
        if chars[k] == '\'' {
            r.append("'\\''");
        } else {
            r.append(value.substring_char(k, k + 1));
        }
        assert(r@ =~= head + shell_quoted_body(value@.subrange(0, k + 1)));
        k += 1;
    }
    assert(value@.subrange(0, k as int) =~= value@);
    r.append("'");
    r
}

/// The characters of each key and value.
pub open spec fn pair_texts(pairs: Seq<(String, String)>) -> Seq<(Seq<char>, Seq<char>)> {
    pairs.map_values(|p: (String, String)| (p.0@, p.1@))
}

/// The pretty-printed JSON object that maps each key to its string value,
/// as `serde_json` writes it.
pub uninterp spec fn json_object_text(pairs: Seq<(Seq<char>, Seq<char>)>) -> Seq<char>;

/// Relies on `serde_json::to_string_pretty` of a `serde_json::Map` holding
/// each pair as a string value: the text depends on the pairs alone, and it
/// fails only for a `Serialize` impl that fails or a map with non-string keys,
/// neither of which a map of strings has.
#[verifier::external_body]
fn pretty_json_object(pairs: &Vec<(String, String)>) -> (r: Option<String>)
    ensures
        r is Some,
        r->Some_0@ == json_object_text(pair_texts(pairs@)),
{
    let mut obj = serde_json::Map::new();
    for (key, value) in pairs {
        obj.insert(key.clone(), serde_json::Value::String(value.clone()));
    }
    serde_json::to_string_pretty(&serde_json::Value::Object(obj)).ok()
}

/// The secrets as one pretty-printed JSON object of strings.
pub fn secrets_json(pairs: &Vec<(String, String)>) -> (r: String)
    ensures
        r@ == json_object_text(pair_texts(pairs@)),
{
    match pretty_json_object(pairs) {
        Some(text) => text,
        None => String::new(),
    }
}

fn copy_secret(s: &Secret) -> (r: Secret)
    ensures
        r@ == s@,
{
    Secret { key: s.key.clone(), value: s.value.clone(), sensitive: s.sensitive }
}

fn is_listed(key: &String, allowed: &Vec<String>) -> (r: bool)
    ensures
        r == string_texts(allowed@).contains(key@),
{
    let mut i: usize = 0;
    while i < allowed.len()
        invariant
            i <= allowed.len(),
            forall|k: int| 0 <= k < i ==> allowed@[k]@ != key@,
        decreases allowed.len() - i,
    {
        if allowed[i] == *key {
            assert(string_texts(allowed@)[i as int] == key@);
            return true;
        }
        i += 1;
    }
    assert(!string_texts(allowed@).contains(key@)) by {
        if string_texts(allowed@).contains(key@) {
            let k = choose|k: int| 0 <= k < allowed@.len() && string_texts(allowed@)[k] == key@;
            assert(allowed@[k]@ == key@);
        }
    }
    false
}

impl Secrets {
    /// The entries of `.env` text: blank lines and `#` comments are skipped,
    /// as are lines without `=`; a key is sensitive when it contains, ignoring
    /// case, one of the sensitive keywords.
    pub fn from_env_content(content: &str) -> (r: Secrets)
        ensures
            secret_views(r.secrets@) == parse_env(content@),
    {
        let lines = split_text(content, '\n');
        let ghost ls = split_on(content@, '\n');
        let mut secrets: Vec<Secret> = Vec::new();
        let mut i: usize = 0;
        assert(secret_views(secrets@) =~= Seq::<SecretView>::empty());
        while i < lines.len()
            invariant
                i <= lines.len(),
                slice_texts(lines@) == ls,
                secret_views(secrets@) == entries_upto(ls, i as nat),
            decreases lines.len() - i,
        {
            let ghost before = secret_views(secrets@);
            assert(ls[i as int] == lines@[i as int]@);
            match parse_line(lines[i]) {
                Some(s) => {
                    secrets.push(s);
                    assert(secret_views(secrets@) =~= before.push(s@));
                },
                None => {},
            }
            i += 1;
        }
        Secrets { secrets }
    }

    /// Keeps only the secrets whose key is one of the comma-separated names
    /// of `keys`, each name trimmed; with no filter every secret stays.
    pub fn filter_by_keys(self, keys: Option<&str>) -> (r: Secrets)
        ensures
            match keys {
                None => secret_views(r.secrets@) == secret_views(self.secrets@),
                Some(f) => secret_views(r.secrets@) == listed_upto(
                    secret_views(self.secrets@),
                    filter_names(f@),
                    self.secrets@.len(),
                ),
            },
    {
        match keys {
            None => self,
            Some(f) => {
                let pieces = split_text(f, ',');
                let mut allowed: Vec<String> = Vec::new();
                let mut j: usize = 0;
                while j < pieces.len()
                    invariant
                        j <= pieces.len(),
                        slice_texts(pieces@) == split_on(f@, ','),
                        string_texts(allowed@) == filter_names(f@).take(j as int),
                    decreases pieces.len() - j,
                {
                    let ghost before = string_texts(allowed@);
                    assert(split_on(f@, ',')[j as int] == pieces@[j as int]@);
                    let name = trimmed(pieces[j]);
                    assert(filter_names(f@)[j as int] == name@);
                    allowed.push(name.to_owned());
                    assert(string_texts(allowed@) =~= before.push(name@));
                    assert(filter_names(f@).len() == pieces.len());
                    assert(filter_names(f@).take(j + 1) =~= filter_names(f@).take(j as int).push(
                        name@,
                    ));
                    j += 1;
                }
                assert(filter_names(f@).take(j as int) =~= filter_names(f@));
                let ghost ps = secret_views(self.secrets@);
                let mut kept: Vec<Secret> = Vec::new();
                let mut i: usize = 0;
                assert(secret_views(kept@) =~= Seq::<SecretView>::empty());
                while i < self.secrets.len()
                    invariant
                        i <= self.secrets.len(),
                        ps == secret_views(self.secrets@),
                        string_texts(allowed@) == filter_names(f@),
                        secret_views(kept@) == listed_upto(ps, filter_names(f@), i as nat),
                    decreases self.secrets.len() - i,
                {
                    let ghost before = secret_views(kept@);
                    if is_listed(&self.secrets[i].key, &allowed) {
                        let s = copy_secret(&self.secrets[i]);
                        kept.push(s);
                        assert(secret_views(kept@) =~= before.push(s@));
                    }
                    i += 1;
                }
                Secrets { secrets: kept }
            },
        }
    }

    /// The sensitive secrets, in order.
    pub fn sensitive_only(&self) -> (r: Vec<Secret>)
        ensures
            secret_views(r@) == sensitive_upto(
                secret_views(self.secrets@),
                self.secrets@.len(),
            ),
    {
        let ghost ps = secret_views(self.secrets@);
        let mut kept: Vec<Secret> = Vec::new();
        let mut i: usize = 0;
        assert(secret_views(kept@) =~= Seq::<SecretView>::empty());
        while i < self.secrets.len()
            invariant
                i <= self.secrets.len(),
                ps == secret_views(self.secrets@),
                secret_views(kept@) == sensitive_upto(ps, i as nat),
            decreases self.secrets.len() - i,
        {
            let ghost before = secret_views(kept@);
            if self.secrets[i].sensitive {
                let s = copy_secret(&self.secrets[i]);
                kept.push(s);
                assert(secret_views(kept@) =~= before.push(s@));
            }
            i += 1;
        }
        kept
    }

    /// Each key with its value; a later entry for a key replaces an earlier
    /// one. What is known of the map rests on `String` obeying the hash map's
    /// key model.
    pub fn to_map(&self) -> (r: HashMap<String, String>)
        ensures
            obeys_key_model::<String>() && builds_valid_hashers::<
                std::collections::hash_map::RandomState,
            >() ==> r@ == key_map(self.secrets@),
    {
        let mut m: HashMap<String, String> = HashMap::new();
        let mut i: usize = 0;
        while i < self.secrets.len()
            invariant
                i <= self.secrets.len(),
                obeys_key_model::<String>() && builds_valid_hashers::<
                    std::collections::hash_map::RandomState,
                >() ==> m@ == key_map(self.secrets@.take(i as int)),
            decreases self.secrets.len() - i,
        {
            assert(self.secrets@.take(i + 1).drop_last() =~= self.secrets@.take(i as int));
            m.insert(self.secrets[i].key.clone(), self.secrets[i].value.clone());
            i += 1;
        }
        assert(self.secrets@.take(i as int) =~= self.secrets@);
        m
    }
}

} // verus!
