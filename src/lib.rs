//! Pre-execution gate that decides whether a shell command is likely to
//! exfiltrate locally stored secrets, plus the small pieces of secret
//! bookkeeping that surround it.

pub mod config;
pub mod keychain;
pub mod rules;
pub mod text;

pub use config::{mask_value, secrets_json, shell_export_line, Secret, Secrets};
pub use keychain::{add_key, key_list_text, parse_key_list, KeychainManager};
pub use rules::{Rule, RuleEngine, RuleType};
