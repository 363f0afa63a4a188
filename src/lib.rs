//! Named HTTP request templates ("quests") and the engine that resolves them:
//! layered variables, headers and query parameters merged with last-write-wins,
//! values read from an environment snapshot, and `${NAME}` placeholders
//! substituted into the url.

pub mod cli;
pub mod config;
pub mod error;
pub mod merge;
pub mod quest;
pub mod template;
pub mod wire;

pub use cli::{parse_key_val, print_version};
pub use config::{env_get, ConfiguredKeyValue};
pub use error::QuestError;
pub use quest::{Method, Quest, QuestFile, RequestBody, ResolvedRequest};
pub use template::{check_substituted, has_placeholder, substitute};
