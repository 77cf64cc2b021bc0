//! The agent's configuration and where its file is found.

use vstd::prelude::*;

verus! {

/// Everything the configuration file holds.
pub struct Config {
    pub llm: LlmConfig,
    pub agent: AgentConfig,
}

/// How to reach the model's service.
pub struct LlmConfig {
    pub api_key: String,
    pub api_base: String,
}

/// Which model to talk to, and how to instruct it.
pub struct AgentConfig {
    pub model: String,
    pub system_prompt: String,
}

/// Why no configuration file was found.
#[derive(Clone, Debug, PartialEq, Eq)]
pub enum ConfigPathError {
    /// There is no configuration file in the working directory, and `HOME`
    /// is not set.
    HomeNotSet,
    /// There is a configuration file neither in the working directory nor in
    /// the home directory.
    NotFound,
}

/// The configuration file of the working directory.
pub open spec fn local_config_path() -> Seq<char> {
    ".rcode/config.toml"@
}

/// The configuration file of the home directory `home`.
pub open spec fn global_config_path(home: Seq<char>) -> Seq<char> {
    home + "/.rcode/config.toml"@
}

/// `file_exists` can answer `answer` for the path `path`.
pub open spec fn exists_answers<F: Fn(&str) -> bool>(file_exists: F, path: Seq<char>, answer: bool) -> bool {
    exists|s: &str| s@ == path && call_ensures(file_exists, (s,), answer)
}

impl ConfigPathError {
    /// The message shown for the error.
    pub fn message(&self) -> (r: String)
        ensures
            *self == ConfigPathError::HomeNotSet ==> r@ == "environment variable not found"@,
            *self == ConfigPathError::NotFound ==> r@ == "Failed to find .rcode/config.toml. Please create it in current directory or at ~/.rcode/config.toml as global"@,
    {
        match self {
            ConfigPathError::HomeNotSet => "environment variable not found".to_owned(),
            ConfigPathError::NotFound => "Failed to find .rcode/config.toml. Please create it in current directory or at ~/.rcode/config.toml as global".to_owned(),
        }
    }
}

/// Finds the configuration file: the one of the working directory when
/// `file_exists` says it is there, else the one of the home directory `home` when
/// `file_exists` says that one is there. `home` is the value of `HOME`, `None`
/// when it is not set.
pub fn resolve_config_path<F: Fn(&str) -> bool>(home: Option<&str>, file_exists: F) -> (r: Result<String, ConfigPathError>)
    requires
        forall|s: &str| file_exists.requires((s,)),
    ensures
        r matches Ok(p) ==> {
            ||| p@ == local_config_path() && exists_answers(file_exists, local_config_path(), true)
            ||| home matches Some(h) && p@ == global_config_path(h@)
                && exists_answers(file_exists, local_config_path(), false)
                && exists_answers(file_exists, global_config_path(h@), true)
        },
        r matches Err(e) ==> exists_answers(file_exists, local_config_path(), false) && match e {
            ConfigPathError::HomeNotSet => home is None,
            ConfigPathError::NotFound => home matches Some(h)
                && exists_answers(file_exists, global_config_path(h@), false),
        },
{
    let local = ".rcode/config.toml";
    if file_exists(local) {
        return Ok(local.to_owned());
    }
    match home {
        None => Err(ConfigPathError::HomeNotSet),
        Some(h) => {
            let mut global = h.to_owned();
            global.append("/.rcode/config.toml");
            if file_exists(global.as_str()) {
                Ok(global)
            } else {
                Err(ConfigPathError::NotFound)
            }
        },
    }
}

} // verus!
