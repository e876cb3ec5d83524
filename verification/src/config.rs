//! Settings of the server.
use crate::scan::decimal;
use crate::text::decimal_digits;
use vstd::prelude::*;
use vstd::string::StringExecFns;

verus! {

/// Keyboard shortcuts of the editor.
#[derive(Debug)]
pub struct ShortcutsConfig {
    /// The keys that save a note.
    pub save: String,
}

/// The settings that a settings file may hold.
#[derive(Debug)]
pub struct Config {
    pub shortcuts: ShortcutsConfig,
}

/// The keys that save a note where nothing else is set.
pub fn default_save_shortcut() -> (r: String)
    ensures
        r@ == "Ctrl+Enter"@,
{
    "Ctrl+Enter".to_string()
}

impl Default for ShortcutsConfig {
    fn default() -> (r: Self)
        ensures
            r.save@ == "Ctrl+Enter"@,
    {
        ShortcutsConfig { save: default_save_shortcut() }
    }
}

impl Default for Config {
    fn default() -> (r: Self)
        ensures
            r.shortcuts.save@ == "Ctrl+Enter"@,
    {
        Config { shortcuts: ShortcutsConfig::default() }
    }
}

/// The settings in force: those of the settings file, or the defaults where
/// there is none that can be read.
pub fn config_or_default(read: Option<Config>) -> (r: Config)
    ensures
        match read {
            Some(config) => r == config,
            None => r.shortcuts.save@ == "Ctrl+Enter"@,
        },
{
    match read {
        Some(config) => config,
        None => Config::default(),
    }
}

/// Does the word on the command line ask for read-only mode?
pub fn is_readonly_mode(mode: Option<&str>) -> (r: bool)
    ensures
        r == match mode {
            Some(word) => word@ == "readonly"@,
            None => false,
        },
{
    match mode {
        Some(word) => word.to_string() == "readonly".to_string(),
        None => false,
    }
}

/// The address to listen on.
pub fn server_address(listen: &str, port: u16) -> (r: String)
    ensures
        r@ == listen@ + ":"@ + decimal_digits(port as nat),
{
    let mut r = listen.to_string();
    r.append(":");
    let n = decimal(port as u64);
    r.append(n.as_str());
    r
}

} // verus!
