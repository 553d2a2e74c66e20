//! The user's settings, read from `config.toml`.
use vstd::prelude::*;
use vstd::string::*;

use crate::search::{ascii_lowercase, make_ascii_lowercase};
use crate::text::str_equals;
use crate::toml_doc::{
    entries_lookup,
    parse_toml_spec,
    parse_toml_table,
    table_get,
    table_view,
    TomlItem,
    TomlValueView,
};

verus! {

/// How the launcher window takes the keyboard.
#[derive(Clone, Copy, PartialEq, Eq, Structural, Debug)]
pub enum KeyboardMode {
    Exclusive,
    OnDemand,
}

/// The keyboard mode that a setting names, regardless of ASCII case.
pub open spec fn parse_keyboard_mode_spec(s: Seq<char>) -> Option<KeyboardMode> {
    let l = ascii_lowercase(s);
    if l == seq!['e', 'x', 'c', 'l', 'u', 's', 'i', 'v', 'e'] {
        Some(KeyboardMode::Exclusive)
    } else if l == seq!['o', 'n', '_', 'd', 'e', 'm', 'a', 'n', 'd'] {
        Some(KeyboardMode::OnDemand)
    } else {
        None
    }
}

impl Default for KeyboardMode {
    fn default() -> (m: Self)
        ensures
            m == KeyboardMode::Exclusive,
    {
        KeyboardMode::Exclusive
    }
}

impl KeyboardMode {
    /// Reads `exclusive` or `on_demand`, in any case; no other text names a
    /// keyboard mode.
    pub fn parse(s: &str) -> (m: KeyboardMode)
        requires
            parse_keyboard_mode_spec(s@) is Some,
        ensures
            m == parse_keyboard_mode_spec(s@)->0,
    {
        KeyboardMode::try_parse(s).unwrap()
    }

    /// The keyboard mode that `s` names as `parse` reads it, or `None` when
    /// it names none.
    pub fn try_parse(s: &str) -> (m: Option<KeyboardMode>)
        ensures
            m == parse_keyboard_mode_spec(s@),
    {
        let mut lower = String::from_str(s);
        make_ascii_lowercase(&mut lower);
        proof {
            reveal_strlit("exclusive");
            reveal_strlit("on_demand");
            assert("exclusive"@ =~= seq!['e', 'x', 'c', 'l', 'u', 's', 'i', 'v', 'e']);
            assert("on_demand"@ =~= seq!['o', 'n', '_', 'd', 'e', 'm', 'a', 'n', 'd']);
        }
        if str_equals(lower.as_str(), "exclusive") {
            Some(KeyboardMode::Exclusive)
        } else if str_equals(lower.as_str(), "on_demand") {
            Some(KeyboardMode::OnDemand)
        } else {
            None
        }
    }
}

/// The settings: where screenshots go and how the keyboard is taken.
#[derive(Debug)]
pub struct UserConfig {
    pub screenshots_destination_directory: String,
    pub keyboard_mode: KeyboardMode,
}

/// Key of the screenshot directory setting.
pub open spec fn screenshots_key() -> Seq<char> {
    seq![
        's', 'c', 'r', 'e', 'e', 'n', 's', 'h', 'o', 't', 's', '_', 'd', 'e', 's', 't', 'i', 'n',
        'a', 't', 'i', 'o', 'n', '_', 'd', 'i', 'r', 'e', 'c', 't', 'o', 'r', 'y',
    ]
}

/// Key of the keyboard mode setting.
pub open spec fn keyboard_mode_key() -> Seq<char> {
    seq!['k', 'e', 'y', 'b', 'o', 'a', 'r', 'd', '_', 'm', 'o', 'd', 'e']
}

/// The settings that a configuration table gives, starting from the
/// defaults: both keys must be present; a value that is not a string keeps
/// the default; a keyboard mode must be a known one.
pub open spec fn config_from_view(
    es: Seq<(Seq<char>, TomlValueView)>,
    default_dir: Seq<char>,
    default_mode: KeyboardMode,
) -> Option<(Seq<char>, KeyboardMode)> {
    let dir = match entries_lookup(es, screenshots_key()) {
        None => None,
        Some(TomlValueView::Str(s)) => Some(s),
        Some(_) => Some(default_dir),
    };
    let mode = match entries_lookup(es, keyboard_mode_key()) {
        None => None,
        Some(TomlValueView::Str(s)) => parse_keyboard_mode_spec(s),
        Some(_) => Some(default_mode),
    };
    if dir is Some && mode is Some {
        Some((dir->0, mode->0))
    } else {
        None
    }
}

/// The text of a configuration file, when it could be read.
pub open spec fn contents_view(contents: Option<&str>) -> Option<Seq<char>> {
    match contents {
        Some(text) => Some(text@),
        None => None,
    }
}

/// Settings can be loaded from `contents`: it could not be read, is not
/// TOML, or gives both keys with a known keyboard mode.
pub open spec fn config_loads(
    contents: Option<Seq<char>>,
    default_dir: Seq<char>,
    default_mode: KeyboardMode,
) -> bool {
    match contents {
        None => true,
        Some(text) => match parse_toml_spec(text) {
            None => true,
            Some(es) => config_from_view(es, default_dir, default_mode) is Some,
        },
    }
}

impl UserConfig {
    /// The directory and mode of the settings.
    pub open spec fn config_view(&self) -> (Seq<char>, KeyboardMode) {
        (self.screenshots_destination_directory@, self.keyboard_mode)
    }

    /// The settings given by a configuration table over `default_config`;
    /// `None` when a key is missing or the keyboard mode is unknown.
    pub fn from_table(table: &toml::Table, default_config: UserConfig) -> (config: Option<UserConfig>)
        ensures
            match config {
                Some(c) => config_from_view(
                    table_view(*table),
                    default_config.screenshots_destination_directory@,
                    default_config.keyboard_mode,
                ) == Some(c.config_view()),
                None => config_from_view(
                    table_view(*table),
                    default_config.screenshots_destination_directory@,
                    default_config.keyboard_mode,
                ) is None,
            },
    {
        proof {
            reveal_strlit("screenshots_destination_directory");
            reveal_strlit("keyboard_mode");
            assert("screenshots_destination_directory"@ =~= screenshots_key());
            assert("keyboard_mode"@ =~= keyboard_mode_key());
        }
        let screenshots_destination_directory = match table_get(
            table,
            "screenshots_destination_directory",
        ) {
            None => {
                return None;
            },
            Some(TomlItem::Str(path_string)) => path_string,
            Some(_) => default_config.screenshots_destination_directory,
        };
        let keyboard_mode = match table_get(table, "keyboard_mode") {
            None => {
                return None;
            },
            Some(TomlItem::Str(mode)) => match KeyboardMode::try_parse(mode.as_str()) {
                Some(m) => m,
                None => {
                    return None;
                },
            },
            Some(_) => default_config.keyboard_mode,
        };
        Some(UserConfig { screenshots_destination_directory, keyboard_mode })
    }

    /// The settings given by the text of `config.toml` (`None` when the file
    /// could not be read): a file that cannot be read or is not TOML gives
    /// the defaults; otherwise as `from_table`, which must find both keys and
    /// a known keyboard mode.
    pub fn load(contents: Option<&str>, default_config: UserConfig) -> (config: UserConfig)
        requires
            config_loads(
                contents_view(contents),
                default_config.screenshots_destination_directory@,
                default_config.keyboard_mode,
            ),
        ensures
            match contents {
                None => config == default_config,
                Some(text) => match parse_toml_spec(text@) {
                    None => config == default_config,
                    Some(es) => config_from_view(
                        es,
                        default_config.screenshots_destination_directory@,
                        default_config.keyboard_mode,
                    ) == Some(config.config_view()),
                },
            },
    {
        match contents {
            None => default_config,
            Some(text) => match parse_toml_table(text) {
                Ok(table) => UserConfig::from_table(&table, default_config).unwrap(),
                Err(_) => default_config,
            },
        }
    }

    /// The settings as `load` gives them, or `None` when the file is TOML
    /// but lacks a key or names an unknown keyboard mode.
    pub fn try_load(contents: Option<&str>, default_config: UserConfig) -> (config: Option<
        UserConfig,
    >)
        ensures
            match contents {
                None => config == Some(default_config),
                Some(text) => match parse_toml_spec(text@) {
                    None => config == Some(default_config),
                    Some(es) => match config {
                        Some(c) => config_from_view(
                            es,
                            default_config.screenshots_destination_directory@,
                            default_config.keyboard_mode,
                        ) == Some(c.config_view()),
                        None => config_from_view(
                            es,
                            default_config.screenshots_destination_directory@,
                            default_config.keyboard_mode,
                        ) is None,
                    },
                },
            },
    {
        match contents {
            None => Some(UserConfig::load(contents, default_config)),
            Some(text) => match parse_toml_table(text) {
                Err(_) => Some(UserConfig::load(contents, default_config)),
                Ok(table) => {
                    let copy = UserConfig {
                        screenshots_destination_directory: default_config.screenshots_destination_directory.clone(),
                        keyboard_mode: default_config.keyboard_mode,
                    };
                    match UserConfig::from_table(&table, copy) {
                        Some(_) => Some(UserConfig::load(contents, default_config)),
                        None => None,
                    }
                },
            },
        }
    }
}

} // verus!
