//! The configuration of the user, and the defaults that fill what it leaves
//! open.

use std::path::PathBuf;
use vstd::prelude::*;
use vstd::string::StringExecFns;

verus! {

/// `std::path::PathBuf`. A path is carried through as it is: nothing is known
/// of what it holds.
#[verifier::external_type_specification]
#[verifier::external_body]
pub struct ExPathBuf(PathBuf);

/// The configuration as the configuration file states it: what the file does
/// not state is absent.
#[derive(Debug)]
pub struct UserConfigYAML {
    pub audio_format: Option<String>,
    pub display_visualizer: Option<bool>,
}

/// The configuration that the program works with.
#[derive(Debug)]
pub struct UserConfig {
    pub base_dir: PathBuf,
    pub audio_format: String,
    pub display_visualizer: bool,
}

impl Default for UserConfigYAML {
    /// Audio as mp3, and the visualizer shown.
    fn default() -> (r: Self)
        ensures
            r.audio_format matches Some(format) && format@ == "mp3"@,
            r.display_visualizer == Some(true),
    {
        UserConfigYAML { audio_format: Some(String::from_str("mp3")), display_visualizer: Some(true) }
    }
}

/// The configuration with the defaults in place of what the file leaves open:
/// audio as mp3, and the visualizer shown.
pub fn fill_uninitialized_values(user_config_yaml: UserConfigYAML, base_dir: PathBuf) -> (r:
    UserConfig)
    ensures
        r.base_dir == base_dir,
        r.audio_format@ == match user_config_yaml.audio_format {
            Some(format) => format@,
            None => "mp3"@,
        },
        r.display_visualizer == match user_config_yaml.display_visualizer {
            Some(shown) => shown,
            None => true,
        },
{
    let default_user_config_yaml = UserConfigYAML::default();
    let audio_format = match user_config_yaml.audio_format {
        Some(x) => x,
        None => match default_user_config_yaml.audio_format {
            Some(x) => x,
            None => String::from_str("mp3"),
        },
    };
    let display_visualizer = match user_config_yaml.display_visualizer {
        Some(x) => x,
        None => match default_user_config_yaml.display_visualizer {
            Some(x) => x,
            None => true,
        },
    };
    UserConfig { base_dir, audio_format, display_visualizer }
}

} // verus!
