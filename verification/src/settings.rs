//! Command line arguments and settings, as far as decisions depend on them.

use vstd::prelude::*;

verus! {

/// The command line arguments.
#[derive(Debug)]
pub struct Args {
    /// Configuration file (--config-file)
    pub config_file: Option<String>,
}

/// Where the configuration file is: `file` itself, or `file` inside `dir`.
#[derive(Debug)]
pub struct ConfigLocation {
    pub dir: Option<String>,
    pub file: String,
}

/// Finds the configuration file: the one given on the command line, or else
/// `config.toml` in the configuration directory, which is the current directory
/// unless `config_dir` names another one.
pub fn config_location(args: Args, config_dir: Option<String>) -> (location: ConfigLocation)
    ensures
        match args.config_file {
            Some(file) => location.dir is None && location.file == file,
            None => {
                &&& location.dir matches Some(dir) && dir@ == (match config_dir {
                    Some(given) => given@,
                    None => "."@,
                })
                &&& location.file@ == "config.toml"@
            },
        },
{
    match args.config_file {
        Some(file) => ConfigLocation { dir: None, file },
        None => {
            let dir: String = match config_dir {
                Some(given) => given,
                None => ".".to_string(),
            };
            ConfigLocation { dir: Some(dir), file: "config.toml".to_string() }
        },
    }
}

/// Settings of the program itself.
#[derive(Debug, Clone, Copy, PartialEq, Eq, Structural)]
pub struct GeneralSettings {
    /// Wait for a key before the program ends.
    pub end_press_key: bool,
}

impl Default for GeneralSettings {
    fn default() -> (settings: Self)
        ensures
            settings.end_press_key,
    {
        GeneralSettings { end_press_key: true }
    }
}

/// Settings of the monophone training.
#[derive(Debug, Clone, Copy, PartialEq, Eq, Structural)]
pub struct TrainingSettings {
    /// Train a model.
    pub enable: bool,
    /// Gaussian components that each state ends up with.
    pub component_per_state: usize,
    /// Passes of the last re-estimation.
    pub iteration: usize,
}

/// Settings of the prediction.
#[derive(Debug, Clone, Copy, PartialEq, Eq, Structural)]
pub struct PredictSettings {
    /// Predict the files of the prediction directory.
    pub enable: bool,
    /// Decode the microphone.
    pub real_time: bool,
}

/// Settings of the recogniser.
#[derive(Debug, Clone, Copy, PartialEq, Eq, Structural)]
pub struct SttSettings {
    pub monophone_training: TrainingSettings,
    pub predict: PredictSettings,
}

/// All settings that decide what a run does.
#[derive(Debug, Clone, Copy, PartialEq, Eq, Structural)]
pub struct CommonSettings {
    pub general: GeneralSettings,
    pub stt_settings: SttSettings,
}

} // verus!
