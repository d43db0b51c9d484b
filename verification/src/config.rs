use vstd::prelude::*;
use vstd::string::StringExecFns;
use crate::fixed::Milli;

verus! {

/// The lowest `max_frequency` that a configuration may ask for.
pub const MIN_FREQUENCY: u32 = 100;

/// The highest `max_frequency` that a configuration may ask for.
pub const MAX_FREQUENCY: u32 = 20000;

/// The whole parameter bundle. It is fixed once it has been loaded.
#[derive(Clone)]
pub struct Config {
    pub visual: Visual,
    pub processing: Processing,
    pub audio: Audio,
}

/// What the display is made of. Lengths, positions and angles are counted
/// in thousandths.
#[derive(Clone)]
pub struct Visual {
    pub visualisation: String,
    pub smoothing_size: u32,
    pub smoothing_amount: u32,
    pub max_frequency: u32,
    pub width: Milli,
    pub z_width: Milli,
    pub hide_cursor: bool,
    pub fullscreen: bool,
    pub window_always_on_top: bool,
    pub camera_pos: [Milli; 3],
    pub camera_facing: [Milli; 3],
    pub fov: Milli,
    pub texture: String,
}

/// How the sound is taken in. Factors are counted in thousandths.
#[derive(Clone, Copy)]
pub struct Audio {
    pub pre_fft_windowing: bool,
    pub volume_amplitude: Milli,
    pub volume_factoring: Milli,
}

/// How frames are processed. Factors are counted in thousandths.
#[derive(Clone, Copy)]
pub struct Processing {
    pub gravity: Milli,
    pub normalisation_factoring: Milli,
    pub fav_frequency_range: [u32; 2],
    pub fav_frequency_doubling: u16,
    pub buffering: u32,
    pub bar_reduction: u32,
    pub buffer_resolution_drop: Milli,
    pub max_buffer_resolution_drop: u16,
    pub resolution: u32,
    pub frequency: u16,
}

/// What reading and parsing a configuration came to.
pub enum Loaded {
    /// The file could not be read; the reason is given.
    Unreadable(String),
    /// The text is no configuration; the reason is given.
    Malformed(String),
    /// The text was read and parsed.
    Parsed(Config),
}

/// What is said of a negative gravity.
pub open spec fn gravity_message() -> Seq<char> {
    "error at processing section, gravity must be greater than 0.0"@
}

/// What is said of a `max_frequency` out of range.
pub open spec fn frequency_message() -> Seq<char> {
    "error at processing section, max_frequency must be in between of 100 and 20.000"@
}

/// What is put before the reason for which a configuration is refused.
pub open spec fn invalid_prefix() -> Seq<char> {
    "invalid config: "@
}

/// What is put before the reason for which a file could not be read.
pub open spec fn missing_prefix() -> Seq<char> {
    "could not find config, "@
}

/// Why a configuration is refused, if it is: the gravity is tested first,
/// then `max_frequency`.
pub open spec fn rejection(config: Config) -> Option<Seq<char>> {
    if config.processing.gravity < 0 {
        Some(gravity_message())
    } else if config.visual.max_frequency > MAX_FREQUENCY || config.visual.max_frequency
        < MIN_FREQUENCY {
        Some(frequency_message())
    } else {
        None
    }
}

/// A configuration is valid where its gravity is not negative and its
/// `max_frequency` lies between the two bounds.
pub open spec fn valid(config: Config) -> bool {
    &&& config.processing.gravity >= 0
    &&& MIN_FREQUENCY <= config.visual.max_frequency <= MAX_FREQUENCY
}

/// Exactly the valid configurations are not refused.
pub proof fn lemma_valid_iff_accepted(config: Config)
    ensures
        valid(config) <==> rejection(config) is None,
{
}

/// Tells whether `path` asks for the built-in configuration.
pub fn is_default(path: &str) -> (answer: bool)
    ensures
        answer == (path@ == "default"@),
{
    String::from_str(path) == String::from_str("default")
}

/// Validates a configuration: `Ok` where it is valid, else the reason for
/// which it is refused.
pub fn check_config(config: &Config) -> (result: Result<(), String>)
    ensures
        match rejection(*config) {
            None => result is Ok,
            Some(message) => result matches Err(reason) && reason@ == message,
        },
        result is Ok <==> valid(*config),
{
    if config.processing.gravity < 0 {
        return Err(
            String::from_str("error at processing section, gravity must be greater than 0.0"),
        );
    }
    if config.visual.max_frequency > MAX_FREQUENCY || config.visual.max_frequency < MIN_FREQUENCY {
        return Err(
            String::from_str(
                "error at processing section, max_frequency must be in between of 100 and 20.000",
            ),
        );
    }
    Ok(())
}

/// Finishes the loading of a configuration.
///
/// A failed read and a failed parse are reported with their reasons. A
/// parsed configuration is validated: it is handed on as it is where it is
/// valid, and refused with the reason where it is not.
pub fn get_config(loaded: Loaded) -> (result: Result<Config, String>)
    ensures
        match loaded {
            Loaded::Unreadable(reason) => result matches Err(message) && message@
                == missing_prefix() + reason@,
            Loaded::Malformed(reason) => result matches Err(message) && message@
                == invalid_prefix() + reason@,
            Loaded::Parsed(config) => match rejection(config) {
                None => result == Ok::<Config, String>(config),
                Some(reason) => result matches Err(message) && message@ == invalid_prefix()
                    + reason,
            },
        },
{
    match loaded {
        Loaded::Unreadable(reason) => Err(
            String::from_str("could not find config, ").concat(reason.as_str()),
        ),
        Loaded::Malformed(reason) => Err(
            String::from_str("invalid config: ").concat(reason.as_str()),
        ),
        Loaded::Parsed(config) => match check_config(&config) {
            Ok(_) => Ok(config),
            Err(reason) => Err(String::from_str("invalid config: ").concat(reason.as_str())),
        },
    }
}

} // verus!
