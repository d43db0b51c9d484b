use audiovis::config::{
    check_config, get_config, is_default, Audio, Config, Loaded, Processing, Visual,
    MAX_FREQUENCY, MIN_FREQUENCY,
};

fn shipped() -> Config {
    Config {
        visual: Visual {
            visualisation: String::from("Bars2"),
            smoothing_size: 25,
            smoothing_amount: 2,
            max_frequency: 20000,
            width: 1000,
            z_width: 0,
            hide_cursor: false,
            fullscreen: false,
            window_always_on_top: false,
            camera_pos: [0, -250, 1900],
            camera_facing: [0, -250, 0],
            fov: 45000,
            texture: String::from("default"),
        },
        processing: Processing {
            gravity: 500,
            normalisation_factoring: 500,
            fav_frequency_range: [0, 3500],
            fav_frequency_doubling: 3,
            buffering: 1,
            bar_reduction: 5,
            buffer_resolution_drop: 500,
            max_buffer_resolution_drop: 7,
            resolution: 3000,
            frequency: 60,
        },
        audio: Audio { pre_fft_windowing: true, volume_amplitude: 100_000, volume_factoring: 1000 },
    }
}

const GRAVITY: &str = "error at processing section, gravity must be greater than 0.0";
const FREQUENCY: &str =
    "error at processing section, max_frequency must be in between of 100 and 20.000";

#[test]
fn shipped_configuration_is_valid() {
    assert_eq!(check_config(&shipped()), Ok(()));
}

#[test]
fn negative_gravity_is_refused() {
    let mut config = shipped();
    config.processing.gravity = -1;
    assert_eq!(check_config(&config), Err(String::from(GRAVITY)));
    config.processing.gravity = i32::MIN;
    assert_eq!(check_config(&config), Err(String::from(GRAVITY)));
}

#[test]
fn gravity_of_zero_is_valid() {
    let mut config = shipped();
    config.processing.gravity = 0;
    assert_eq!(check_config(&config), Ok(()));
}

#[test]
fn max_frequency_has_two_bounds() {
    assert_eq!(MIN_FREQUENCY, 100);
    assert_eq!(MAX_FREQUENCY, 20000);
    let mut config = shipped();
    config.visual.max_frequency = 100;
    assert_eq!(check_config(&config), Ok(()));
    config.visual.max_frequency = 99;
    assert_eq!(check_config(&config), Err(String::from(FREQUENCY)));
    config.visual.max_frequency = 0;
    assert_eq!(check_config(&config), Err(String::from(FREQUENCY)));
    config.visual.max_frequency = 20000;
    assert_eq!(check_config(&config), Ok(()));
    config.visual.max_frequency = 20001;
    assert_eq!(check_config(&config), Err(String::from(FREQUENCY)));
    config.visual.max_frequency = u32::MAX;
    assert_eq!(check_config(&config), Err(String::from(FREQUENCY)));
}

#[test]
fn gravity_is_tested_first() {
    let mut config = shipped();
    config.processing.gravity = -250;
    config.visual.max_frequency = 5;
    assert_eq!(check_config(&config), Err(String::from(GRAVITY)));
}

#[test]
fn unreadable_file_is_reported() {
    let result = get_config(Loaded::Unreadable(String::from("No such file or directory")));
    assert_eq!(
        result.err(),
        Some(String::from("could not find config, No such file or directory"))
    );
}

#[test]
fn malformed_text_is_reported() {
    let result = get_config(Loaded::Malformed(String::from("expected an equals at line 3")));
    assert_eq!(result.err(), Some(String::from("invalid config: expected an equals at line 3")));
}

#[test]
fn parsed_configuration_is_validated() {
    let mut config = shipped();
    config.processing.gravity = -1;
    let result = get_config(Loaded::Parsed(config));
    assert_eq!(result.err(), Some(format!("invalid config: {}", GRAVITY)));
    let mut config = shipped();
    config.visual.max_frequency = 30000;
    let result = get_config(Loaded::Parsed(config));
    assert_eq!(result.err(), Some(format!("invalid config: {}", FREQUENCY)));
}

#[test]
fn valid_configuration_is_handed_on() {
    let mut config = shipped();
    config.processing.buffering = 12;
    config.visual.visualisation = String::from("Bars1");
    let loaded = get_config(Loaded::Parsed(config)).ok().unwrap();
    assert_eq!(loaded.processing.buffering, 12);
    assert_eq!(loaded.processing.gravity, 500);
    assert_eq!(loaded.processing.bar_reduction, 5);
    assert_eq!(loaded.visual.visualisation, "Bars1");
    assert_eq!(loaded.visual.camera_pos, [0, -250, 1900]);
    assert_eq!(loaded.audio.volume_amplitude, 100_000);
}

#[test]
fn only_the_word_default_asks_for_the_built_in() {
    assert!(is_default("default"));
    assert!(!is_default("Default"));
    assert!(!is_default("default "));
    assert!(!is_default(""));
    assert!(!is_default("./default_config.toml"));
}
