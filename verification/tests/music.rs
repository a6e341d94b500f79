use usch::music::{config_supports, validate_format, Music, MusicError};

#[test]
fn pcm_decodes_to_itself() {
    let samples: Vec<i16> = vec![0, 1, -1, 32767, -32768];
    let music = Music::Pcm(samples.clone());
    assert_eq!(samples, music.decode().unwrap());
}

#[test]
fn format_gate_accepts_only_the_fixed_format() {
    assert!(validate_format(2, 48_000).is_ok());
    assert_eq!(
        Err(MusicError::UnsupportedFormat { channels: 1, sample_rate: 48_000 }),
        validate_format(1, 48_000)
    );
    assert_eq!(
        Err(MusicError::UnsupportedFormat { channels: 2, sample_rate: 44_100 }),
        validate_format(2, 44_100)
    );
}

#[test]
fn garbage_is_not_an_ogg_stream() {
    let music = Music::Ogg(b"this is not an ogg vorbis stream at all");
    assert_eq!(Err(MusicError::InvalidStream), music.decode().map(|v| v.len()));
}

#[test]
fn device_configuration_matching() {
    assert!(config_supports(2, 44_100, 96_000, true));
    assert!(config_supports(2, 48_000, 48_000, true));
    assert!(!config_supports(1, 44_100, 96_000, true));
    assert!(!config_supports(2, 48_001, 96_000, true));
    assert!(!config_supports(2, 44_100, 47_999, true));
    assert!(!config_supports(2, 44_100, 96_000, false));
}
