use std::collections::VecDeque;
use stt_mg::phonemes::{parse_phonemes, phonemes_of, PhonemesError};
use stt_mg::playback::{
    closing_step, input_format, output_callback, BufferSizes, ClosingStep, InputFormat, SampleFormat,
};
use stt_mg::schedule::{TrainSchedule, TrainStep};
use stt_mg::settings::{
    config_location, Args, CommonSettings, GeneralSettings, PredictSettings, SttSettings,
    TrainingSettings,
};
use stt_mg::stages::{stages, Stage};

fn settings(train: bool, predict: bool, real_time: bool, end_press_key: bool) -> CommonSettings {
    CommonSettings {
        general: GeneralSettings { end_press_key },
        stt_settings: SttSettings {
            monophone_training: TrainingSettings { enable: train, component_per_state: 1, iteration: 1 },
            predict: PredictSettings { enable: predict, real_time },
        },
    }
}

fn steps(phones: usize, component_per_state: usize, iteration: usize) -> Vec<TrainStep> {
    let mut schedule =
        TrainSchedule::new(phones, TrainingSettings { enable: true, component_per_state, iteration });
    let mut list = Vec::new();
    while let Some(step) = schedule.next_step() {
        list.push(step);
    }
    assert_eq!(schedule.next_step(), None);
    list
}

#[test]
fn end_waits_for_a_key_by_default() {
    assert!(GeneralSettings::default().end_press_key);
}

#[test]
fn given_config_file_is_taken() {
    let args = Args { config_file: Some("config-f32.toml".to_string()) };
    let location = config_location(args, Some("/etc".to_string()));
    assert_eq!(location.dir, None);
    assert_eq!(location.file, "config-f32.toml");
}

#[test]
fn config_directory_is_searched() {
    let location = config_location(Args { config_file: None }, Some("/etc".to_string()));
    assert_eq!(location.dir.as_deref(), Some("/etc"));
    assert_eq!(location.file, "config.toml");
}

#[test]
fn config_is_in_the_current_directory_by_default() {
    let location = config_location(Args { config_file: None }, None);
    assert_eq!(location.dir.as_deref(), Some("."));
    assert_eq!(location.file, "config.toml");
}

#[test]
fn every_stage_is_run_in_order() {
    assert_eq!(
        stages(&settings(true, true, true, true)),
        vec![
            Stage::GatherAudio,
            Stage::ExtractFeatures,
            Stage::Train,
            Stage::LoadModel,
            Stage::PredictFiles,
            Stage::RealTime,
            Stage::WaitForKey,
        ]
    );
}

#[test]
fn audio_is_read_even_if_nothing_else_is_asked() {
    assert_eq!(
        stages(&settings(false, false, false, false)),
        vec![Stage::GatherAudio, Stage::ExtractFeatures]
    );
}

#[test]
fn model_is_loaded_for_either_prediction() {
    assert_eq!(
        stages(&settings(false, false, true, false))[2..],
        [Stage::LoadModel, Stage::RealTime]
    );
    assert_eq!(
        stages(&settings(false, true, false, true))[2..],
        [Stage::LoadModel, Stage::PredictFiles, Stage::WaitForKey]
    );
}

#[test]
fn training_splits_for_each_further_component() {
    assert_eq!(
        steps(2, 3, 20),
        vec![
            TrainStep::FlatStart { phone: 0 },
            TrainStep::FlatStart { phone: 1 },
            TrainStep::BaumWelch { passes: 3 },
            TrainStep::SplitUp,
            TrainStep::BaumWelch { passes: 3 },
            TrainStep::SplitUp,
            TrainStep::BaumWelch { passes: 20 },
            TrainStep::GenerateFnModel,
        ]
    );
}

#[test]
fn training_of_one_component_does_not_split() {
    let expected = vec![
        TrainStep::FlatStart { phone: 0 },
        TrainStep::BaumWelch { passes: 4 },
        TrainStep::GenerateFnModel,
    ];
    assert_eq!(steps(1, 1, 4), expected);
    assert_eq!(steps(1, 0, 4), expected);
}

#[test]
fn training_without_phones_still_finishes() {
    assert_eq!(
        steps(0, 2, 0),
        vec![
            TrainStep::BaumWelch { passes: 3 },
            TrainStep::SplitUp,
            TrainStep::BaumWelch { passes: 0 },
            TrainStep::GenerateFnModel,
        ]
    );
}

#[test]
fn output_takes_from_the_queue_and_keeps_one() {
    let mut queue: VecDeque<f32> = VecDeque::from(vec![0.1, 0.2, 0.3]);
    let mut data = [9.0f32; 4];
    output_callback(&mut queue, &mut data, 0.0);
    assert_eq!(data, [0.1, 0.2, 0.0, 0.0]);
    assert_eq!(queue, [0.3]);
}

#[test]
fn output_leaves_what_it_does_not_need() {
    let mut queue = VecDeque::from(vec![1, 2, 3, 4]);
    let mut data = [0; 2];
    output_callback(&mut queue, &mut data, -1);
    assert_eq!(data, [1, 2]);
    assert_eq!(queue, [3, 4]);
}

#[test]
fn output_of_an_empty_queue_is_silence() {
    let mut queue: VecDeque<u8> = VecDeque::new();
    let mut data = [1, 2];
    output_callback(&mut queue, &mut data, 128);
    assert_eq!(data, [128, 128]);
    assert!(queue.is_empty());
}

#[test]
fn consecutive_buffers_play_on() {
    let mut one = VecDeque::from(vec![1, 2, 3, 4]);
    let mut two = one.clone();
    let mut whole = [0; 5];
    output_callback(&mut one, &mut whole, 7);
    let (mut first, mut second) = ([0; 2], [0; 3]);
    output_callback(&mut two, &mut first, 7);
    output_callback(&mut two, &mut second, 7);
    assert_eq!([&first[..], &second[..]].concat(), whole);
    assert_eq!(one, two);
}

#[test]
fn microphone_is_recorded_in_mono_floats_at_16k() {
    for device_sizes in [BufferSizes::Range { min: 64, max: 4096 }, BufferSizes::Unknown] {
        assert_eq!(
            input_format(device_sizes),
            InputFormat {
                channels: 1,
                sample_rate: 16_000,
                buffer_sizes: device_sizes,
                sample_format: SampleFormat::Float32,
            }
        );
    }
}

#[test]
fn recording_ends_after_three_seconds() {
    assert_eq!(closing_step(0), ClosingStep::Sleep { seconds: 1 });
    assert_eq!(closing_step(2_999_999_999), ClosingStep::Sleep { seconds: 1 });
    assert_eq!(closing_step(3_000_000_000), ClosingStep::Stop);
}

#[test]
fn phonemes_are_read_in_order() {
    assert_eq!(
        parse_phonemes("[\"a\", \"foana\", \"e\",]").unwrap(),
        vec!["a".to_string(), "foana".to_string(), "e".to_string()]
    );
    assert_eq!(parse_phonemes("[]").unwrap(), Vec::<String>::new());
}

#[test]
fn malformed_phonemes_are_refused() {
    for text in ["", "[1, 2]", "[\"a\"", "\"a\"", "[\"a\"] x"] {
        assert_eq!(parse_phonemes(text), Err(PhonemesError::NotAStringList), "{}", text);
    }
}

#[test]
fn reader_error_is_mapped() {
    let failed = ron::from_str::<Vec<String>>("(");
    assert!(failed.is_err());
    assert_eq!(phonemes_of(failed), Err(PhonemesError::NotAStringList));
    assert_eq!(phonemes_of(Ok(vec!["k".to_string()])), Ok(vec!["k".to_string()]));
}
