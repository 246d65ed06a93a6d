use rubato::{
    Resampler, SincFixedIn, SincInterpolationParameters, SincInterpolationType, WindowFunction,
};
use stt_mg::channels::lire_fichier_wav;
use stt_mg::resample::{
    prepare_signal, resample_to_16k, SincInterpolation, SincJob, SincWindow, TARGET_SR,
};

fn unused(_: &[Vec<f32>], _: SincJob) -> Vec<Vec<f32>> {
    panic!("no resampling is needed")
}

fn sinc(input: &[Vec<f32>], job: SincJob) -> Vec<Vec<f32>> {
    let parameters = SincInterpolationParameters {
        sinc_len: job.sinc_len,
        f_cutoff: job.cutoff_per_mille as f32 / 1000.0,
        interpolation: SincInterpolationType::Cubic,
        oversampling_factor: job.oversampling_factor,
        window: WindowFunction::BlackmanHarris2,
    };
    assert_eq!(parameters.f_cutoff, 0.925);
    let ratio = job.target_rate as f32 / job.source_rate as f32;
    SincFixedIn::<f32>::new(
        ratio as f64,
        f64::from(job.max_relative_ratio),
        parameters,
        job.chunk_frames,
        job.channels,
    )
    .unwrap()
    .process(input, None)
    .unwrap()
}

#[test]
fn target_rate_is_16k() {
    assert_eq!(TARGET_SR, 16_000);
}

#[test]
fn audio_at_the_target_rate_is_copied() {
    let input = vec![vec![1.0f32, 2.0], vec![3.0]];
    assert_eq!(resample_to_16k(&input, 16_000, &unused), input);
    assert_eq!(resample_to_16k(&[Vec::new()], 16_000, &unused), vec![Vec::<f32>::new()]);
}

#[test]
fn audio_without_samples_gives_no_channels() {
    assert_eq!(resample_to_16k(&[], 44_100, &unused), Vec::<Vec<f32>>::new());
    assert_eq!(resample_to_16k(&[Vec::new(), Vec::new()], 44_100, &unused), Vec::<Vec<f32>>::new());
}

#[test]
fn other_rates_are_handed_to_the_resampler() {
    let output = resample_to_16k(&[vec![1.0f32, 2.0, 3.0], vec![4.0, 5.0, 6.0]], 48_000, &|input: &[Vec<f32>], job: SincJob| {
        assert_eq!(input, [vec![1.0f32, 2.0, 3.0], vec![4.0, 5.0, 6.0]]);
        assert_eq!(
            job,
            SincJob {
                target_rate: 16_000,
                source_rate: 48_000,
                max_relative_ratio: 2,
                sinc_len: 512,
                cutoff_per_mille: 925,
                interpolation: SincInterpolation::Cubic,
                oversampling_factor: 256,
                window: SincWindow::BlackmanHarris2,
                chunk_frames: 3,
                channels: 2,
            }
        );
        vec![vec![9.0], vec![8.0]]
    });
    assert_eq!(output, vec![vec![9.0], vec![8.0]]);
}

#[test]
fn sinc_resampler_accepts_the_job() {
    let output = resample_to_16k(&[vec![0.25f32; 32_000], vec![0.0; 32_000]], 32_000, &sinc);
    assert_eq!(output.len(), 2);
    assert_eq!(output[0].len(), output[1].len());
    assert!(output[0].len() > 15_000 && output[0].len() <= 16_010);
}

#[test]
fn signal_is_mixed_from_the_samples_of_the_file() {
    let audio = lire_fichier_wav(&[1.0f32, 2.0, 3.0, 4.0], 2, 16_000);
    let signal = prepare_signal(&audio, &unused, &|samples: &[f32], channels: usize| {
        assert_eq!(samples, [1.0, 2.0, 3.0, 4.0]);
        samples.chunks(channels).map(|frame| frame.iter().sum::<f32>() / 2.0).collect()
    });
    assert_eq!(signal, vec![1.5, 3.5]);
}

#[test]
fn signal_keeps_the_channel_count_of_the_file() {
    let audio = lire_fichier_wav::<f32>(&[], 5, 8_000);
    let signal = prepare_signal(&audio, &unused, &|samples: &[f32], channels: usize| {
        assert!(samples.is_empty());
        vec![channels as f32]
    });
    assert_eq!(signal, vec![5.0]);
}

#[test]
fn resampled_channels_are_interleaved() {
    let audio = (vec![vec![1.0f32, 2.0], vec![3.0, 4.0]], 8_000);
    let sinc = |input: &[Vec<f32>], _: SincJob| -> Vec<Vec<f32>> {
        input.iter().map(|channel| channel.iter().flat_map(|&x| [x, x]).collect()).collect()
    };
    let signal = prepare_signal(&audio, &sinc, &|samples: &[f32], _: usize| samples.to_vec());
    assert_eq!(signal, vec![1.0, 3.0, 1.0, 3.0, 2.0, 4.0, 2.0, 4.0]);
}

#[test]
fn resampling_keeps_channels_apart() {
    let rising: Vec<f32> = (0..4_000).map(|i| i as f32 / 4_000.0).collect();
    let falling: Vec<f32> = rising.iter().rev().copied().collect();
    let both = resample_to_16k(&[rising.clone(), falling.clone()], 8_000, &sinc);
    assert_eq!(both.len(), 2);
    assert!(!both[0].is_empty());
    assert_ne!(both[0], both[1]);
    assert_eq!(both[0], resample_to_16k(&[rising], 8_000, &sinc)[0]);
    assert_eq!(both[1], resample_to_16k(&[falling], 8_000, &sinc)[0]);
}
