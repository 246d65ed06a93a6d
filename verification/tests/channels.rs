use stt_mg::channels::{lire_fichier_wav, merge};

#[test]
fn merge_goes_frame_by_frame() {
    let stereo = vec![vec![1.0f32, 2.0, 3.0], vec![10.0, 20.0, 30.0]];
    assert_eq!(merge(&stereo), vec![1.0, 10.0, 2.0, 20.0, 3.0, 30.0]);
}

#[test]
fn merge_of_no_channels_is_empty() {
    let none: Vec<Vec<f32>> = Vec::new();
    assert_eq!(merge(&none), Vec::<f32>::new());
}

#[test]
fn merge_of_empty_channels_is_empty() {
    let silent: Vec<Vec<f64>> = vec![Vec::new(), Vec::new()];
    assert_eq!(merge(&silent), Vec::<f64>::new());
}

#[test]
fn merge_of_one_channel_is_that_channel() {
    assert_eq!(merge(&[vec![0.5f32, -0.5]]), vec![0.5, -0.5]);
}

#[test]
fn merge_takes_as_many_frames_as_the_first_channel_has() {
    assert_eq!(merge(&[vec![1, 2], vec![7, 8, 9]]), vec![1, 7, 2, 8]);
}

#[test]
fn wav_samples_are_sorted_into_channels() {
    let (channels, rate) = lire_fichier_wav(&[1, 10, 100, 2, 20, 200], 3, 44_100);
    assert_eq!(channels, vec![vec![1, 2], vec![10, 20], vec![100, 200]]);
    assert_eq!(rate, 44_100);
}

#[test]
fn wav_without_samples_keeps_its_channels() {
    let (channels, rate) = lire_fichier_wav::<f32>(&[], 2, 8_000);
    assert_eq!(channels, vec![Vec::<f32>::new(), Vec::new()]);
    assert_eq!(rate, 8_000);
}

#[test]
fn merging_restores_the_samples_of_a_file() {
    let samples = [0.1f32, 0.2, 0.3, 0.4, 0.5, 0.6];
    assert_eq!(merge(&lire_fichier_wav(&samples, 2, 16_000).0), samples);
    assert_eq!(merge(&lire_fichier_wav(&samples, 3, 16_000).0), samples);
}

#[test]
fn splitting_restores_merged_channels() {
    let channels = vec![vec![1, 2, 3], vec![4, 5, 6]];
    assert_eq!(lire_fichier_wav(&merge(&channels), 2, 0).0, channels);
}
