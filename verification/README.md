# stt_mg

Speech to text with monophone HMM/GMM models. The verified library holds what the
program decides and how it lays out its data; the program around it does the file,
sound card and floating point work.

- `src/channels.rs`: interleaved samples and channels, and the way back
- `src/resample.rs`: from audio of any rate to a 16000 Hz mono signal
- `src/order.rs`, `src/listing.rs`: the order of names, and the wav files of a directory
- `src/name_map.rs`: a map that is walked in the order of its names
- `src/features.rs`: the signals and features of each phone
- `src/phonemes.rs`: the list of phonemes, read with `ron`
- `src/schedule.rs`: the steps of a training
- `src/stages.rs`, `src/settings.rs`: the stages of a run, and the settings that decide them
- `src/playback.rs`: recording and playing live audio
- `app/`: the program
