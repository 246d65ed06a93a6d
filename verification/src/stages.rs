//! The stages of a run, as the settings decide them.

use crate::settings::CommonSettings;
use vstd::prelude::*;

verus! {

/// One stage of a run.
#[derive(Debug, Clone, Copy, PartialEq, Eq, Structural)]
pub enum Stage {
    /// Read the training audio.
    GatherAudio,
    /// Compute the features of every phone.
    ExtractFeatures,
    /// Train a model and save it.
    Train,
    /// Load the saved model.
    LoadModel,
    /// Predict the files of the prediction directory.
    PredictFiles,
    /// Decode the microphone.
    RealTime,
    /// Wait for a key.
    WaitForKey,
}

/// The stage alone, where the condition holds, and else nothing.
pub open spec fn stage_if(condition: bool, stage: Stage) -> Seq<Stage> {
    if condition {
        seq![stage]
    } else {
        Seq::empty()
    }
}

/// The stages of a run, in their order. The training audio is always read, and
/// the model is loaded where anything is predicted.
pub open spec fn run(settings: CommonSettings) -> Seq<Stage> {
    let predict = settings.stt_settings.predict;
    seq![Stage::GatherAudio, Stage::ExtractFeatures] + stage_if(
        settings.stt_settings.monophone_training.enable,
        Stage::Train,
    ) + stage_if(predict.enable || predict.real_time, Stage::LoadModel) + stage_if(
        predict.enable,
        Stage::PredictFiles,
    ) + stage_if(predict.real_time, Stage::RealTime) + stage_if(
        settings.general.end_press_key,
        Stage::WaitForKey,
    )
}

/// The stages that the settings ask for.
pub fn stages(settings: &CommonSettings) -> (list: Vec<Stage>)
    ensures
        list@ == run(*settings),
        list@.contains(Stage::GatherAudio),
        list@.contains(Stage::ExtractFeatures),
        list@.contains(Stage::Train) <==> settings.stt_settings.monophone_training.enable,
        list@.contains(Stage::LoadModel) <==> settings.stt_settings.predict.enable
            || settings.stt_settings.predict.real_time,
        list@.contains(Stage::PredictFiles) <==> settings.stt_settings.predict.enable,
        list@.contains(Stage::RealTime) <==> settings.stt_settings.predict.real_time,
        list@.contains(Stage::WaitForKey) <==> settings.general.end_press_key,
        list@.no_duplicates(),
{
    let mut list: Vec<Stage> = Vec::new();
    list.push(Stage::GatherAudio);
    list.push(Stage::ExtractFeatures);
    if settings.stt_settings.monophone_training.enable {
        list.push(Stage::Train);
    }
    if settings.stt_settings.predict.enable || settings.stt_settings.predict.real_time {
        list.push(Stage::LoadModel);
        if settings.stt_settings.predict.enable {
            list.push(Stage::PredictFiles);
        }
        if settings.stt_settings.predict.real_time {
            list.push(Stage::RealTime);
        }
    }
    if settings.general.end_press_key {
        list.push(Stage::WaitForKey);
    }
    assert(list@ =~= run(*settings));
    proof {
        stage_is_run_if_its_switch_is_on(*settings);
        no_stage_is_run_twice(*settings);
    }
    list
}

/// The stages before the place where a model may be loaded.
spec fn until_loading(settings: CommonSettings) -> Seq<Stage> {
    seq![Stage::GatherAudio, Stage::ExtractFeatures] + stage_if(
        settings.stt_settings.monophone_training.enable,
        Stage::Train,
    )
}

/// The stages after the place where a model may be loaded.
spec fn after_loading(settings: CommonSettings) -> Seq<Stage> {
    stage_if(settings.stt_settings.predict.enable, Stage::PredictFiles) + stage_if(
        settings.stt_settings.predict.real_time,
        Stage::RealTime,
    ) + stage_if(settings.general.end_press_key, Stage::WaitForKey)
}

/// The stage that loads a model, where one is needed.
spec fn loading(settings: CommonSettings) -> Seq<Stage> {
    stage_if(
        settings.stt_settings.predict.enable || settings.stt_settings.predict.real_time,
        Stage::LoadModel,
    )
}

proof fn lemma_parts(settings: CommonSettings)
    ensures
        run(settings) == until_loading(settings) + loading(settings) + after_loading(settings),
{
    assert(run(settings) =~= until_loading(settings) + loading(settings) + after_loading(settings));
}

proof fn lemma_until_loading(settings: CommonSettings, k: int)
    requires
        0 <= k < until_loading(settings).len(),
    ensures
        until_loading(settings)[k] == Stage::GatherAudio || until_loading(settings)[k]
            == Stage::ExtractFeatures || until_loading(settings)[k] == Stage::Train,
{
}

proof fn lemma_after_loading(settings: CommonSettings, k: int)
    requires
        0 <= k < after_loading(settings).len(),
    ensures
        after_loading(settings)[k] == Stage::PredictFiles ==> settings.stt_settings.predict.enable,
        after_loading(settings)[k] == Stage::RealTime ==> settings.stt_settings.predict.real_time,
        after_loading(settings)[k] == Stage::PredictFiles || after_loading(settings)[k]
            == Stage::RealTime || after_loading(settings)[k] == Stage::WaitForKey,
{
}

/// A model is loaded at one place only, and where a prediction is run, that place
/// stands before it.
proof fn lemma_place_of_loading(settings: CommonSettings, i: int)
    requires
        0 <= i < run(settings).len(),
    ensures
        run(settings)[i] == Stage::LoadModel <==> loading(settings).len() == 1 && i == until_loading(
            settings,
        ).len(),
        run(settings)[i] == Stage::Train ==> i < until_loading(settings).len(),
        run(settings)[i] == Stage::PredictFiles || run(settings)[i] == Stage::RealTime ==> {
            &&& loading(settings).len() == 1
            &&& until_loading(settings).len() < i
        },
{
    lemma_parts(settings);
    let head = until_loading(settings).len() as int;
    let mid = head + loading(settings).len();
    if i < head {
        lemma_until_loading(settings, i);
        assert(run(settings)[i] == until_loading(settings)[i]);
    } else if i < mid {
        assert(run(settings)[i] == loading(settings)[i - head]);
    } else {
        lemma_after_loading(settings, i - mid);
        assert(run(settings)[i] == after_loading(settings)[i - mid]);
    }
}

/// The model is loaded once, and before it is used: exactly one loading stands
/// before every prediction, and none is run without one.
pub proof fn model_is_loaded_before_use(settings: CommonSettings, i: int)
    requires
        0 <= i < run(settings).len(),
        run(settings)[i] == Stage::PredictFiles || run(settings)[i] == Stage::RealTime,
    ensures
        exists|j: int| 0 <= j < i && #[trigger] run(settings)[j] == Stage::LoadModel,
        forall|j: int, k: int|
            0 <= j < run(settings).len() && 0 <= k < run(settings).len() && #[trigger] run(settings)[j]
                == Stage::LoadModel && #[trigger] run(settings)[k] == Stage::LoadModel ==> j == k,
{
    let r = run(settings);
    let at = until_loading(settings).len() as int;
    lemma_place_of_loading(settings, i);
    lemma_place_of_loading(settings, at);
    assert(r[at] == Stage::LoadModel);
    assert forall|j: int| 0 <= j < r.len() && #[trigger] r[j] == Stage::LoadModel implies j == at by {
        lemma_place_of_loading(settings, j);
    }
}

/// A run that both trains and loads a model trains first.
pub proof fn training_precedes_loading(settings: CommonSettings, i: int, j: int)
    requires
        0 <= i < run(settings).len(),
        0 <= j < run(settings).len(),
        run(settings)[i] == Stage::Train,
        run(settings)[j] == Stage::LoadModel,
    ensures
        i < j,
{
    lemma_place_of_loading(settings, i);
    lemma_place_of_loading(settings, j);
}

/// The place of a stage in the order of all stages.
spec fn rank(stage: Stage) -> int {
    match stage {
        Stage::GatherAudio => 0,
        Stage::ExtractFeatures => 1,
        Stage::Train => 2,
        Stage::LoadModel => 3,
        Stage::PredictFiles => 4,
        Stage::RealTime => 5,
        Stage::WaitForKey => 6,
    }
}

spec fn ranked(list: Seq<Stage>) -> bool {
    forall|i: int, j: int| 0 <= i < j < list.len() ==> rank(#[trigger] list[i]) < rank(#[trigger] list[j])
}

proof fn lemma_add_stage(list: Seq<Stage>, condition: bool, stage: Stage)
    requires
        ranked(list),
        forall|i: int| 0 <= i < list.len() ==> rank(#[trigger] list[i]) < rank(stage),
    ensures
        ranked(list + stage_if(condition, stage)),
        forall|i: int|
            0 <= i < (list + stage_if(condition, stage)).len() ==> rank(
                #[trigger] (list + stage_if(condition, stage))[i],
            ) <= rank(stage),
        forall|other: Stage| #[trigger]
            (list + stage_if(condition, stage)).contains(other) <==> list.contains(other) || (condition
                && other == stage),
{
    let longer = list + stage_if(condition, stage);
    assert forall|other: Stage| #[trigger]
        longer.contains(other) <==> list.contains(other) || (condition && other == stage) by {
        if longer.contains(other) {
            let i = choose|i: int| 0 <= i < longer.len() && longer[i] == other;
            if i < list.len() {
                assert(list[i] == other);
            }
        }
        if list.contains(other) {
            let i = choose|i: int| 0 <= i < list.len() && list[i] == other;
            assert(longer[i] == other);
        }
        if condition && other == stage {
            assert(longer[list.len() as int] == other);
        }
    }
}

proof fn lemma_stages(settings: CommonSettings)
    ensures
        ranked(run(settings)),
        forall|stage: Stage| #[trigger]
            run(settings).contains(stage) <==> (match stage {
                Stage::GatherAudio => true,
                Stage::ExtractFeatures => true,
                Stage::Train => settings.stt_settings.monophone_training.enable,
                Stage::LoadModel => settings.stt_settings.predict.enable
                    || settings.stt_settings.predict.real_time,
                Stage::PredictFiles => settings.stt_settings.predict.enable,
                Stage::RealTime => settings.stt_settings.predict.real_time,
                Stage::WaitForKey => settings.general.end_press_key,
            }),
{
    let predict = settings.stt_settings.predict;
    let train = settings.stt_settings.monophone_training.enable;
    let s0 = seq![Stage::GatherAudio, Stage::ExtractFeatures];
    assert(s0[0] == Stage::GatherAudio && s0[1] == Stage::ExtractFeatures);
    assert(s0.contains(Stage::GatherAudio) && s0.contains(Stage::ExtractFeatures));
    assert(ranked(s0));
    let s1 = s0 + stage_if(train, Stage::Train);
    lemma_add_stage(s0, train, Stage::Train);
    let s2 = s1 + stage_if(predict.enable || predict.real_time, Stage::LoadModel);
    lemma_add_stage(s1, predict.enable || predict.real_time, Stage::LoadModel);
    let s3 = s2 + stage_if(predict.enable, Stage::PredictFiles);
    lemma_add_stage(s2, predict.enable, Stage::PredictFiles);
    let s4 = s3 + stage_if(predict.real_time, Stage::RealTime);
    lemma_add_stage(s3, predict.real_time, Stage::RealTime);
    lemma_add_stage(s4, settings.general.end_press_key, Stage::WaitForKey);
    assert(run(settings) == s4 + stage_if(settings.general.end_press_key, Stage::WaitForKey));
}

/// Every stage is run exactly if its own switch is on, whatever the others are: the
/// audio is always gathered and its features extracted, and the model is loaded if
/// anything is predicted.
pub proof fn stage_is_run_if_its_switch_is_on(settings: CommonSettings)
    ensures
        run(settings).contains(Stage::GatherAudio),
        run(settings).contains(Stage::ExtractFeatures),
        run(settings).contains(Stage::Train) <==> settings.stt_settings.monophone_training.enable,
        run(settings).contains(Stage::LoadModel) <==> settings.stt_settings.predict.enable
            || settings.stt_settings.predict.real_time,
        run(settings).contains(Stage::PredictFiles) <==> settings.stt_settings.predict.enable,
        run(settings).contains(Stage::RealTime) <==> settings.stt_settings.predict.real_time,
        run(settings).contains(Stage::WaitForKey) <==> settings.general.end_press_key,
{
    lemma_stages(settings);
}

/// No stage is run twice.
pub proof fn no_stage_is_run_twice(settings: CommonSettings)
    ensures
        run(settings).no_duplicates(),
{
    lemma_stages(settings);
}

/// What a stage needs is run before it: the audio is gathered first and its features
/// extracted next, a model is trained before one is loaded and loaded before it is
/// used, files are predicted before the microphone is decoded, and the wait for a key
/// ends the run.
pub proof fn stages_are_run_in_order(settings: CommonSettings, i: int, j: int)
    requires
        0 <= i < run(settings).len(),
        0 <= j < run(settings).len(),
    ensures
        run(settings)[i] == Stage::GatherAudio <==> i == 0,
        run(settings)[i] == Stage::ExtractFeatures <==> i == 1,
        run(settings)[i] == Stage::Train && run(settings)[j] == Stage::LoadModel ==> i < j,
        run(settings)[i] == Stage::Train && run(settings)[j] == Stage::PredictFiles ==> i < j,
        run(settings)[i] == Stage::Train && run(settings)[j] == Stage::RealTime ==> i < j,
        run(settings)[i] == Stage::LoadModel && run(settings)[j] == Stage::PredictFiles ==> i < j,
        run(settings)[i] == Stage::LoadModel && run(settings)[j] == Stage::RealTime ==> i < j,
        run(settings)[i] == Stage::PredictFiles && run(settings)[j] == Stage::RealTime ==> i < j,
        run(settings)[i] == Stage::WaitForKey ==> i == run(settings).len() - 1,
{
    let r = run(settings);
    lemma_stages(settings);
    assert(r[0] == Stage::GatherAudio && r[1] == Stage::ExtractFeatures);
    if i < j {
        assert(rank(r[i]) < rank(r[j]));
    } else if j < i {
        assert(rank(r[j]) < rank(r[i]));
    }
    let last = r.len() - 1;
    if i > 1 {
        assert(rank(r[1]) < rank(r[i]));
    }
    if r[i] == Stage::WaitForKey && i < last {
        assert(rank(r[i]) < rank(r[last]));
    }
}

} // verus!
