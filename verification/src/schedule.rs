//! The steps of a monophone training, in the order in which they are run.

use crate::settings::TrainingSettings;
use vstd::prelude::*;

verus! {

/// Passes of the re-estimation before each split.
pub const PASSES_BEFORE_SPLIT: usize = 3;

/// One step of the training.
#[derive(Debug, Clone, Copy, PartialEq, Eq, Structural)]
pub enum TrainStep {
    /// Give the phone of this position its first model, from the features of all
    /// phones.
    FlatStart { phone: usize },
    /// Re-estimate all phones, in so many passes.
    BaumWelch { passes: usize },
    /// Split the components of every state of every phone.
    SplitUp,
    /// Generate the functions of the finished model.
    GenerateFnModel,
}

/// How often the components are split: once for each component but the first.
pub open spec fn split_count(component_per_state: usize) -> nat {
    if component_per_state == 0 {
        0
    } else {
        (component_per_state - 1) as nat
    }
}

/// A flat start of each phone from position `from` on.
pub open spec fn flat_starts(from: nat, phones: nat) -> Seq<TrainStep> {
    Seq::new(
        (phones - from) as nat,
        |i: int| TrainStep::FlatStart { phone: (from + i) as usize },
    )
}

/// Rounds of a short re-estimation followed by a split.
pub open spec fn rounds(count: nat) -> Seq<TrainStep> {
    Seq::new(
        2 * count,
        |i: int|
            if i % 2 == 0 {
                TrainStep::BaumWelch { passes: PASSES_BEFORE_SPLIT }
            } else {
                TrainStep::SplitUp
            },
    )
}

/// The last re-estimation, and the generation of the model's functions.
pub open spec fn finish(iteration: usize) -> Seq<TrainStep> {
    seq![TrainStep::BaumWelch { passes: iteration }, TrainStep::GenerateFnModel]
}

/// The whole training: a flat start of each phone, a round for each split, and
/// the finish.
pub open spec fn training(phones: nat, settings: TrainingSettings) -> Seq<TrainStep> {
    flat_starts(0, phones) + rounds(split_count(settings.component_per_state)) + finish(
        settings.iteration,
    )
}

/// Of the steps `before`, the first one is handed out, and the others are left. Where
/// there is none, nothing is handed out.
pub open spec fn hands_out(
    before: Seq<TrainStep>,
    step: Option<TrainStep>,
    after: Seq<TrainStep>,
) -> bool {
    if before.len() == 0 {
        step is None && after == before
    } else {
        step == Some(before[0]) && after == before.drop_first()
    }
}

/// Where a training stands.
#[derive(Debug, Clone, Copy, PartialEq, Eq, Structural)]
enum Phase {
    /// The phone to give a flat start next.
    Flat(usize),
    /// The next short re-estimation, with so many splits to come.
    Estimate(usize),
    /// The split that follows it, with so many splits to come, this one included.
    Split(usize),
    Last,
    Generate,
    Done,
}

/// A training that hands out its steps one by one.
#[derive(Debug, Clone, Copy, PartialEq, Eq, Structural)]
pub struct TrainSchedule {
    phones: usize,
    splits: usize,
    iteration: usize,
    phase: Phase,
}

impl TrainSchedule {
    /// The counters lie within their bounds.
    pub closed spec fn wf(&self) -> bool {
        match self.phase {
            Phase::Flat(phone) => phone < self.phones,
            Phase::Estimate(left) => 0 < left <= self.splits,
            Phase::Split(left) => 0 < left <= self.splits,
            _ => true,
        }
    }

    /// The steps that are still to come.
    pub closed spec fn remaining(&self) -> Seq<TrainStep> {
        match self.phase {
            Phase::Flat(phone) => flat_starts(phone as nat, self.phones as nat) + rounds(
                self.splits as nat,
            ) + finish(self.iteration),
            Phase::Estimate(left) => rounds(left as nat) + finish(self.iteration),
            Phase::Split(left) => seq![TrainStep::SplitUp] + rounds((left - 1) as nat) + finish(
                self.iteration,
            ),
            Phase::Last => finish(self.iteration),
            Phase::Generate => seq![TrainStep::GenerateFnModel],
            Phase::Done => Seq::empty(),
        }
    }

    /// The phase in which so many splits are still to come.
    fn rounds_phase(left: usize) -> (phase: Phase)
        ensures
            phase == (if left == 0 {
                Phase::Last
            } else {
                Phase::Estimate(left)
            }),
    {
        if left == 0 {
            Phase::Last
        } else {
            Phase::Estimate(left)
        }
    }

    /// The training of so many phones, before its first step.
    pub fn new(phones: usize, settings: TrainingSettings) -> (schedule: Self)
        ensures
            schedule.wf(),
            schedule.remaining() == training(phones as nat, settings),
            settings.component_per_state >= 1 ==> schedule.remaining().len() == phones + 2 * (
            settings.component_per_state - 1) + 2,
            settings.component_per_state == 0 ==> schedule.remaining().len() == phones + 2,
    {
        let splits: usize = if settings.component_per_state == 0 {
            0
        } else {
            settings.component_per_state - 1
        };
        let phase: Phase = if phones == 0 {
            Self::rounds_phase(splits)
        } else {
            Phase::Flat(0)
        };
        let schedule: TrainSchedule = TrainSchedule {
            phones,
            splits,
            iteration: settings.iteration,
            phase,
        };
        assert(schedule.remaining() =~= training(phones as nat, settings));
        schedule
    }

    /// Hands out the next step, if there is one.
    pub fn next_step(&mut self) -> (step: Option<TrainStep>)
        requires
            old(self).wf(),
        ensures
            final(self).wf(),
            hands_out(old(self).remaining(), step, final(self).remaining()),
            step is None <==> old(self).remaining().len() == 0,
            step is None ==> final(self).remaining().len() == 0,
            step matches Some(handed) ==> old(self).remaining() == seq![handed]
                + final(self).remaining(),
    {
        let ghost before = self.remaining();
        let step: Option<TrainStep> = match self.phase {
            Phase::Flat(phone) => {
                self.phase = if phone + 1 < self.phones {
                    Phase::Flat(phone + 1)
                } else {
                    Self::rounds_phase(self.splits)
                };
                Some(TrainStep::FlatStart { phone })
            },
            Phase::Estimate(left) => {
                self.phase = Phase::Split(left);
                Some(TrainStep::BaumWelch { passes: PASSES_BEFORE_SPLIT })
            },
            Phase::Split(left) => {
                self.phase = Self::rounds_phase(left - 1);
                Some(TrainStep::SplitUp)
            },
            Phase::Last => {
                self.phase = Phase::Generate;
                Some(TrainStep::BaumWelch { passes: self.iteration })
            },
            Phase::Generate => {
                self.phase = Phase::Done;
                Some(TrainStep::GenerateFnModel)
            },
            Phase::Done => None,
        };
        assert(step is Some ==> self.remaining() =~= before.drop_first());
        assert(step is Some ==> before =~= seq![step->0] + self.remaining());
        step
    }
}

/// A schedule that is asked until it has nothing left hands out the training, step
/// by step.
pub proof fn schedule_hands_out_the_training(
    phones: nat,
    settings: TrainingSettings,
    states: Seq<TrainSchedule>,
    steps: Seq<TrainStep>,
)
    requires
        states.len() == steps.len() + 1,
        states[0].remaining() == training(phones, settings),
        forall|k: int|
            0 <= k < steps.len() ==> hands_out(
                (#[trigger] states[k]).remaining(),
                Some(steps[k]),
                states[k + 1].remaining(),
            ),
        states.last().remaining().len() == 0,
    ensures
        steps == training(phones, settings),
{
    let n = steps.len() as int;
    lemma_handed_out(phones, settings, states, steps, n);
    assert(training(phones, settings).skip(n).len() == 0);
    assert(steps =~= training(phones, settings)) by {
        assert(steps.take(n) =~= steps);
        assert(training(phones, settings).take(n) =~= training(phones, settings));
    }
}

proof fn lemma_handed_out(
    phones: nat,
    settings: TrainingSettings,
    states: Seq<TrainSchedule>,
    steps: Seq<TrainStep>,
    k: int,
)
    requires
        states.len() == steps.len() + 1,
        states[0].remaining() == training(phones, settings),
        forall|k: int|
            0 <= k < steps.len() ==> hands_out(
                (#[trigger] states[k]).remaining(),
                Some(steps[k]),
                states[k + 1].remaining(),
            ),
        0 <= k <= steps.len(),
    ensures
        k <= training(phones, settings).len(),
        states[k].remaining() == training(phones, settings).skip(k),
        steps.take(k) == training(phones, settings).take(k),
    decreases k,
{
    let all = training(phones, settings);
    if k == 0 {
        assert(all.skip(0) =~= all);
        assert(steps.take(0) =~= all.take(0));
    } else {
        lemma_handed_out(phones, settings, states, steps, k - 1);
        assert(hands_out(states[k - 1].remaining(), Some(steps[k - 1]), states[k - 1 + 1].remaining()));
        assert(all.skip(k - 1).drop_first() =~= all.skip(k));
        assert(steps.take(k) =~= steps.take(k - 1).push(steps[k - 1]));
        assert(all.take(k) =~= all.take(k - 1).push(all[k - 1]));
    }
}

/// The splits among some steps.
pub open spec fn splits_in(steps: Seq<TrainStep>) -> nat
    decreases steps.len(),
{
    if steps.len() == 0 {
        0
    } else {
        splits_in(steps.drop_last()) + if steps.last() == TrainStep::SplitUp {
            1nat
        } else {
            0nat
        }
    }
}

proof fn lemma_splits_in_concatenation(a: Seq<TrainStep>, b: Seq<TrainStep>)
    ensures
        splits_in(a + b) == splits_in(a) + splits_in(b),
    decreases b.len(),
{
    if b.len() == 0 {
        assert(a + b =~= a);
    } else {
        assert((a + b).drop_last() =~= a + b.drop_last());
        lemma_splits_in_concatenation(a, b.drop_last());
    }
}

proof fn lemma_splits_in_rounds(count: nat)
    ensures
        splits_in(rounds(count)) == count,
    decreases count,
{
    if count > 0 {
        let r = rounds(count);
        let estimate = r.drop_last();
        assert(estimate.drop_last() =~= rounds((count - 1) as nat));
        assert(r.last() == TrainStep::SplitUp);
        assert(estimate.last() != TrainStep::SplitUp);
        lemma_splits_in_rounds((count - 1) as nat);
        assert(splits_in(estimate) == splits_in(estimate.drop_last()));
    }
}

proof fn lemma_no_splits(steps: Seq<TrainStep>)
    requires
        forall|i: int| 0 <= i < steps.len() ==> #[trigger] steps[i] != TrainStep::SplitUp,
    ensures
        splits_in(steps) == 0,
    decreases steps.len(),
{
    if steps.len() > 0 {
        lemma_no_splits(steps.drop_last());
    }
}

/// A training splits the components once for each component but the first, so
/// not at all where no more than one component is asked for.
pub proof fn training_splits_for_each_further_component(phones: nat, settings: TrainingSettings)
    ensures
        splits_in(training(phones, settings)) == split_count(settings.component_per_state),
{
    let flat = flat_starts(0, phones);
    let middle = rounds(split_count(settings.component_per_state));
    let last = finish(settings.iteration);
    lemma_splits_in_concatenation(flat + middle, last);
    lemma_splits_in_concatenation(flat, middle);
    lemma_no_splits(flat);
    lemma_splits_in_rounds(split_count(settings.component_per_state));
    lemma_no_splits(last);
}

/// Every phone gets one flat start, in the order of the phones and before
/// anything is re-estimated.
pub proof fn every_phone_starts_first(phones: nat, settings: TrainingSettings, i: int)
    requires
        phones <= usize::MAX,
        0 <= i < training(phones, settings).len(),
    ensures
        phones <= training(phones, settings).len(),
        i < phones ==> training(phones, settings)[i] == (TrainStep::FlatStart { phone: i as usize }),
        i >= phones ==> training(phones, settings)[i] !is FlatStart,
{
}

/// A split is never run on models that were not re-estimated since the last one:
/// the step before it is a short re-estimation. The step after it is a
/// re-estimation again.
pub proof fn splits_stand_between_estimations(phones: nat, settings: TrainingSettings, i: int)
    requires
        0 <= i < training(phones, settings).len(),
        training(phones, settings)[i] == TrainStep::SplitUp,
    ensures
        i > 0,
        training(phones, settings)[i - 1] == (TrainStep::BaumWelch { passes: PASSES_BEFORE_SPLIT }),
        i + 1 < training(phones, settings).len(),
        training(phones, settings)[i + 1] is BaumWelch,
{
}

/// The training ends with a re-estimation of the set number of passes, after
/// which only the model's functions are generated.
pub proof fn training_ends_with_the_set_passes(phones: nat, settings: TrainingSettings)
    ensures
        training(phones, settings).len() >= 2,
        training(phones, settings)[training(phones, settings).len() - 2] == (TrainStep::BaumWelch {
            passes: settings.iteration,
        }),
        training(phones, settings).last() == TrainStep::GenerateFnModel,
{
}

/// The number of splits is the number of components less one, and there is none where
/// no component is asked for.
pub proof fn splits_are_components_less_one(phones: nat, settings: TrainingSettings)
    ensures
        settings.component_per_state >= 1 ==> training(phones, settings).filter(
            |step: TrainStep| step == TrainStep::SplitUp,
        ).len() == settings.component_per_state - 1,
        settings.component_per_state == 0 ==> training(phones, settings).filter(
            |step: TrainStep| step == TrainStep::SplitUp,
        ).len() == 0,
{
    lemma_splits_are_filtered(training(phones, settings));
    training_splits_for_each_further_component(phones, settings);
}

proof fn lemma_splits_are_filtered(steps: Seq<TrainStep>)
    ensures
        steps.filter(|step: TrainStep| step == TrainStep::SplitUp).len() == splits_in(steps),
    decreases steps.len(),
{
    reveal(Seq::filter);
    if steps.len() > 0 {
        lemma_splits_are_filtered(steps.drop_last());
    }
}

/// A training without more than one component is the flat starts, the set number of
/// passes, and the generation.
pub proof fn training_of_one_component(phones: nat, settings: TrainingSettings)
    requires
        settings.component_per_state <= 1,
    ensures
        training(phones, settings).len() == phones + 2,
        training(phones, settings)[phones as int] == (TrainStep::BaumWelch {
            passes: settings.iteration,
        }),
        training(phones, settings)[phones as int + 1] == TrainStep::GenerateFnModel,
{
}

/// One more component adds one round, three passes and a split, right after the flat
/// starts, and changes nothing else.
pub proof fn one_more_component_adds_one_round(
    phones: nat,
    settings: TrainingSettings,
    more: TrainingSettings,
)
    requires
        settings.component_per_state >= 1,
        more.component_per_state == settings.component_per_state + 1,
        more.iteration == settings.iteration,
    ensures
        training(phones, more) == training(phones, settings).take(phones as int) + seq![
            TrainStep::BaumWelch { passes: 3 },
            TrainStep::SplitUp,
        ] + training(phones, settings).skip(phones as int),
{
    assert(training(phones, more) =~= training(phones, settings).take(phones as int) + seq![
        TrainStep::BaumWelch { passes: 3 },
        TrainStep::SplitUp,
    ] + training(phones, settings).skip(phones as int));
}

/// One more phone adds one flat start, after those of the other phones, and changes
/// nothing else.
pub proof fn one_more_phone_adds_one_flat_start(phones: nat, settings: TrainingSettings)
    requires
        phones < usize::MAX,
    ensures
        training(phones + 1, settings) == training(phones, settings).take(phones as int) + seq![
            TrainStep::FlatStart { phone: phones as usize },
        ] + training(phones, settings).skip(phones as int),
{
    assert(training(phones + 1, settings) =~= training(phones, settings).take(phones as int) + seq![
        TrainStep::FlatStart { phone: phones as usize },
    ] + training(phones, settings).skip(phones as int));
}

} // verus!
