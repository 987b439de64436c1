//! What a search leaves to whoever runs it.

use vstd::prelude::*;

use crate::error::{Error, ErrorModel};
use crate::fitness::FitnessMode;
use crate::float::Binary32;
use crate::probe::{MeasurementModel, ProbeMeasurement};
use crate::search::checkpoint::{CheckpointModel, SearchCheckpoint};
use crate::search::report::{EventModel, SearchEvent};
use crate::search::session::Draw;

verus! {

/// Whoever runs a search. Nothing is promised of the answers.
pub trait SearchHost: Sized {
    /// Whether the search is asked to stop.
    fn cancelled(&mut self) -> bool;

    /// Picks one of the rows on offer by its weight, or none where the weights give
    /// nothing to go by. A place that is not on offer counts as none.
    fn weigh(&mut self, draw: &Draw) -> Option<usize>;

    /// The fitness of measurements against their baselines.
    fn fitness(
        &mut self,
        mode: FitnessMode,
        control_penalty: Binary32,
        target: &[ProbeMeasurement],
        control: &[ProbeMeasurement],
        target_baseline: &[ProbeMeasurement],
        control_baseline: &[ProbeMeasurement],
    ) -> Result<Binary32, Error>;

    /// Saves a checkpoint, and answers whether there is a place to save it to.
    fn save(&mut self, checkpoint: &SearchCheckpoint) -> Result<bool, Error>;

    /// Takes note of what happens.
    fn on_event(&mut self, event: &SearchEvent);
}

/// What was asked of a host, and the answer.
#[allow(inconsistent_fields)]
pub enum HostCall {
    Cancelled { reply: bool },
    Weigh { weights: Seq<Binary32>, ticket: u64, reply: Option<usize> },
    Fitness {
        mode: FitnessMode,
        control_penalty: Binary32,
        target: Seq<MeasurementModel>,
        control: Seq<MeasurementModel>,
        target_baseline: Seq<MeasurementModel>,
        control_baseline: Seq<MeasurementModel>,
        reply: Result<Binary32, ErrorModel>,
    },
    Save { checkpoint: CheckpointModel, reply: Result<bool, ErrorModel> },
    Event { event: EventModel },
}

/// A host with a record of what was asked of it.
pub struct Watched<H> {
    host: H,
    asked: Ghost<Seq<HostCall>>,
}

impl<H> Watched<H> {
    pub closed spec fn record(&self) -> Seq<HostCall> {
        self.asked@
    }

    pub closed spec fn watched(&self) -> H {
        self.host
    }

    pub fn new(host: H) -> (r: Watched<H>)
        ensures
            r.record() == Seq::<HostCall>::empty(),
            r.watched() == host,
    {
        Watched { host, asked: Ghost(Seq::empty()) }
    }

    pub fn into_host(self) -> (r: H)
        ensures
            r == self.watched(),
    {
        self.host
    }
}

impl<H: SearchHost> Watched<H> {
    pub(crate) fn cancelled(&mut self) -> (r: bool)
        ensures
            final(self).record() == old(self).record().push(HostCall::Cancelled { reply: r }),
    {
        let r: bool = self.host.cancelled();
        self.asked = Ghost(self.asked@.push(HostCall::Cancelled { reply: r }));
        r
    }

    pub(crate) fn weigh(&mut self, draw: &Draw) -> (r: Option<usize>)
        ensures
            final(self).record() == old(self).record().push(
                HostCall::Weigh { weights: draw.weights@, ticket: draw.ticket, reply: r },
            ),
    {
        let r: Option<usize> = self.host.weigh(draw);
        self.asked = Ghost(
            self.asked@.push(
                HostCall::Weigh { weights: draw.weights@, ticket: draw.ticket, reply: r },
            ),
        );
        r
    }

    pub(crate) fn fitness(
        &mut self,
        mode: FitnessMode,
        control_penalty: Binary32,
        target: &[ProbeMeasurement],
        control: &[ProbeMeasurement],
        target_baseline: &[ProbeMeasurement],
        control_baseline: &[ProbeMeasurement],
    ) -> (r: Result<Binary32, Error>)
        ensures
            final(self).record() == old(self).record().push(
                HostCall::Fitness {
                    mode,
                    control_penalty,
                    target: crate::probe::measurement_models(target@),
                    control: crate::probe::measurement_models(control@),
                    target_baseline: crate::probe::measurement_models(target_baseline@),
                    control_baseline: crate::probe::measurement_models(control_baseline@),
                    reply: crate::backend::answer(r),
                },
            ),
    {
        let r: Result<Binary32, Error> = self.host.fitness(
            mode,
            control_penalty,
            target,
            control,
            target_baseline,
            control_baseline,
        );
        self.asked = Ghost(
            self.asked@.push(
                HostCall::Fitness {
                    mode,
                    control_penalty,
                    target: crate::probe::measurement_models(target@),
                    control: crate::probe::measurement_models(control@),
                    target_baseline: crate::probe::measurement_models(target_baseline@),
                    control_baseline: crate::probe::measurement_models(control_baseline@),
                    reply: crate::backend::answer(r),
                },
            ),
        );
        r
    }

    pub(crate) fn save(&mut self, checkpoint: &SearchCheckpoint) -> (r: Result<bool, Error>)
        ensures
            final(self).record() == old(self).record().push(
                HostCall::Save { checkpoint: checkpoint@, reply: crate::backend::answer(r) },
            ),
    {
        let r: Result<bool, Error> = self.host.save(checkpoint);
        self.asked = Ghost(
            self.asked@.push(
                HostCall::Save { checkpoint: checkpoint@, reply: crate::backend::answer(r) },
            ),
        );
        r
    }

    pub(crate) fn on_event(&mut self, event: &SearchEvent)
        ensures
            final(self).record() == old(self).record().push(HostCall::Event { event: event@ }),
    {
        self.host.on_event(event);
        self.asked = Ghost(self.asked@.push(HostCall::Event { event: event@ }));
    }
}

/// The two entries are the same question.
pub open spec fn same_question(a: HostCall, b: HostCall) -> bool {
    match a {
        HostCall::Cancelled { .. } => b is Cancelled,
        HostCall::Weigh { weights, ticket, .. } => b is Weigh && b->weights == weights && b->ticket
            == ticket,
        HostCall::Fitness {
            mode,
            control_penalty,
            target,
            control,
            target_baseline,
            control_baseline,
            ..
        } => {
            &&& b is Fitness
            &&& b->mode == mode
            &&& b->control_penalty == control_penalty
            &&& b->target == target
            &&& b->control == control
            &&& b->target_baseline == target_baseline
            &&& b->control_baseline == control_baseline
        },
        HostCall::Save { checkpoint, .. } => b is Save && b->checkpoint == checkpoint,
        HostCall::Event { .. } => a == b,
    }
}

/// The two hosts answer alike: the same question after the same questions has the
/// same answer.
pub open spec fn replies_alike(a: Seq<HostCall>, b: Seq<HostCall>) -> bool {
    forall|i: int|
        0 <= i < a.len() && i < b.len() && a.take(i) == b.take(i) && #[trigger] same_question(
            a[i],
            b[i],
        ) ==> a[i] == b[i]
}

pub proof fn lemma_replies_parts(
    a: Seq<HostCall>,
    more_a: Seq<HostCall>,
    b: Seq<HostCall>,
    more_b: Seq<HostCall>,
)
    requires
        replies_alike(a + more_a, b + more_b),
    ensures
        replies_alike(a, b),
        a == b ==> replies_alike(more_a, more_b),
{
    let all_a = a + more_a;
    let all_b = b + more_b;
    assert forall|i: int|
        0 <= i < a.len() && i < b.len() && a.take(i) == b.take(i) && #[trigger] same_question(
            a[i],
            b[i],
        ) implies a[i] == b[i] by {
        assert(all_a.take(i) =~= a.take(i));
        assert(all_b.take(i) =~= b.take(i));
        assert(same_question(all_a[i], all_b[i]));
    }
    if a == b {
        assert forall|i: int|
            0 <= i < more_a.len() && i < more_b.len() && more_a.take(i) == more_b.take(i)
                && #[trigger] same_question(more_a[i], more_b[i]) implies more_a[i]
            == more_b[i] by {
            let j = a.len() + i;
            assert(all_a.take(j) =~= a + more_a.take(i));
            assert(all_b.take(j) =~= b + more_b.take(i));
            assert(all_a[j] == more_a[i] && all_b[j] == more_b[i]);
            assert(same_question(all_a[j], all_b[j]));
        }
    }
}

/// The first question has the same answer, where it is the same.
pub proof fn lemma_first_reply(
    a: HostCall,
    more_a: Seq<HostCall>,
    b: HostCall,
    more_b: Seq<HostCall>,
)
    requires
        replies_alike(seq![a] + more_a, seq![b] + more_b),
        same_question(a, b),
    ensures
        a == b,
        replies_alike(more_a, more_b),
{
    let all_a = seq![a] + more_a;
    let all_b = seq![b] + more_b;
    assert(all_a.take(0) =~= all_b.take(0));
    assert(same_question(all_a[0], all_b[0]));
    lemma_replies_parts(seq![a], more_a, seq![b], more_b);
}

} // verus!
