//! What a search reports.

use vstd::prelude::*;

use crate::float::Binary32;
use crate::patch::{Patch, PatchFlip, PatchModel};
use crate::probe::{MeasurementModel, ProbeMeasurement};

verus! {

/// What the model is left with.
#[derive(Clone, Copy, Debug, PartialEq, Eq, Structural)]
pub enum ModelPatchState {
    Baseline,
    AcceptedPatchApplied,
}

/// What happens in a search.
#[allow(inconsistent_fields)]
#[derive(Debug)]
pub enum SearchEvent {
    Baseline { target: Vec<ProbeMeasurement>, control: Vec<ProbeMeasurement> },
    Candidate { iteration: usize, flip: PatchFlip },
    ScreenedOut { iteration: usize, flip: PatchFlip },
    Rejected { iteration: usize, flip: PatchFlip, fitness: Binary32, best_fitness: Binary32 },
    Accepted { iteration: usize, flip: PatchFlip, fitness: Binary32, accepted: usize },
    Checkpoint { iteration: usize },
    Completed { iterations: usize, accepted: usize, fitness: Binary32 },
}

#[allow(inconsistent_fields)]
pub enum EventModel {
    Baseline { target: Seq<MeasurementModel>, control: Seq<MeasurementModel> },
    Candidate { iteration: nat, flip: PatchFlip },
    ScreenedOut { iteration: nat, flip: PatchFlip },
    Rejected { iteration: nat, flip: PatchFlip, fitness: Binary32, best_fitness: Binary32 },
    Accepted { iteration: nat, flip: PatchFlip, fitness: Binary32, accepted: nat },
    Checkpoint { iteration: nat },
    Completed { iterations: nat, accepted: nat, fitness: Binary32 },
}

impl View for SearchEvent {
    type V = EventModel;

    open spec fn view(&self) -> EventModel {
        match self {
            SearchEvent::Baseline { target, control } => EventModel::Baseline {
                target: crate::probe::measurement_models(target@),
                control: crate::probe::measurement_models(control@),
            },
            SearchEvent::Candidate { iteration, flip } => EventModel::Candidate {
                iteration: *iteration as nat,
                flip: *flip,
            },
            SearchEvent::ScreenedOut { iteration, flip } => EventModel::ScreenedOut {
                iteration: *iteration as nat,
                flip: *flip,
            },
            SearchEvent::Rejected { iteration, flip, fitness, best_fitness } =>
            EventModel::Rejected {
                iteration: *iteration as nat,
                flip: *flip,
                fitness: *fitness,
                best_fitness: *best_fitness,
            },
            SearchEvent::Accepted { iteration, flip, fitness, accepted } => EventModel::Accepted {
                iteration: *iteration as nat,
                flip: *flip,
                fitness: *fitness,
                accepted: *accepted as nat,
            },
            SearchEvent::Checkpoint { iteration } => EventModel::Checkpoint {
                iteration: *iteration as nat,
            },
            SearchEvent::Completed { iterations, accepted, fitness } => EventModel::Completed {
                iterations: *iterations as nat,
                accepted: *accepted as nat,
                fitness: *fitness,
            },
        }
    }
}

impl Clone for SearchEvent {
    fn clone(&self) -> (r: SearchEvent)
        ensures
            r@ == self@,
    {
        match self {
            SearchEvent::Baseline { target, control } => SearchEvent::Baseline {
                target: crate::probe::copy_measurements(target.as_slice()),
                control: crate::probe::copy_measurements(control.as_slice()),
            },
            SearchEvent::Candidate { iteration, flip } => SearchEvent::Candidate {
                iteration: *iteration,
                flip: *flip,
            },
            SearchEvent::ScreenedOut { iteration, flip } => SearchEvent::ScreenedOut {
                iteration: *iteration,
                flip: *flip,
            },
            SearchEvent::Rejected { iteration, flip, fitness, best_fitness } =>
            SearchEvent::Rejected {
                iteration: *iteration,
                flip: *flip,
                fitness: *fitness,
                best_fitness: *best_fitness,
            },
            SearchEvent::Accepted { iteration, flip, fitness, accepted } => SearchEvent::Accepted {
                iteration: *iteration,
                flip: *flip,
                fitness: *fitness,
                accepted: *accepted,
            },
            SearchEvent::Checkpoint { iteration } => SearchEvent::Checkpoint {
                iteration: *iteration,
            },
            SearchEvent::Completed { iterations, accepted, fitness } => SearchEvent::Completed {
                iterations: *iterations,
                accepted: *accepted,
                fitness: *fitness,
            },
        }
    }
}

/// What a search has found.
#[derive(Debug)]
pub struct SearchResult {
    pub patch: Patch,
    pub target_baseline: Vec<ProbeMeasurement>,
    pub control_baseline: Vec<ProbeMeasurement>,
    pub final_target: Vec<ProbeMeasurement>,
    pub final_control: Vec<ProbeMeasurement>,
    pub final_fitness: Binary32,
    pub completed_iterations: usize,
    pub tried_candidates: usize,
    pub screened_out: usize,
    pub model_state: ModelPatchState,
}

pub struct ResultModel {
    pub patch: PatchModel,
    pub target_baseline: Seq<MeasurementModel>,
    pub control_baseline: Seq<MeasurementModel>,
    pub final_target: Seq<MeasurementModel>,
    pub final_control: Seq<MeasurementModel>,
    pub final_fitness: Binary32,
    pub completed_iterations: nat,
    pub tried_candidates: nat,
    pub screened_out: nat,
    pub model_state: ModelPatchState,
}

impl View for SearchResult {
    type V = ResultModel;

    open spec fn view(&self) -> ResultModel {
        ResultModel {
            patch: self.patch@,
            target_baseline: crate::probe::measurement_models(self.target_baseline@),
            control_baseline: crate::probe::measurement_models(self.control_baseline@),
            final_target: crate::probe::measurement_models(self.final_target@),
            final_control: crate::probe::measurement_models(self.final_control@),
            final_fitness: self.final_fitness,
            completed_iterations: self.completed_iterations as nat,
            tried_candidates: self.tried_candidates as nat,
            screened_out: self.screened_out as nat,
            model_state: self.model_state,
        }
    }
}

impl Clone for SearchResult {
    fn clone(&self) -> (r: SearchResult)
        ensures
            r@ == self@,
    {
        SearchResult {
            patch: self.patch.clone(),
            target_baseline: crate::probe::copy_measurements(self.target_baseline.as_slice()),
            control_baseline: crate::probe::copy_measurements(self.control_baseline.as_slice()),
            final_target: crate::probe::copy_measurements(self.final_target.as_slice()),
            final_control: crate::probe::copy_measurements(self.final_control.as_slice()),
            final_fitness: self.final_fitness,
            completed_iterations: self.completed_iterations,
            tried_candidates: self.tried_candidates,
            screened_out: self.screened_out,
            model_state: self.model_state,
        }
    }
}

} // verus!
