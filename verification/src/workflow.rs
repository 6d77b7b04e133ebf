use vstd::prelude::*;
use crate::blueprint::ImagePoint;
use crate::state::{AppState, transition_allowed};
use crate::text::{ascii_lower, ascii_lower_char, ascii_lower_chars, chars_equal, chars_of};

verus! {

/// Named stages of the detection pipeline, shown in the UI during analysis.
#[derive(Debug, Clone, Copy, PartialEq, Eq, Structural)]
pub enum PipelineStage {
    Ocr,
    Trace,
    Classify,
    FloorPlan,
}

/// Position of a stage in the pipeline, starting at 0.
pub open spec fn stage_index(s: PipelineStage) -> int {
    match s {
        PipelineStage::Ocr => 0,
        PipelineStage::Trace => 1,
        PipelineStage::Classify => 2,
        PipelineStage::FloorPlan => 3,
    }
}

/// The stage that runs after `s` completes; `None` after the last stage.
pub open spec fn stage_after(s: PipelineStage) -> Option<PipelineStage> {
    match s {
        PipelineStage::Ocr => Some(PipelineStage::Trace),
        PipelineStage::Trace => Some(PipelineStage::Classify),
        PipelineStage::Classify => Some(PipelineStage::FloorPlan),
        PipelineStage::FloorPlan => None,
    }
}

impl PipelineStage {
    /// Number of pipeline stages.
    pub const TOTAL: usize = 4;

    /// Zero-based position of the stage in the pipeline.
    pub fn index(self) -> (r: usize)
        ensures
            r == stage_index(self),
            r < Self::TOTAL,
    {
        match self {
            PipelineStage::Ocr => 0,
            PipelineStage::Trace => 1,
            PipelineStage::Classify => 2,
            PipelineStage::FloorPlan => 3,
        }
    }

    /// Progress label shown while the stage runs.
    pub fn label(self) -> (r: &'static str)
        ensures
            match self {
                PipelineStage::Ocr => r@ == "Step 1/4: Running OCR & masking text\u{2026}"@,
                PipelineStage::Trace => r@ == "Step 2/4: Denoising & tracing lines\u{2026}"@,
                PipelineStage::Classify => r@ == "Step 3/4: Classifying elements\u{2026}"@,
                PipelineStage::FloorPlan => r@ == "Step 4/4: Building floor plan\u{2026}"@,
            },
    {
        match self {
            PipelineStage::Ocr => "Step 1/4: Running OCR & masking text\u{2026}",
            PipelineStage::Trace => "Step 2/4: Denoising & tracing lines\u{2026}",
            PipelineStage::Classify => "Step 3/4: Classifying elements\u{2026}",
            PipelineStage::FloorPlan => "Step 4/4: Building floor plan\u{2026}",
        }
    }

    /// The stage the pipeline moves to once this one has delivered its result;
    /// `None` once the floor plan is built and the analysis is complete.
    pub fn next(self) -> (r: Option<PipelineStage>)
        ensures
            r == stage_after(self),
    {
        match self {
            PipelineStage::Ocr => Some(PipelineStage::Trace),
            PipelineStage::Trace => Some(PipelineStage::Classify),
            PipelineStage::Classify => Some(PipelineStage::FloorPlan),
            PipelineStage::FloorPlan => None,
        }
    }
}

/// Stage indices are distinct: `index` tells the stages apart.
pub proof fn lemma_stage_index_injective(a: PipelineStage, b: PipelineStage)
    requires
        stage_index(a) == stage_index(b),
    ensures
        a == b,
{
}

/// Each completed stage hands over to the stage with the next index, and only the last
/// stage (index `TOTAL - 1`) ends the pipeline.
pub proof fn lemma_stages_run_in_index_order(s: PipelineStage)
    ensures
        match stage_after(s) {
            Some(t) => stage_index(t) == stage_index(s) + 1,
            None => stage_index(s) == PipelineStage::TOTAL - 1,
        },
{
}

/// What a background worker of the analysis pipeline has reported when the
/// application polls it.
#[derive(Debug, Clone, Copy, PartialEq, Eq, Structural)]
pub enum StageEvent {
    /// No result yet: the worker is still running.
    Pending,
    /// The worker gave up with an error message.
    Failed,
    /// The worker of the given stage delivered its result.
    Finished(PipelineStage),
}

/// What the application does with a polled event.
#[derive(Debug, Clone, Copy, PartialEq, Eq, Structural)]
pub enum PipelineAction {
    /// Keep waiting for the current worker.
    Wait,
    /// Drop the analysis, show the error and go back to `Scaled`.
    Abort,
    /// Store the delivered result and start the worker of `stage`; when `merge_first`
    /// is set, collinear elements are merged before the worker starts.
    Launch { stage: PipelineStage, merge_first: bool },
    /// Store the floor plan in the session and move to `Analyzed`.
    Complete,
}

/// The action the pipeline takes for an event: a finished stage hands over to the
/// next stage (merging collinear elements after classification), the last stage
/// completes the analysis, a failure aborts it and no news means waiting.
pub open spec fn spec_pipeline_action(event: StageEvent) -> PipelineAction {
    match event {
        StageEvent::Pending => PipelineAction::Wait,
        StageEvent::Failed => PipelineAction::Abort,
        StageEvent::Finished(s) => match stage_after(s) {
            Some(t) => PipelineAction::Launch { stage: t, merge_first: s == PipelineStage::Classify },
            None => PipelineAction::Complete,
        },
    }
}

/// The application state once an action has been taken while analysing.
pub open spec fn spec_state_after_action(action: PipelineAction) -> AppState {
    match action {
        PipelineAction::Abort => AppState::Scaled,
        PipelineAction::Complete => AppState::Analyzed,
        _ => AppState::Analyzing,
    }
}

/// Decides how the analysis pipeline reacts to what its worker reported.
pub fn advance_pipeline(event: StageEvent) -> (r: PipelineAction)
    ensures
        r == spec_pipeline_action(event),
{
    match event {
        StageEvent::Pending => PipelineAction::Wait,
        StageEvent::Failed => PipelineAction::Abort,
        StageEvent::Finished(s) => match s.next() {
            Some(t) => {
                let merge_first = match s {
                    PipelineStage::Classify => true,
                    _ => false,
                };
                PipelineAction::Launch { stage: t, merge_first }
            },
            None => PipelineAction::Complete,
        },
    }
}

/// The application state after the action has been carried out.
pub fn state_after_action(action: PipelineAction) -> (r: AppState)
    ensures
        r == spec_state_after_action(action),
{
    match action {
        PipelineAction::Abort => AppState::Scaled,
        PipelineAction::Complete => AppState::Analyzed,
        _ => AppState::Analyzing,
    }
}

/// Each finished stage launches the stage with the next index, merging collinear
/// elements first exactly when classification has finished; only the last stage
/// completes the analysis.
pub proof fn lemma_launch_moves_forward(s: PipelineStage)
    ensures
        match spec_pipeline_action(StageEvent::Finished(s)) {
            PipelineAction::Launch { stage, merge_first } => stage_index(stage) == stage_index(s) + 1
                && merge_first == (s == PipelineStage::Classify),
            PipelineAction::Complete => stage_index(s) == PipelineStage::TOTAL - 1,
            _ => false,
        },
{
}

/// While analysing, the application stays in `Analyzing` except when the last stage
/// completes (it moves to `Analyzed`, a transition the state machine permits) or a
/// worker fails (it returns to `Scaled`).
pub proof fn lemma_pipeline_outcomes(event: StageEvent)
    ensures
        spec_state_after_action(spec_pipeline_action(event)) == (match event {
            StageEvent::Failed => AppState::Scaled,
            StageEvent::Finished(PipelineStage::FloorPlan) => AppState::Analyzed,
            _ => AppState::Analyzing,
        }),
        transition_allowed(AppState::Analyzing, AppState::Analyzed),
{
}

/// Export format selected on the command line or in the export panel.
#[derive(Debug, Clone, Copy, PartialEq, Eq, Structural)]
pub enum ExportFormat {
    Obj,
    Stl,
}

/// The export format a `--format` value names, ignoring ASCII letter case.
pub open spec fn spec_format_from_flag(value: Seq<char>) -> Option<ExportFormat> {
    if ascii_lower(value) == "obj"@ {
        Some(ExportFormat::Obj)
    } else if ascii_lower(value) == "stl"@ {
        Some(ExportFormat::Stl)
    } else {
        None
    }
}

impl ExportFormat {
    /// File extension written for this format.
    pub fn extension(&self) -> (r: &'static str)
        ensures
            match self {
                ExportFormat::Obj => r@ == "obj"@,
                ExportFormat::Stl => r@ == "stl"@,
            },
    {
        match self {
            ExportFormat::Obj => "obj",
            ExportFormat::Stl => "stl",
        }
    }

    /// Description of the format in the save-file dialog filter.
    pub fn description(&self) -> (r: &'static str)
        ensures
            match self {
                ExportFormat::Obj => r@ == "OBJ files"@,
                ExportFormat::Stl => r@ == "STL files"@,
            },
    {
        match self {
            ExportFormat::Obj => "OBJ files",
            ExportFormat::Stl => "STL files",
        }
    }

    /// The format named by a `--format` value, ignoring ASCII letter case.
    pub fn from_flag(value: &str) -> (r: Option<ExportFormat>)
        ensures
            r == spec_format_from_flag(value@),
    {
        let lower = ascii_lower_chars(&chars_of(value));
        if chars_equal(&lower, &chars_of("obj")) {
            Some(ExportFormat::Obj)
        } else if chars_equal(&lower, &chars_of("stl")) {
            Some(ExportFormat::Stl)
        } else {
            None
        }
    }
}

/// Transient state for the two-click scale reference workflow.
#[derive(Debug)]
pub struct ScaleUiState {
    pub point_a: Option<ImagePoint>,
    pub point_b: Option<ImagePoint>,
    /// Distance field value as the user types it.
    pub distance_input: String,
    /// `true` = meters, `false` = feet.
    pub use_meters: bool,
}

impl ScaleUiState {
    /// A fresh workflow: no points picked, empty distance, meters selected.
    pub fn new() -> (r: Self)
        ensures
            r.point_a is None,
            r.point_b is None,
            r.distance_input@ == Seq::<char>::empty(),
            r.use_meters,
    {
        ScaleUiState { point_a: None, point_b: None, distance_input: String::new(), use_meters: true }
    }

    /// Start the workflow over.
    pub fn reset(&mut self)
        ensures
            final(self).point_a is None,
            final(self).point_b is None,
            final(self).distance_input@ == Seq::<char>::empty(),
            final(self).use_meters,
    {
        *self = Self::new();
    }

    /// Record a click on the image: the first click picks point A, the second point B,
    /// later clicks are ignored.
    pub fn record_click(&mut self, pt: ImagePoint)
        ensures
            old(self).point_a is None ==> final(self).point_a == Some(pt) && final(self).point_b
                == old(self).point_b,
            old(self).point_a is Some && old(self).point_b is None ==> final(self).point_a
                == old(self).point_a && final(self).point_b == Some(pt),
            old(self).point_a is Some && old(self).point_b is Some ==> final(self).point_a
                == old(self).point_a && final(self).point_b == old(self).point_b,
            final(self).distance_input@ == old(self).distance_input@,
            final(self).use_meters == old(self).use_meters,
    {
        if self.point_a.is_none() {
            self.point_a = Some(pt);
        } else if self.point_b.is_none() {
            self.point_b = Some(pt);
        }
    }
}

impl Default for ScaleUiState {
    /// All fields empty and feet selected (the field-wise default).
    fn default() -> (r: Self)
        ensures
            r.point_a is None,
            r.point_b is None,
            r.distance_input@ == Seq::<char>::empty(),
            !r.use_meters,
    {
        ScaleUiState { point_a: None, point_b: None, distance_input: String::new(), use_meters: false }
    }
}

/// `--format` values are case-insensitive: a value names the same format as its
/// lower-case form, so `OBJ`, `Obj` and `obj` all select OBJ.
pub proof fn lemma_format_flag_case_insensitive(value: Seq<char>)
    ensures
        spec_format_from_flag(value) == spec_format_from_flag(ascii_lower(value)),
{
    assert forall|i: int| 0 <= i < value.len() implies #[trigger] ascii_lower_char(ascii_lower_char(value[i]))
        == ascii_lower_char(value[i]) by {
        let c = value[i];
        if 'A' <= c && c <= 'Z' {
            assert(65 <= (c as u8) <= 90);
        }
    }
    assert(ascii_lower(ascii_lower(value)) =~= ascii_lower(value));
}

} // verus!
