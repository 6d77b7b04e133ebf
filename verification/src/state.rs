use vstd::prelude::*;

verus! {

/// Application state machine.
///
/// Forward path:
///   Welcome -> Cropping -> ImageLoaded -> Scaled -> Analyzing -> Analyzed -> Clarifying
///   -> ModelReady -> Exported
///
/// Saving a session is available from `Scaled` onward.
#[derive(Debug, Clone, Copy, PartialEq, Eq, Structural)]
pub enum AppState {
    /// No image loaded; file picker or command-line argument expected.
    Welcome,
    /// Image loaded; the user may drag a crop region or skip.
    Cropping,
    /// Crop step complete (or skipped); the user sets the scale reference points.
    ImageLoaded,
    /// Scale reference confirmed; ready to run the detection pipeline.
    Scaled,
    /// Detection pipeline running.
    Analyzing,
    /// Detection complete; clarifications may be pending.
    Analyzed,
    /// Pending clarifications are being resolved by the user.
    Clarifying,
    /// All clarifications resolved; 3D generation and export available.
    ModelReady,
    /// OBJ or STL file written.
    Exported,
}

/// The transitions the state machine permits.
pub open spec fn transition_allowed(from: AppState, to: AppState) -> bool {
    match (from, to) {
        (AppState::Welcome, AppState::Cropping) => true,
        (AppState::Cropping, AppState::ImageLoaded) => true,
        (AppState::ImageLoaded, AppState::Scaled) => true,
        (AppState::Scaled, AppState::Analyzing) => true,
        (AppState::Analyzing, AppState::Analyzed) => true,
        (AppState::Analyzed, AppState::Clarifying) => true,
        (AppState::Analyzed, AppState::ModelReady) => true,
        (AppState::Clarifying, AppState::Clarifying) => true,
        (AppState::Clarifying, AppState::ModelReady) => true,
        (AppState::ModelReady, AppState::Exported) => true,
        (AppState::ModelReady, AppState::Analyzing) => true,
        (AppState::Exported, AppState::Analyzing) => true,
        _ => false,
    }
}

/// The states in which saving a session is permitted.
pub open spec fn save_allowed(s: AppState) -> bool {
    match s {
        AppState::Scaled | AppState::Analyzing | AppState::Analyzed | AppState::Clarifying
        | AppState::ModelReady | AppState::Exported => true,
        _ => false,
    }
}

/// Position of a state on the forward path (Welcome is 0, Exported is 8).
pub open spec fn forward_rank(s: AppState) -> int {
    match s {
        AppState::Welcome => 0,
        AppState::Cropping => 1,
        AppState::ImageLoaded => 2,
        AppState::Scaled => 3,
        AppState::Analyzing => 4,
        AppState::Analyzed => 5,
        AppState::Clarifying => 6,
        AppState::ModelReady => 7,
        AppState::Exported => 8,
    }
}

impl AppState {
    /// Returns `true` if transitioning to `next` is valid from the current state.
    pub fn can_transition_to(&self, next: &AppState) -> (r: bool)
        ensures
            r == transition_allowed(*self, *next),
    {
        match (self, next) {
            (AppState::Welcome, AppState::Cropping) => true,
            (AppState::Cropping, AppState::ImageLoaded) => true,
            (AppState::ImageLoaded, AppState::Scaled) => true,
            (AppState::Scaled, AppState::Analyzing) => true,
            (AppState::Analyzing, AppState::Analyzed) => true,
            (AppState::Analyzed, AppState::Clarifying) => true,
            (AppState::Analyzed, AppState::ModelReady) => true,
            (AppState::Clarifying, AppState::Clarifying) => true,
            (AppState::Clarifying, AppState::ModelReady) => true,
            (AppState::ModelReady, AppState::Exported) => true,
            (AppState::ModelReady, AppState::Analyzing) => true,
            (AppState::Exported, AppState::Analyzing) => true,
            _ => false,
        }
    }

    /// Returns `true` if saving a session is permitted in this state.
    pub fn can_save(&self) -> (r: bool)
        ensures
            r == save_allowed(*self),
    {
        match self {
            AppState::Scaled | AppState::Analyzing | AppState::Analyzed | AppState::Clarifying
            | AppState::ModelReady | AppState::Exported => true,
            _ => false,
        }
    }
}

/// Once saving is permitted it stays permitted: every allowed transition out of a
/// savable state leads to a savable state.
pub proof fn lemma_save_preserved_by_transitions(from: AppState, to: AppState)
    requires
        save_allowed(from),
        transition_allowed(from, to),
    ensures
        save_allowed(to),
{
}

/// The only allowed transition that makes saving available is confirming the scale
/// (`ImageLoaded -> Scaled`): saving is available exactly from `Scaled` onward.
pub proof fn lemma_save_becomes_available_only_at_scaled(from: AppState, to: AppState)
    requires
        !save_allowed(from),
        save_allowed(to),
        transition_allowed(from, to),
    ensures
        from == AppState::ImageLoaded,
        to == AppState::Scaled,
{
}

/// No allowed transition leads back to `Welcome`.
pub proof fn lemma_welcome_is_never_reentered(from: AppState)
    ensures
        !transition_allowed(from, AppState::Welcome),
{
}

/// Every allowed transition moves forward along the path, except the three documented
/// loops: repeated clarification and re-running detection from `ModelReady` or `Exported`.
pub proof fn lemma_transitions_move_forward(from: AppState, to: AppState)
    requires
        transition_allowed(from, to),
    ensures
        forward_rank(to) > forward_rank(from)
            || (from == AppState::Clarifying && to == AppState::Clarifying)
            || (from == AppState::ModelReady && to == AppState::Analyzing)
            || (from == AppState::Exported && to == AppState::Analyzing),
{
}

} // verus!
