use blueprint2mod::blueprint::ImagePoint;
use blueprint2mod::state::AppState;
use blueprint2mod::workflow::{
    advance_pipeline, state_after_action, ExportFormat, PipelineAction, PipelineStage, ScaleUiState, StageEvent,
};

#[test]
fn stage_indices_and_labels() {
    assert_eq!(PipelineStage::Ocr.index(), 0);
    assert_eq!(PipelineStage::FloorPlan.index(), 3);
    assert_eq!(PipelineStage::TOTAL, 4);
    assert_eq!(PipelineStage::Ocr.label(), "Step 1/4: Running OCR & masking text\u{2026}");
    assert_eq!(PipelineStage::Trace.label(), "Step 2/4: Denoising & tracing lines\u{2026}");
    assert_eq!(PipelineStage::Classify.label(), "Step 3/4: Classifying elements\u{2026}");
    assert_eq!(PipelineStage::FloorPlan.label(), "Step 4/4: Building floor plan\u{2026}");
}

#[test]
fn pipeline_runs_stages_in_order() {
    let mut stage = PipelineStage::Ocr;
    let mut launched = vec![];
    loop {
        match advance_pipeline(StageEvent::Finished(stage)) {
            PipelineAction::Launch { stage: next, merge_first } => {
                assert_eq!(next.index(), stage.index() + 1);
                launched.push((next, merge_first));
                stage = next;
            }
            PipelineAction::Complete => break,
            other => panic!("unexpected {:?}", other),
        }
    }
    assert_eq!(
        launched,
        vec![
            (PipelineStage::Trace, false),
            (PipelineStage::Classify, false),
            (PipelineStage::FloorPlan, true),
        ]
    );
    assert_eq!(state_after_action(PipelineAction::Complete), AppState::Analyzed);
}

#[test]
fn pipeline_waits_and_aborts() {
    assert_eq!(advance_pipeline(StageEvent::Pending), PipelineAction::Wait);
    assert_eq!(advance_pipeline(StageEvent::Failed), PipelineAction::Abort);
    assert_eq!(state_after_action(PipelineAction::Abort), AppState::Scaled);
    assert_eq!(state_after_action(PipelineAction::Wait), AppState::Analyzing);
    assert_eq!(
        state_after_action(PipelineAction::Launch { stage: PipelineStage::Trace, merge_first: false }),
        AppState::Analyzing
    );
}

#[test]
fn export_format_flags_ignore_case() {
    assert_eq!(ExportFormat::from_flag("obj"), Some(ExportFormat::Obj));
    assert_eq!(ExportFormat::from_flag("OBJ"), Some(ExportFormat::Obj));
    assert_eq!(ExportFormat::from_flag("Obj"), Some(ExportFormat::Obj));
    assert_eq!(ExportFormat::from_flag("sTl"), Some(ExportFormat::Stl));
    assert_eq!(ExportFormat::from_flag("ply"), None);
    assert_eq!(ExportFormat::Obj.extension(), "obj");
    assert_eq!(ExportFormat::Stl.extension(), "stl");
    assert_eq!(ExportFormat::Obj.description(), "OBJ files");
    assert_eq!(ExportFormat::Stl.description(), "STL files");
}

#[test]
fn scale_clicks_fill_a_then_b() {
    let mut ui = ScaleUiState::new();
    assert!(ui.use_meters);
    ui.record_click(ImagePoint { x: 1, y: 2 });
    assert_eq!(ui.point_a, Some(ImagePoint { x: 1, y: 2 }));
    assert_eq!(ui.point_b, None);
    ui.record_click(ImagePoint { x: 3, y: 4 });
    assert_eq!(ui.point_b, Some(ImagePoint { x: 3, y: 4 }));
    ui.record_click(ImagePoint { x: 9, y: 9 });
    assert_eq!(ui.point_a, Some(ImagePoint { x: 1, y: 2 }));
    assert_eq!(ui.point_b, Some(ImagePoint { x: 3, y: 4 }));
    ui.distance_input = "3.5".to_string();
    ui.use_meters = false;
    ui.reset();
    assert_eq!(ui.point_a, None);
    assert_eq!(ui.distance_input, "");
    assert!(ui.use_meters);
    let d = ScaleUiState::default();
    assert!(!d.use_meters);
}
