//! Verified core of blueprint2mod: the application state machine and pipeline
//! decisions, command-line parsing, blueprint domain types, OCR word and label rules,
//! raster preprocessing, line tracing, grouping of collinear elements, clarification
//! of element types and the mesh topology used to turn a blueprint image into an
//! extruded 3D model.

pub mod state;
pub mod text;
pub mod blueprint;
pub mod ocr;
pub mod workflow;
pub mod raster;
pub mod mesh;
pub mod merge;
pub mod tracing;
pub mod classify;
pub mod clarification;
pub mod scale;
pub mod cli;
