//! Shared building blocks of a creative-coding sketchbook: the ping-pong
//! bookkeeping of feedback loops, the registry of sketch controls, frame
//! recording, asset paths and window setup, and the integer logic of the
//! individual sketches.
pub mod decimal;
pub mod feedback_loop;
pub mod recording;
pub mod sketch_app;
pub mod sketch_controls;
pub mod sketches;
pub mod text;

pub use feedback_loop::{FeedbackBindings, FeedbackLoopState};
pub use recording::FrameRecorder;
pub use sketch_app::{local_asset_path, sketch_plugins, sketch_window, workspace_asset_path};
pub use sketch_controls::{ControlPanelState, SketchControls};
