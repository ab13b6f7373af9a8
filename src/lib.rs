//! Frame-capture pipeline of a headless screenshot harness.
//!
//! The library holds the logic of the pipeline: the row layout of device
//! readback buffers and their depadding, the capture sequencer that walks
//! the camera presets, the naming and retention of capture sessions, and the
//! index layout of the projected ocean grid. Device access, file output and
//! the engine wiring live outside of it.

pub mod capture;
pub mod grid;
pub mod layout;
pub mod session;

pub use capture::{
    capture_file_name, ScreenshotPhase, ScreenshotState, SequenceSettings, TickAction,
    PRE_ROLL_FRAMES, SETTLE_FRAMES,
};
pub use grid::projected_grid_indices;
pub use layout::{
    align_copy_bytes_per_row, copy_bytes_per_row, depad_frame, depad_rows, readback_buffer_size,
    COPY_BYTES_PER_ROW_ALIGNMENT,
};
pub use session::{env_flag_enabled, is_session_name, sessions_to_remove};
