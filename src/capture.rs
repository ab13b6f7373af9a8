//! The capture sequencer.
//!
//! Once per main-stage tick the sequencer looks at its phase and at the most
//! recent frame that arrived from the render stage, moves to its next phase
//! and tells the caller what to do: nothing, capture the frame for a preset
//! (and then move the camera to the next preset), or exit.

use vstd::prelude::*;

use crate::session::{decimal_digits, session_id};

verus! {

/// Ticks to wait before the first capture, so that the scene has fully rendered.
pub const PRE_ROLL_FRAMES: u32 = 60;

/// Ticks to wait after a camera move before the next capture.
pub const SETTLE_FRAMES: u32 = 30;

/// Phase of the capture sequence.
#[derive(Debug, Clone, Copy, PartialEq, Eq, Structural)]
pub enum ScreenshotPhase {
    /// Waiting for the scene to render; the payload is the ticks left.
    Init(u32),
    /// Waiting for the scene to settle after a camera move; the payload is the ticks left.
    Settling(u32),
    /// Waiting for a frame to capture.
    Capturing,
    /// Every capture has been made.
    Done,
}

impl Default for ScreenshotPhase {
    fn default() -> (r: Self)
        ensures
            r == ScreenshotPhase::Init(PRE_ROLL_FRAMES),
    {
        ScreenshotPhase::Init(PRE_ROLL_FRAMES)
    }
}

/// What the sequencer is configured with.
#[derive(Debug, Clone, Copy, PartialEq, Eq, Structural)]
pub struct SequenceSettings {
    /// Capture every preset in turn, rather than the first one only.
    pub multi_shot: bool,
    /// Request the application's exit once every capture has been made.
    pub exit_after: bool,
    /// Number of camera presets.
    pub preset_count: usize,
}

/// What the caller has to do after a tick.
#[derive(Debug, Clone, Copy, PartialEq, Eq, Structural)]
pub enum TickAction {
    /// Nothing.
    Wait,
    /// Write the frame as the capture of preset `preset`; then, where
    /// `next_preset` is given, move the camera to that preset.
    Capture { preset: usize, next_preset: Option<usize> },
    /// Report the captured paths and exit.
    Exit,
}

/// State of one capture session.
pub struct ScreenshotState {
    pub phase: ScreenshotPhase,
    /// Index of the preset that the camera is placed at.
    pub current_preset: usize,
    /// Name of the session directory: the session's start in milliseconds, in decimal.
    pub session_dir: String,
    /// Paths of the captures written so far, in the order they were written.
    pub captured_paths: Vec<String>,
}

/// Whether a capture of preset `current` is followed by another preset.
pub open spec fn moves_on(current: usize, settings: SequenceSettings) -> bool {
    settings.multi_shot && current + 1 < settings.preset_count
}

/// Phase after a tick in `phase` at preset `current`; `frame_ready` tells
/// whether a non-empty frame arrived.
pub open spec fn next_phase(
    phase: ScreenshotPhase,
    current: usize,
    frame_ready: bool,
    settings: SequenceSettings,
) -> ScreenshotPhase {
    match phase {
        ScreenshotPhase::Init(n) => if n == 0 {
            ScreenshotPhase::Capturing
        } else {
            ScreenshotPhase::Init((n - 1) as u32)
        },
        ScreenshotPhase::Settling(n) => if n == 0 {
            ScreenshotPhase::Capturing
        } else {
            ScreenshotPhase::Settling((n - 1) as u32)
        },
        ScreenshotPhase::Capturing => if !frame_ready {
            ScreenshotPhase::Capturing
        } else if moves_on(current, settings) {
            ScreenshotPhase::Settling(SETTLE_FRAMES)
        } else {
            ScreenshotPhase::Done
        },
        ScreenshotPhase::Done => ScreenshotPhase::Done,
    }
}

/// Preset index after a tick.
pub open spec fn next_preset(
    phase: ScreenshotPhase,
    current: usize,
    frame_ready: bool,
    settings: SequenceSettings,
) -> usize {
    if phase == ScreenshotPhase::Capturing && frame_ready && moves_on(current, settings) {
        (current + 1) as usize
    } else {
        current
    }
}

/// What a tick asks of the caller.
pub open spec fn tick_action(
    phase: ScreenshotPhase,
    current: usize,
    frame_ready: bool,
    settings: SequenceSettings,
) -> TickAction {
    match phase {
        ScreenshotPhase::Capturing => if !frame_ready {
            TickAction::Wait
        } else {
            TickAction::Capture {
                preset: current,
                next_preset: if moves_on(current, settings) {
                    Some((current + 1) as usize)
                } else {
                    None
                },
            }
        },
        ScreenshotPhase::Done => if settings.exit_after {
            TickAction::Exit
        } else {
            TickAction::Wait
        },
        _ => TickAction::Wait,
    }
}

/// Presets captured by a tick that asks for `action`.
pub open spec fn captured_by(action: TickAction) -> Seq<usize> {
    match action {
        TickAction::Capture { preset, .. } => seq![preset],
        _ => Seq::empty(),
    }
}

/// Presets captured, in order, over ticks that start in `phase` at preset
/// `current`; `frames[t]` tells whether a non-empty frame arrived before tick `t`.
pub open spec fn captures_over(
    phase: ScreenshotPhase,
    current: usize,
    frames: Seq<bool>,
    settings: SequenceSettings,
) -> Seq<usize>
    decreases frames.len(),
{
    if frames.len() == 0 {
        Seq::empty()
    } else {
        captured_by(tick_action(phase, current, frames[0], settings)) + captures_over(
            next_phase(phase, current, frames[0], settings),
            next_preset(phase, current, frames[0], settings),
            frames.drop_first(),
            settings,
        )
    }
}

/// With multi-shot off, the capture made in `Capturing` ends the sequence,
/// whatever the number of presets.
pub proof fn single_shot_ends_after_first_capture(current: usize, settings: SequenceSettings)
    requires
        !settings.multi_shot,
    ensures
        next_phase(ScreenshotPhase::Capturing, current, true, settings) == ScreenshotPhase::Done,
        tick_action(ScreenshotPhase::Capturing, current, true, settings) == (TickAction::Capture {
            preset: current,
            next_preset: None,
        }),
{
}

/// Whatever frames arrive, the sequence captures the presets from the
/// current one on, in order and each at most once, and none past the last
/// preset; with multi-shot off it captures at most one; once done it
/// captures nothing.
pub proof fn presets_captured_in_order_at_most_once(
    phase: ScreenshotPhase,
    current: usize,
    frames: Seq<bool>,
    settings: SequenceSettings,
)
    requires
        current < settings.preset_count,
    ensures
        ({
            let c = captures_over(phase, current, frames, settings);
            &&& forall|k: int| 0 <= k < c.len() ==> #[trigger] c[k] == current + k
            &&& current + c.len() <= settings.preset_count
            &&& !settings.multi_shot ==> c.len() <= 1
            &&& phase == ScreenshotPhase::Done ==> c.len() == 0
        }),
    decreases frames.len(),
{
    if frames.len() > 0 {
        let f = frames[0];
        let next = next_phase(phase, current, f, settings);
        let preset = next_preset(phase, current, f, settings);
        let rest = frames.drop_first();
        presets_captured_in_order_at_most_once(next, preset, rest, settings);
        let c = captures_over(phase, current, frames, settings);
        let tail = captures_over(next, preset, rest, settings);
        if phase == ScreenshotPhase::Capturing && f {
            assert(c == seq![current] + tail);
            if !moves_on(current, settings) {
                assert(next == ScreenshotPhase::Done);
                assert(tail.len() == 0);
            }
            assert forall|k: int| 0 <= k < c.len() implies #[trigger] c[k] == current + k by {
                if k > 0 {
                    assert(c[k] == tail[k - 1]);
                }
            }
        } else {
            assert(c =~= tail);
        }
    }
}

impl ScreenshotState {
    /// A session that starts at `session_millis` milliseconds since the epoch,
    /// waiting out the pre-roll at the first preset.
    pub fn new(session_millis: u64) -> (r: Self)
        ensures
            r.phase == ScreenshotPhase::Init(PRE_ROLL_FRAMES),
            r.current_preset == 0,
            r.session_dir@ == decimal_digits(session_millis as nat),
            r.captured_paths@.len() == 0,
    {
        ScreenshotState {
            phase: ScreenshotPhase::default(),
            current_preset: 0,
            session_dir: session_id(session_millis),
            captured_paths: Vec::new(),
        }
    }

    /// Advances the sequence by one tick, given the most recent frame that
    /// arrived since the last tick (empty if none did).
    pub fn tick(&mut self, latest_frame: &[u8], settings: &SequenceSettings) -> (action: TickAction)
        requires
            old(self).current_preset < settings.preset_count,
        ensures
            final(self).phase == next_phase(
                old(self).phase,
                old(self).current_preset,
                latest_frame@.len() > 0,
                *settings,
            ),
            final(self).current_preset == next_preset(
                old(self).phase,
                old(self).current_preset,
                latest_frame@.len() > 0,
                *settings,
            ),
            final(self).current_preset < settings.preset_count,
            final(self).session_dir == old(self).session_dir,
            final(self).captured_paths == old(self).captured_paths,
            action == tick_action(
                old(self).phase,
                old(self).current_preset,
                latest_frame@.len() > 0,
                *settings,
            ),
    {
        match self.phase {
            ScreenshotPhase::Init(n) => {
                self.phase = if n == 0 {
                    ScreenshotPhase::Capturing
                } else {
                    ScreenshotPhase::Init(n - 1)
                };
                TickAction::Wait
            },
            ScreenshotPhase::Settling(n) => {
                self.phase = if n == 0 {
                    ScreenshotPhase::Capturing
                } else {
                    ScreenshotPhase::Settling(n - 1)
                };
                TickAction::Wait
            },
            ScreenshotPhase::Capturing => {
                if latest_frame.len() == 0 {
                    return TickAction::Wait;
                }
                let preset = self.current_preset;
                if settings.multi_shot && preset + 1 < settings.preset_count {
                    self.current_preset = preset + 1;
                    self.phase = ScreenshotPhase::Settling(SETTLE_FRAMES);
                    TickAction::Capture { preset, next_preset: Some(preset + 1) }
                } else {
                    self.phase = ScreenshotPhase::Done;
                    TickAction::Capture { preset, next_preset: None }
                }
            },
            ScreenshotPhase::Done => {
                if settings.exit_after {
                    TickAction::Exit
                } else {
                    TickAction::Wait
                }
            },
        }
    }

    /// Records the path of a capture that was written.
    pub fn record_capture(&mut self, path: String)
        ensures
            final(self).captured_paths@ == old(self).captured_paths@.push(path),
            final(self).phase == old(self).phase,
            final(self).current_preset == old(self).current_preset,
            final(self).session_dir == old(self).session_dir,
    {
        self.captured_paths.push(path);
    }
}

/// Name of the file that holds the capture of the preset named `preset_name`.
pub fn capture_file_name(preset_name: &str) -> (r: String)
    ensures
        r@ == preset_name@ + ".png"@,
{
    String::from_str(preset_name).concat(".png")
}

} // verus!
