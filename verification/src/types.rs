//! Shared definitions: purpose filtering, shading modes, display settings and
//! the status of an asynchronous USD load.

use vstd::prelude::*;

use crate::text::{decimal, push_decimal};

verus! {

/// USD purpose of a prim.
#[derive(Debug, Clone, Copy, PartialEq, Eq, Structural)]
pub enum Purpose {
    /// Always drawn.
    Default,
    /// Full-detail render geometry.
    Render,
    /// Low-resolution stand-in geometry.
    Proxy,
    /// Helper visualisation.
    Guide,
}

/// Which purpose geometry the viewport shows.
#[derive(Debug, Clone, Copy, PartialEq, Eq, Structural)]
pub enum PurposeMode {
    /// Default and render geometry.
    Render,
    /// Default and proxy geometry.
    Proxy,
    /// Every purpose.
    All,
    /// Default and guide geometry.
    Guide,
}

/// Whether geometry of `purpose` is shown under `mode`.
pub open spec fn spec_includes(mode: PurposeMode, purpose: Purpose) -> bool {
    match purpose {
        Purpose::Default => true,
        Purpose::Render => mode == PurposeMode::Render || mode == PurposeMode::All,
        Purpose::Proxy => mode == PurposeMode::Proxy || mode == PurposeMode::All,
        Purpose::Guide => mode == PurposeMode::Guide || mode == PurposeMode::All,
    }
}

impl PurposeMode {
    /// Whether geometry of `purpose` is shown under this mode: default
    /// geometry always, the others under their own mode and under `All`.
    pub fn includes(self, purpose: Purpose) -> (b: bool)
        ensures
            b == spec_includes(self, purpose),
    {
        match purpose {
            Purpose::Default => true,
            Purpose::Render => matches!(self, PurposeMode::Render | PurposeMode::All),
            Purpose::Proxy => matches!(self, PurposeMode::Proxy | PurposeMode::All),
            Purpose::Guide => matches!(self, PurposeMode::Guide | PurposeMode::All),
        }
    }
}

/// Viewport shading mode.
#[derive(Debug, Clone, Copy, PartialEq, Eq, Structural)]
pub enum ShadingMode {
    /// Full material with textures.
    Textured,
    /// Display color only.
    DisplayColor,
}

impl ShadingMode {
    /// The value the shaders expect for the mode.
    pub fn as_u32(self) -> (v: u32)
        ensures
            v == (match self {
                ShadingMode::Textured => 0u32,
                ShadingMode::DisplayColor => 1u32,
            }),
    {
        match self {
            ShadingMode::Textured => 0,
            ShadingMode::DisplayColor => 1,
        }
    }
}

/// Whether the ground grid shows when a setting is absent.
pub fn default_grid_visible() -> (b: bool)
    ensures
        b,
{
    true
}

/// Display settings that the UI reads and writes (the selection outline's
/// width and color, which are floating-point, are kept by the application).
#[derive(Debug, Clone, Copy, PartialEq, Eq, Structural)]
pub struct DisplaySettings {
    /// Which purpose geometry is shown.
    pub purpose_mode: PurposeMode,
    /// Whether the box level-of-detail system is on.
    pub lod_enabled: bool,
    /// Whether the ground grid is visible.
    pub grid_visible: bool,
    /// Viewport shading mode.
    pub shading_mode: ShadingMode,
}

impl Default for DisplaySettings {
    /// Render purpose, level of detail on, grid visible, textured.
    fn default() -> (d: DisplaySettings)
        ensures
            d == (DisplaySettings {
                purpose_mode: PurposeMode::Render,
                lod_enabled: true,
                grid_visible: true,
                shading_mode: ShadingMode::Textured,
            }),
    {
        DisplaySettings {
            purpose_mode: PurposeMode::Render,
            lod_enabled: true,
            grid_visible: default_grid_visible(),
            shading_mode: ShadingMode::Textured,
        }
    }
}

/// Stage of an asynchronous USD load.
#[derive(Debug, Clone, Copy, PartialEq, Eq, Structural)]
pub enum UsdLoadProgress {
    /// Opening the stage.
    OpeningStage,
    /// Extracting mesh geometry.
    ExtractingMeshes { current: usize, total: usize },
    /// Extracting materials.
    ExtractingMaterials { current: usize, total: usize },
    /// Extracting lights.
    ExtractingLights,
    /// Building the scene graph.
    BuildingScene,
    /// Creating GPU buffers.
    Finalizing,
}

/// The text shown for a load stage.
pub open spec fn progress_text(p: UsdLoadProgress) -> Seq<char> {
    match p {
        UsdLoadProgress::OpeningStage => "Opening USD stage..."@,
        UsdLoadProgress::ExtractingMeshes { current, total } => "Extracting meshes ("@ + decimal(
            current as nat,
        ) + "/"@ + decimal(total as nat) + ")..."@,
        UsdLoadProgress::ExtractingMaterials { current, total } => "Extracting materials ("@
            + decimal(current as nat) + "/"@ + decimal(total as nat) + ")..."@,
        UsdLoadProgress::ExtractingLights => "Extracting lights..."@,
        UsdLoadProgress::BuildingScene => "Building scene..."@,
        UsdLoadProgress::Finalizing => "Creating GPU buffers..."@,
    }
}

/// Appends `(current/total)...` to `s`.
fn push_count(s: &mut String, current: usize, total: usize)
    ensures
        final(s)@ == old(s)@ + "("@ + decimal(current as nat) + "/"@ + decimal(total as nat)
            + ")..."@,
{
    s.append("(");
    push_decimal(s, current as u64);
    s.append("/");
    push_decimal(s, total as u64);
    s.append(")...");
}

impl UsdLoadProgress {
    /// The text shown for the stage.
    pub fn message(&self) -> (s: String)
        ensures
            s@ == progress_text(*self),
    {
        match self {
            UsdLoadProgress::OpeningStage => String::from_str("Opening USD stage..."),
            UsdLoadProgress::ExtractingMeshes { current, total } => {
                let mut s = String::from_str("Extracting meshes ");
                push_count(&mut s, *current, *total);
                proof {
                    reveal_strlit("Extracting meshes ");
                    reveal_strlit("Extracting meshes (");
                    reveal_strlit("(");
                }
                s
            },
            UsdLoadProgress::ExtractingMaterials { current, total } => {
                let mut s = String::from_str("Extracting materials ");
                push_count(&mut s, *current, *total);
                proof {
                    reveal_strlit("Extracting materials ");
                    reveal_strlit("Extracting materials (");
                    reveal_strlit("(");
                }
                s
            },
            UsdLoadProgress::ExtractingLights => String::from_str("Extracting lights..."),
            UsdLoadProgress::BuildingScene => String::from_str("Building scene..."),
            UsdLoadProgress::Finalizing => String::from_str("Creating GPU buffers..."),
        }
    }
}

/// Status of an asynchronous USD load.
#[derive(Debug, Clone)]
pub enum UsdLoadStatus {
    /// No load in progress.
    Idle,
    /// Loading, at the given stage.
    Loading(UsdLoadProgress),
    /// Loaded; ready for GPU finalization.
    Ready,
    /// Failed with a message.
    Error(String),
}

/// The text shown for a load status.
pub open spec fn status_text(s: UsdLoadStatus) -> Seq<char> {
    match s {
        UsdLoadStatus::Idle => seq![],
        UsdLoadStatus::Loading(p) => progress_text(p),
        UsdLoadStatus::Ready => "Ready"@,
        UsdLoadStatus::Error(e) => "Error: "@ + e@,
    }
}

impl UsdLoadStatus {
    /// The text shown for the status.
    pub fn message(&self) -> (s: String)
        ensures
            s@ == status_text(*self),
    {
        match self {
            UsdLoadStatus::Idle => String::new(),
            UsdLoadStatus::Loading(p) => p.message(),
            UsdLoadStatus::Ready => String::from_str("Ready"),
            UsdLoadStatus::Error(e) => {
                let mut s = String::from_str("Error: ");
                s.append(e.as_str());
                s
            },
        }
    }
}

/// What polling the background USD load yields, and what finalizing a
/// loaded scene yields.
pub enum UsdLoadEvent {
    /// The load reached another stage.
    Progress(UsdLoadProgress),
    /// The load finished; the scene awaits finalization.
    Complete,
    /// The load failed with a message.
    Failed(String),
    /// No message is waiting.
    Empty,
    /// The loading thread went away.
    Disconnected,
    /// Finalization of the loaded scene succeeded.
    FinalizeSucceeded,
    /// Finalization of the loaded scene failed with a message.
    FinalizeFailed(String),
}

/// What the application does next while polling the background load.
#[derive(Debug, Clone, Copy, PartialEq, Eq, Structural)]
pub enum UsdLoadAction {
    /// Read the next message.
    ReadNext,
    /// Finalize the loaded scene, then report how that went.
    Finalize,
    /// Stop for this frame and poll again on the next.
    WaitForNextFrame,
    /// Drop the channel: the load is over.
    CloseChannel,
}

/// The action that follows an event.
pub open spec fn load_action(e: UsdLoadEvent) -> UsdLoadAction {
    match e {
        UsdLoadEvent::Progress(_) => UsdLoadAction::ReadNext,
        UsdLoadEvent::Complete => UsdLoadAction::Finalize,
        UsdLoadEvent::Empty => UsdLoadAction::WaitForNextFrame,
        _ => UsdLoadAction::CloseChannel,
    }
}

/// The message of the error status that an event leads to, if any.
pub open spec fn step_error_text(e: UsdLoadEvent) -> Option<Seq<char>> {
    match e {
        UsdLoadEvent::Failed(m) => Some(m@),
        UsdLoadEvent::Disconnected => Some("Load thread disconnected"@),
        UsdLoadEvent::FinalizeFailed(m) => Some("GPU finalize failed: "@ + m@),
        _ => None,
    }
}

/// Advances the load status by one polling event and says what to do next:
/// a stage updates the status and reads on; completion shows the finalizing
/// stage and asks for finalization; a failure, a lost thread or a failed
/// finalization sets an error and closes the channel; a successful
/// finalization returns to idle and closes it; no message waits a frame.
pub fn poll_usd_load(status: &mut UsdLoadStatus, event: UsdLoadEvent) -> (a: UsdLoadAction)
    ensures
        a == load_action(event),
        match event {
            UsdLoadEvent::Progress(p) => *final(status) == UsdLoadStatus::Loading(p),
            UsdLoadEvent::Complete => *final(status) == UsdLoadStatus::Loading(
                UsdLoadProgress::Finalizing,
            ),
            UsdLoadEvent::Empty => *final(status) == *old(status),
            UsdLoadEvent::FinalizeSucceeded => *final(status) == UsdLoadStatus::Idle,
            _ => *final(status) matches UsdLoadStatus::Error(m) && Some(m@) == step_error_text(
                event,
            ),
        },
{
    match event {
        UsdLoadEvent::Progress(p) => {
            *status = UsdLoadStatus::Loading(p);
            UsdLoadAction::ReadNext
        },
        UsdLoadEvent::Complete => {
            *status = UsdLoadStatus::Loading(UsdLoadProgress::Finalizing);
            UsdLoadAction::Finalize
        },
        UsdLoadEvent::Failed(m) => {
            *status = UsdLoadStatus::Error(m);
            UsdLoadAction::CloseChannel
        },
        UsdLoadEvent::Empty => UsdLoadAction::WaitForNextFrame,
        UsdLoadEvent::Disconnected => {
            *status = UsdLoadStatus::Error(String::from_str("Load thread disconnected"));
            UsdLoadAction::CloseChannel
        },
        UsdLoadEvent::FinalizeSucceeded => {
            *status = UsdLoadStatus::Idle;
            UsdLoadAction::CloseChannel
        },
        UsdLoadEvent::FinalizeFailed(m) => {
            let mut s = String::from_str("GPU finalize failed: ");
            s.append(m.as_str());
            *status = UsdLoadStatus::Error(s);
            UsdLoadAction::CloseChannel
        },
    }
}

} // verus!
