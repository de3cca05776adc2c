//! Deterministic workspace model, window classification, layout planner, the
//! compositor commands that carry a plan out, and the decisions of the Labwc and
//! XWayland adapters, the layout daemon and the shell's configuration.

pub mod config;
pub mod daemon;
pub mod glob;
pub mod keyed;
pub mod labwc;
pub mod lines;
pub mod model;
pub mod planner;
pub mod runtime;
pub mod shell;
pub mod text;
pub mod workspace;
pub mod xwayland;

pub use model::{
    ClassifiedWindows, Classification, CompositorAdapter, CompositorCommand, DecorationState,
    LayoutRequest, Output, Placement, Rect, Toplevel, ToplevelEvent, ToplevelKind, WindowRule,
    WorkspacePlan,
};
pub use planner::{plan, reconcile_commands, reconcile_workspace_commands, transition_commands};
pub use workspace::{classify_toplevel, Workspace};
pub use labwc::{AdapterError, LabwcIpcAdapter};
pub use runtime::RuntimeSettings;
pub use xwayland::XwaylandEwmhAdapter;
