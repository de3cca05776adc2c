//! Plain data of the layout model: outputs, rectangles, toplevels, rules,
//! plans and the narrow commands a compositor adapter may apply.

use vstd::prelude::*;

verus! {

/// The usable area of the single output that automatic layout fills.
#[derive(Clone, Copy, Debug, PartialEq, Eq)]
pub struct Output {
    pub width: u32,
    pub height: u32,
}

/// An outer window rectangle in output coordinates.
#[derive(Clone, Copy, Debug, PartialEq, Eq)]
pub struct Rect {
    pub x: u32,
    pub y: u32,
    pub width: u32,
    pub height: u32,
}

#[derive(Clone, Debug, PartialEq, Eq)]
pub enum LayoutRequest {
    /// A compositor maximize request, deliberately distinct from fullscreen.
    Maximize,
    /// Snap to the named Labwc region.
    Snap { region: String },
}

#[derive(Clone, Debug, PartialEq, Eq)]
pub struct Placement {
    pub id: String,
    pub rect: Rect,
    pub request: LayoutRequest,
}

/// A compositor-reported toplevel. `id` is stable only for this session.
#[derive(Clone, Debug, PartialEq, Eq)]
pub struct Toplevel {
    pub id: String,
    pub app_id: String,
    pub title: String,
    pub kind: ToplevelKind,
    pub parent_id: Option<String>,
}

#[derive(Clone, Copy, Debug, PartialEq, Eq, Structural)]
pub enum ToplevelKind {
    Normal,
    Dialog,
    Utility,
    Desktop,
    Other,
}

#[derive(Clone, Copy, Debug, PartialEq, Eq, Structural)]
pub enum Classification {
    Managed,
    Floating,
    Ignored,
}

#[derive(Clone, Debug, PartialEq, Eq)]
pub struct WindowRule {
    pub app_id: String,
    pub title: Option<String>,
    pub disposition: Classification,
}

#[derive(Clone, Debug, PartialEq, Eq)]
pub enum ToplevelEvent {
    Upsert(Toplevel),
    Remove { id: String },
    /// Output or client state drifted without a topology change.
    Reconcile,
}

#[derive(Clone, Debug, Default, PartialEq, Eq)]
pub struct ClassifiedWindows {
    pub managed: Vec<String>,
    pub floating: Vec<String>,
    pub ignored: Vec<String>,
}

#[derive(Clone, Debug, Default, PartialEq, Eq)]
pub struct WorkspacePlan {
    pub placements: Vec<Placement>,
    pub floating: Vec<String>,
    pub ignored: Vec<String>,
}

/// A supported adapter may apply only these narrow, per-toplevel operations.
#[derive(Clone, Debug, PartialEq, Eq)]
pub enum CompositorCommand {
    Maximize { toplevel_id: String },
    Unmaximize { toplevel_id: String },
    Snap { toplevel_id: String, region: String, rect: Rect },
    Unsnap { toplevel_id: String },
    /// Release the compositor's interaction lock on a managed view.
    Unmanage { toplevel_id: String },
    SetDecoration { toplevel_id: String, decoration: DecorationState },
}

#[derive(Clone, Copy, Debug, PartialEq, Eq, Structural)]
pub enum DecorationState {
    /// No server-side decoration at all.
    Undecorated,
    Border,
    Full,
}

/// The only live-compositor dependency.
pub trait CompositorAdapter {
    type Error;

    fn observe_toplevel(&mut self) -> Result<Option<ToplevelEvent>, Self::Error>;

    fn apply_commands(&mut self, commands: &[CompositorCommand]) -> Result<(), Self::Error>;
}

/// The characters of each string, in order.
pub open spec fn views(v: Seq<String>) -> Seq<Seq<char>> {
    v.map_values(|s: String| s@)
}

/// The region a layout request names, or `None` for a maximize request.
pub open spec fn request_region(r: LayoutRequest) -> Option<Seq<char>> {
    match r {
        LayoutRequest::Maximize => None,
        LayoutRequest::Snap { region } => Some(region@),
    }
}

} // verus!
