//! Decision logic of the live Labwc IPC adapter.
//!
//! The caller performs the socket exchange (`LIST` and `ACTION` requests) and
//! the JSON decoding; this module turns each observed inventory into toplevel
//! events, checks convergence against a plan, and builds and judges actions.

use std::collections::VecDeque;

use vstd::prelude::*;

use crate::model::{
    CompositorCommand, DecorationState, LayoutRequest, Output, Placement, Toplevel,
    ToplevelEvent, ToplevelKind, WorkspacePlan, views,
};
use crate::planner::{planned_rect, planned_region};
use crate::text::{concat, concat3, decimal, decimal_string, parse_u64, parsed_u64};
use crate::workspace::{
    applied, copy_toplevel, distinct_ids, lemma_remove_keeps_ids_distinct, lemma_upsert_keeps_ids_distinct,
    Workspace,
};

verus! {

/// An adapter failure, and whether the compositor was still reachable.
#[derive(Debug)]
pub struct AdapterError {
    message: String,
    adapter_connected: bool,
}

impl View for AdapterError {
    type V = (Seq<char>, bool);

    closed spec fn view(&self) -> (Seq<char>, bool) {
        (self.message@, self.adapter_connected)
    }
}

impl AdapterError {
    /// A failure that lost the compositor connection.
    pub fn disconnected(message: String) -> (e: Self)
        ensures
            e@ == (message@, false),
    {
        AdapterError { message, adapter_connected: false }
    }

    /// A failure reported while the compositor stayed reachable.
    pub fn connected(message: String) -> (e: Self)
        ensures
            e@ == (message@, true),
    {
        AdapterError { message, adapter_connected: true }
    }

    pub fn adapter_connected(&self) -> (b: bool)
        ensures
            b == self@.1,
    {
        self.adapter_connected
    }

    /// The human-readable description.
    pub fn message(&self) -> (m: String)
        ensures
            m@ == self@.0,
    {
        self.message.clone()
    }
}

/// One view of a Labwc `LIST` inventory.
#[derive(Clone, Debug, PartialEq, Eq)]
pub struct IpcView {
    pub id: u64,
    pub app_id: String,
    pub title: String,
    pub kind: String,
    pub parent_id: Option<u64>,
    pub x: i32,
    pub y: i32,
    pub width: u32,
    pub height: u32,
    pub minimized: bool,
    pub fullscreen: bool,
    pub maximized: bool,
    pub tiled: bool,
    pub region: String,
    pub decoration: String,
    pub titlebar_visible: bool,
}

/// The usable area of an output.
#[derive(Clone, Copy, Debug, PartialEq, Eq)]
pub struct IpcRect {
    pub x: i32,
    pub y: i32,
    pub width: u32,
    pub height: u32,
}

#[derive(Clone, Copy, Debug, PartialEq, Eq)]
pub struct IpcOutput {
    pub usable_area: IpcRect,
}

/// A decoded Labwc `LIST` reply.
#[derive(Clone, Debug, PartialEq, Eq)]
pub struct Inventory {
    pub views: Vec<IpcView>,
    pub outputs: Vec<IpcOutput>,
}

/// A decoded Labwc `ACTION` reply.
#[derive(Clone, Debug, PartialEq, Eq)]
pub struct ActionResponse {
    pub ok: bool,
    pub error: String,
}

/// The compositor-observed state of one view that convergence is judged on.
#[derive(Clone, Debug, PartialEq, Eq)]
pub struct IpcLayoutState {
    pub x: i32,
    pub y: i32,
    pub width: u32,
    pub height: u32,
    pub minimized: bool,
    pub fullscreen: bool,
    pub maximized: bool,
    pub tiled: bool,
    pub region: String,
    pub decoration: String,
    pub titlebar_visible: bool,
}

/// A view the adapter has observed: its numeric id, its toplevel and its state.
#[derive(Clone, Debug, PartialEq, Eq)]
pub struct KnownView {
    pub id: u64,
    pub toplevel: Toplevel,
    pub state: IpcLayoutState,
}

/// The toplevel kind a Labwc view type names.
pub open spec fn kind_named(s: Seq<char>) -> ToplevelKind {
    if s == "normal"@ {
        ToplevelKind::Normal
    } else if s == "dialog"@ {
        ToplevelKind::Dialog
    } else if s == "utility"@ {
        ToplevelKind::Utility
    } else if s == "desktop"@ {
        ToplevelKind::Desktop
    } else {
        ToplevelKind::Other
    }
}

/// `t` is the toplevel of view `v`: ids in decimal, kind from the view type.
pub open spec fn is_toplevel_of(t: Toplevel, v: IpcView) -> bool {
    &&& t.id@ == decimal(v.id as nat)
    &&& t.app_id@ == v.app_id@
    &&& t.title@ == v.title@
    &&& t.kind == kind_named(v.kind@)
    &&& match v.parent_id {
        None => t.parent_id is None,
        Some(p) => t.parent_id is Some && t.parent_id->0@ == decimal(p as nat),
    }
}

/// `s` is the observed state of view `v`.
pub open spec fn is_state_of(s: IpcLayoutState, v: IpcView) -> bool {
    &&& s.x == v.x && s.y == v.y && s.width == v.width && s.height == v.height
    &&& s.minimized == v.minimized && s.fullscreen == v.fullscreen
    &&& s.maximized == v.maximized && s.tiled == v.tiled
    &&& s.region@ == v.region@ && s.decoration@ == v.decoration@
    &&& s.titlebar_visible == v.titlebar_visible
}

/// `k` records view `v`.
pub open spec fn is_record_of(k: KnownView, v: IpcView) -> bool {
    k.id == v.id && is_toplevel_of(k.toplevel, v) && is_state_of(k.state, v)
}

/// Ids strictly increase along `s`.
pub open spec fn sorted_ids(s: Seq<KnownView>) -> bool {
    forall|i: int, j: int| 0 <= i < j < s.len() ==> s[i].id < s[j].id
}

/// The last view of the inventory with id `id`: a later duplicate replaces an earlier one.
pub open spec fn last_view(views: Seq<IpcView>, id: u64) -> Option<IpcView>
    decreases views.len(),
{
    if views.len() == 0 {
        None
    } else if views.last().id == id {
        Some(views.last())
    } else {
        last_view(views.drop_last(), id)
    }
}

/// `known` holds exactly one record per view id of `views`, in increasing id order,
/// each recording the last view with that id.
pub open spec fn records(known: Seq<KnownView>, views: Seq<IpcView>) -> bool {
    &&& sorted_ids(known)
    &&& forall|id: u64|
        #![trigger lookup(known, id)]
        #![trigger last_view(views, id)]
        match lookup(known, id) {
            Some(k) => last_view(views, id) matches Some(v) && is_record_of(k, v),
            None => last_view(views, id) is None,
        }
}

/// The record with id `id`, if any.
pub open spec fn lookup(known: Seq<KnownView>, id: u64) -> Option<KnownView>
    decreases known.len(),
{
    if known.len() == 0 {
        None
    } else if known.last().id == id {
        Some(known.last())
    } else {
        lookup(known.drop_last(), id)
    }
}

/// Two toplevels carry the same text in every field.
pub open spec fn same_toplevel(a: Toplevel, b: Toplevel) -> bool {
    &&& a.id@ == b.id@ && a.app_id@ == b.app_id@ && a.title@ == b.title@ && a.kind == b.kind
    &&& match (a.parent_id, b.parent_id) {
        (None, None) => true,
        (Some(p), Some(q)) => p@ == q@,
        _ => false,
    }
}

/// Two observed states agree in every field.
pub open spec fn same_state(a: IpcLayoutState, b: IpcLayoutState) -> bool {
    &&& a.x == b.x && a.y == b.y && a.width == b.width && a.height == b.height
    &&& a.minimized == b.minimized && a.fullscreen == b.fullscreen
    &&& a.maximized == b.maximized && a.tiled == b.tiled
    &&& a.region@ == b.region@ && a.decoration@ == b.decoration@
    &&& a.titlebar_visible == b.titlebar_visible
}

/// The record is new or its toplevel changed since `known`.
pub open spec fn changed(known: Seq<KnownView>, k: KnownView) -> bool {
    match lookup(known, k.id) {
        Some(previous) => !same_toplevel(previous.toplevel, k.toplevel),
        None => true,
    }
}

/// One `Upsert` per new or changed record of `current`, in id order.
pub open spec fn upserts(current: Seq<KnownView>, known: Seq<KnownView>) -> Seq<ToplevelEvent>
    decreases current.len(),
{
    if current.len() == 0 {
        Seq::empty()
    } else if changed(known, current.last()) {
        upserts(current.drop_last(), known).push(ToplevelEvent::Upsert(current.last().toplevel))
    } else {
        upserts(current.drop_last(), known)
    }
}

/// One `Remove` per record of `known` that `current` no longer has, in id order.
pub open spec fn removals(known: Seq<KnownView>, current: Seq<KnownView>) -> Seq<ToplevelEvent>
    decreases known.len(),
{
    if known.len() == 0 {
        Seq::empty()
    } else if lookup(current, known.last().id) is None {
        removals(known.drop_last(), current).push(
            ToplevelEvent::Remove { id: known.last().toplevel.id },
        )
    } else {
        removals(known.drop_last(), current)
    }
}

/// The two record lists hold the same ids with the same states, in the same order.
pub open spec fn same_layout(a: Seq<KnownView>, b: Seq<KnownView>) -> bool {
    a.len() == b.len() && forall|i: int|
        0 <= i < a.len() ==> a[i].id == b[i].id && same_state(#[trigger] a[i].state, b[i].state)
}

/// The output changed from a previously observed one.
pub open spec fn output_changed(previous: Option<Output>, output: Output) -> bool {
    match previous {
        Some(p) => p.width != output.width || p.height != output.height,
        None => false,
    }
}

/// The events one observation yields: upserts, then removals, then a single
/// `Reconcile` when only the layout (geometry, state or output) drifted.
pub open spec fn refresh_events(
    known: Seq<KnownView>,
    previous_output: Option<Output>,
    current: Seq<KnownView>,
    output: Output,
) -> Seq<ToplevelEvent> {
    let topology = upserts(current, known) + removals(known, current);
    if topology.len() == 0 && (output_changed(previous_output, output) || !same_layout(
        known,
        current,
    )) {
        seq![ToplevelEvent::Reconcile]
    } else {
        topology
    }
}

/// The usable output the inventory reports: its first output, if that has area.
pub open spec fn usable_output(inventory: Inventory) -> Option<Output> {
    if inventory.outputs@.len() > 0 && inventory.outputs@[0].usable_area.width > 0
        && inventory.outputs@[0].usable_area.height > 0 {
        Some(
            Output {
                width: inventory.outputs@[0].usable_area.width,
                height: inventory.outputs@[0].usable_area.height,
            },
        )
    } else {
        None
    }
}

/// The workspace after applying the events in order.
pub open spec fn apply_events(s: Seq<Toplevel>, events: Seq<ToplevelEvent>) -> Seq<Toplevel>
    decreases events.len(),
{
    if events.len() == 0 {
        s
    } else {
        applied(apply_events(s, events.drop_last()), events.last())
    }
}

/// The Labwc action word a command becomes.
pub open spec fn action_of(command: CompositorCommand) -> Seq<char> {
    match command {
        CompositorCommand::Maximize { .. } => "MAXIMIZE"@,
        CompositorCommand::Snap { region, .. } => "SNAP "@ + region@,
        CompositorCommand::Unmaximize { .. } => "FLOAT"@,
        CompositorCommand::Unsnap { .. } => "FLOAT"@,
        CompositorCommand::Unmanage { .. } => "UNMANAGE"@,
        CompositorCommand::SetDecoration { decoration, .. } => "DECORATION "@ + match decoration {
            DecorationState::Undecorated => "none"@,
            DecorationState::Border => "border"@,
            DecorationState::Full => "full"@,
        },
    }
}

/// The toplevel a command addresses.
pub open spec fn target_of(command: CompositorCommand) -> Seq<char> {
    match command {
        CompositorCommand::Maximize { toplevel_id } => toplevel_id@,
        CompositorCommand::Snap { toplevel_id, .. } => toplevel_id@,
        CompositorCommand::Unmaximize { toplevel_id } => toplevel_id@,
        CompositorCommand::Unsnap { toplevel_id } => toplevel_id@,
        CompositorCommand::Unmanage { toplevel_id } => toplevel_id@,
        CompositorCommand::SetDecoration { toplevel_id, .. } => toplevel_id@,
    }
}

/// The observed state of the window named `id`, when `id` is a known numeric id.
pub open spec fn observed(known: Seq<KnownView>, id: Seq<char>) -> Option<IpcLayoutState> {
    match parsed_u64(id) {
        Some(n) => match lookup(known, n) {
            Some(k) => Some(k.state),
            None => None,
        },
        None => None,
    }
}

/// The share of the usable area, in percent `(x, y, width, height)`, that each
/// installed Labwc region covers; three columns split 33/34/33 and two rows 50/50.
pub open spec fn region_percentages(name: Seq<char>) -> Option<(int, int, int, int)> {
    if name == "auto-2-left"@ || name == "auto-3-left"@ {
        Some((0, 0, 50, 100))
    } else if name == "auto-2-right"@ {
        Some((50, 0, 50, 100))
    } else if name == "auto-3-right-top"@ || name == "auto-4-top-right"@ {
        Some((50, 0, 50, 50))
    } else if name == "auto-3-right-bottom"@ || name == "auto-4-bottom-right"@ || name
        == "auto-5-r1-c1"@ {
        Some((50, 50, 50, 50))
    } else if name == "auto-4-top-left"@ {
        Some((0, 0, 50, 50))
    } else if name == "auto-4-bottom-left"@ || name == "auto-5-r1-c0"@ {
        Some((0, 50, 50, 50))
    } else if name == "auto-5-r0-c0"@ || name == "auto-6-r0-c0"@ {
        Some((0, 0, 33, 50))
    } else if name == "auto-5-r0-c1"@ || name == "auto-6-r0-c1"@ {
        Some((33, 0, 34, 50))
    } else if name == "auto-5-r0-c2"@ || name == "auto-6-r0-c2"@ {
        Some((67, 0, 33, 50))
    } else if name == "auto-6-r1-c0"@ {
        Some((0, 50, 33, 50))
    } else if name == "auto-6-r1-c1"@ {
        Some((33, 50, 34, 50))
    } else if name == "auto-6-r1-c2"@ {
        Some((67, 50, 33, 50))
    } else {
        None
    }
}

/// The outer box Labwc gives a region of the usable area at `origin` with size
/// `output`: each edge at its percentage of the area, rounded down, so that adjacent
/// regions share their edges.
pub open spec fn region_box(origin: (i32, i32), output: Output, p: (int, int, int, int)) -> (
    int,
    int,
    int,
    int,
) {
    let x0 = output.width * p.0 / 100;
    let x1 = output.width * (p.0 + p.2) / 100;
    let y0 = output.height * p.1 / 100;
    let y1 = output.height * (p.1 + p.3) / 100;
    (origin.0 + x0, origin.1 + y0, x1 - x0, y1 - y0)
}

/// The outer box a placement converges to: the installed region's box for a snap to
/// a region Labwc has, else the planned rectangle, offset by the output origin.
pub open spec fn expected_box(p: Placement, origin: (i32, i32), output: Option<Output>) -> (
    int,
    int,
    int,
    int,
) {
    match (p.request, output) {
        (LayoutRequest::Snap { region }, Some(o)) => match region_percentages(region@) {
            Some(pc) => region_box(origin, o, pc),
            None => (origin.0 + p.rect.x, origin.1 + p.rect.y, p.rect.width as int, p.rect.height as int),
        },
        _ => (origin.0 + p.rect.x, origin.1 + p.rect.y, p.rect.width as int, p.rect.height as int),
    }
}

/// The observed view has converged to the placement: at its expected outer box,
/// maximized or tiled into the named region as planned, not minimized or fullscreen,
/// with a full, visible titlebar.
pub open spec fn placement_reached(
    s: IpcLayoutState,
    p: Placement,
    origin: (i32, i32),
    output: Option<Output>,
) -> bool {
    &&& s.x == expected_box(p, origin, output).0
    &&& s.y == expected_box(p, origin, output).1
    &&& s.width == expected_box(p, origin, output).2
    &&& s.height == expected_box(p, origin, output).3
    &&& match p.request {
        LayoutRequest::Maximize => s.maximized && !s.tiled && s.region@.len() == 0,
        LayoutRequest::Snap { region } => !s.maximized && s.tiled && s.region@ == region@,
    }
    &&& !s.minimized
    &&& !s.fullscreen
    &&& s.decoration@ == "full"@
    &&& s.titlebar_visible
}

/// A floating view is fully decorated and neither maximized nor tiled.
pub open spec fn floating_reached(s: IpcLayoutState) -> bool {
    s.decoration@ == "full"@ && !s.maximized && !s.tiled && s.region@.len() == 0
}

/// The first placement that has not converged, with its message.
pub open spec fn placement_mismatch(
    known: Seq<KnownView>,
    origin: (i32, i32),
    output: Option<Output>,
    ps: Seq<Placement>,
) -> Option<Seq<char>>
    decreases ps.len(),
{
    if ps.len() == 0 {
        None
    } else {
        let p = ps[0];
        match observed(known, p.id@) {
            None => Some("window "@ + p.id@ + " is absent"@),
            Some(s) => if placement_reached(s, p, origin, output) {
                placement_mismatch(known, origin, output, ps.drop_first())
            } else {
                Some("window "@ + p.id@ + " has not reached its planned geometry/state"@)
            },
        }
    }
}

/// The first floating window that has not converged, with its message.
pub open spec fn floating_mismatch(known: Seq<KnownView>, ids: Seq<String>) -> Option<Seq<char>>
    decreases ids.len(),
{
    if ids.len() == 0 {
        None
    } else {
        match observed(known, ids[0]@) {
            Some(s) => if floating_reached(s) {
                floating_mismatch(known, ids.drop_first())
            } else {
                Some("window "@ + ids[0]@ + " has not reached floating state"@)
            },
            None => Some("window "@ + ids[0]@ + " has not reached floating state"@),
        }
    }
}

/// The session-local Labwc IPC adapter: the socket path and the last observation.
pub struct LabwcIpcAdapter {
    socket: String,
    known: Vec<KnownView>,
    pending: VecDeque<ToplevelEvent>,
    output: Option<Output>,
    output_origin: (i32, i32),
}

impl LabwcIpcAdapter {
    /// The socket path the caller talks to.
    pub closed spec fn socket_path(&self) -> Seq<char> {
        self.socket@
    }

    /// The records of the last observation, in increasing id order.
    pub closed spec fn known(&self) -> Seq<KnownView> {
        self.known@
    }

    /// Events observed and not yet handed out.
    pub closed spec fn pending(&self) -> Seq<ToplevelEvent> {
        self.pending@
    }

    /// The usable output of the last observation.
    pub closed spec fn last_output(&self) -> Option<Output> {
        self.output
    }

    /// The output origin of the last observation.
    pub closed spec fn origin(&self) -> (i32, i32) {
        self.output_origin
    }

    /// The records are kept in strictly increasing id order.
    pub closed spec fn well_formed(&self) -> bool {
        sorted_ids(self.known@)
    }

    pub fn new(socket: String) -> (r: Self)
        ensures
            r.well_formed(),
            r.socket_path() == socket@,
            r.known().len() == 0,
            r.pending().len() == 0,
            r.last_output() is None,
            r.origin() == (0i32, 0i32),
    {
        LabwcIpcAdapter {
            socket,
            known: Vec::new(),
            pending: VecDeque::new(),
            output: None,
            output_origin: (0, 0),
        }
    }

    /// The socket path.
    pub fn socket(&self) -> (r: String)
        ensures
            r@ == self.socket_path(),
    {
        self.socket.clone()
    }

    pub fn output(&self) -> (r: Result<Output, AdapterError>)
        ensures
            match r {
                Ok(o) => self.last_output() == Some(o),
                Err(e) => self.last_output() is None && e@ == (
                    "Labwc IPC did not report a usable output"@,
                    true,
                ),
            },
    {
        match self.output {
            Some(o) => Ok(o),
            None => Err(
                AdapterError::connected("Labwc IPC did not report a usable output".to_owned()),
            ),
        }
    }

    /// Whether observed events wait to be handed out.
    pub fn has_pending(&self) -> (b: bool)
        ensures
            b == (self.pending().len() > 0),
    {
        self.pending.len() > 0
    }

    /// Hands out the oldest pending event.
    pub fn next_event(&mut self) -> (r: Option<ToplevelEvent>)
        ensures
            final(self).known() == old(self).known(),
            final(self).last_output() == old(self).last_output(),
            final(self).origin() == old(self).origin(),
            final(self).socket_path() == old(self).socket_path(),
            final(self).well_formed() == old(self).well_formed(),
            old(self).pending().len() == 0 ==> r is None && final(self).pending().len() == 0,
            old(self).pending().len() > 0 ==> r == Some(old(self).pending()[0])
                && final(self).pending() == old(self).pending().drop_first(),
    {
        let r = self.pending.pop_front();
        proof {
            if old(self).pending().len() > 0 {
                assert(self.pending@ =~= old(self).pending().drop_first());
            }
        }
        r
    }
}

} // verus!

verus! {

proof fn lemma_lookup_found(s: Seq<KnownView>, id: u64)
    ensures
        lookup(s, id) matches Some(r) ==> r.id == id && exists|k: int| 0 <= k < s.len() && s[k] == r,
        lookup(s, id) is None ==> forall|k: int| 0 <= k < s.len() ==> s[k].id != id,
    decreases s.len(),
{
    if s.len() > 0 {
        lemma_lookup_found(s.drop_last(), id);
        if s.last().id == id {
            assert(s[s.len() - 1] == s.last());
        } else {
            if let Some(r) = lookup(s.drop_last(), id) {
                let k = choose|k: int| 0 <= k < s.drop_last().len() && s.drop_last()[k] == r;
                assert(s[k] == r);
            } else {
                assert forall|k: int| 0 <= k < s.len() implies s[k].id != id by {
                    if k < s.len() - 1 {
                        assert(s[k] == s.drop_last()[k]);
                    }
                }
            }
        }
    }
}

proof fn lemma_lookup_at(s: Seq<KnownView>, k: int)
    requires
        sorted_ids(s),
        0 <= k < s.len(),
    ensures
        lookup(s, s[k].id) == Some(s[k]),
    decreases s.len(),
{
    if k < s.len() - 1 {
        assert(s.last() == s[s.len() - 1]);
        assert(s.drop_last()[k] == s[k]);
        lemma_lookup_at(s.drop_last(), k);
    }
}

/// `after` is `before` with `k` in place of the record with its id, or with `k`
/// added when there was none.
pub open spec fn stored(after: Seq<KnownView>, before: Seq<KnownView>, k: KnownView) -> bool {
    &&& sorted_ids(after)
    &&& forall|id: u64|
        #![trigger lookup(after, id)]
        lookup(after, id) == if id == k.id {
            Some(k)
        } else {
            lookup(before, id)
        }
}

fn lookup_index(known: &Vec<KnownView>, id: u64) -> (r: Option<usize>)
    ensures
        match r {
            Some(k) => k < known@.len() && lookup(known@, id) == Some(known@[k as int]),
            None => lookup(known@, id) is None,
        },
{
    let mut i = known.len();
    assert(known@.take(known@.len() as int) =~= known@);
    while i > 0
        invariant
            i <= known@.len(),
            lookup(known@, id) == lookup(known@.take(i as int), id),
        decreases i,
    {
        let ghost t = known@.take(i as int);
        assert(t.drop_last() =~= known@.take(i - 1));
        assert(t.last() == known@[i - 1]);
        if known[i - 1].id == id {
            return Some(i - 1);
        }
        i -= 1;
    }
    None
}

fn store_record(current: &mut Vec<KnownView>, k: KnownView)
    requires
        sorted_ids(old(current)@),
    ensures
        stored(final(current)@, old(current)@, k),
{
    let ghost before = current@;
    let mut p: usize = 0;
    while p < current.len() && current[p].id < k.id
        invariant
            current@ == before,
            p <= current@.len(),
            forall|j: int| 0 <= j < p ==> current@[j].id < k.id,
        decreases current@.len() - p,
    {
        p += 1;
    }
    let kid = k.id;
    if p < current.len() && current[p].id == kid {
        current.set(p, k);
        let ghost after = current@;
        assert(sorted_ids(after));
        assert forall|id: u64| #[trigger] lookup(after, id) == if id == kid {
            Some(after[p as int])
        } else {
            lookup(before, id)
        } by {
            lemma_lookup_found(before, id);
            lemma_lookup_found(after, id);
            if id == kid {
                lemma_lookup_at(after, p as int);
            } else if let Some(r) = lookup(before, id) {
                let j = choose|j: int| 0 <= j < before.len() && before[j] == r;
                assert(j != p);
                assert(after[j] == before[j]);
                lemma_lookup_at(after, j);
                lemma_lookup_at(before, j);
            } else {
                if let Some(r) = lookup(after, id) {
                    let j = choose|j: int| 0 <= j < after.len() && after[j] == r;
                    assert(j != p);
                    assert(before[j] == after[j]);
                }
            }
        }
    } else {
        current.insert(p, k);
        let ghost after = current@;
        assert forall|i: int, j: int| 0 <= i < j < after.len() implies after[i].id
            < after[j].id by {
            if j < p {
                assert(after[i] == before[i] && after[j] == before[j]);
            } else if j == p {
                assert(after[i] == before[i]);
            } else if i < p {
                assert(after[i] == before[i] && after[j] == before[j - 1]);
                assert(before[p as int].id > kid);
                if j - 1 > p {
                    assert(before[p as int].id < before[j - 1].id);
                }
            } else if i == p {
                assert(after[j] == before[j - 1]);
                assert(before[p as int].id > kid);
                if j - 1 > p {
                    assert(before[p as int].id < before[j - 1].id);
                }
            } else {
                assert(after[i] == before[i - 1] && after[j] == before[j - 1]);
            }
        }
        assert forall|id: u64| #[trigger] lookup(after, id) == if id == kid {
            Some(after[p as int])
        } else {
            lookup(before, id)
        } by {
            lemma_lookup_found(before, id);
            lemma_lookup_found(after, id);
            if id == kid {
                lemma_lookup_at(after, p as int);
            } else if let Some(r) = lookup(before, id) {
                let j = choose|j: int| 0 <= j < before.len() && before[j] == r;
                let jj = if j < p { j } else { j + 1 };
                assert(after[jj] == before[j]);
                lemma_lookup_at(after, jj);
                lemma_lookup_at(before, j);
            } else {
                if let Some(r) = lookup(after, id) {
                    let j = choose|j: int| 0 <= j < after.len() && after[j] == r;
                    assert(j != p);
                    if j < p {
                        assert(before[j] == after[j]);
                    } else {
                        assert(before[j - 1] == after[j]);
                    }
                }
            }
        }
    }
}

fn record_of(v: &IpcView) -> (k: KnownView)
    ensures
        is_record_of(k, *v),
{
    let kind = if v.kind == "normal".to_owned() {
        ToplevelKind::Normal
    } else if v.kind == "dialog".to_owned() {
        ToplevelKind::Dialog
    } else if v.kind == "utility".to_owned() {
        ToplevelKind::Utility
    } else if v.kind == "desktop".to_owned() {
        ToplevelKind::Desktop
    } else {
        ToplevelKind::Other
    };
    let parent_id = match v.parent_id {
        Some(p) => Some(decimal_string(p)),
        None => None,
    };
    KnownView {
        id: v.id,
        toplevel: Toplevel {
            id: decimal_string(v.id),
            app_id: v.app_id.clone(),
            title: v.title.clone(),
            kind,
            parent_id,
        },
        state: IpcLayoutState {
            x: v.x,
            y: v.y,
            width: v.width,
            height: v.height,
            minimized: v.minimized,
            fullscreen: v.fullscreen,
            maximized: v.maximized,
            tiled: v.tiled,
            region: v.region.clone(),
            decoration: v.decoration.clone(),
            titlebar_visible: v.titlebar_visible,
        },
    }
}

/// The records of an inventory's views.
fn records_of(views: &Vec<IpcView>) -> (r: Vec<KnownView>)
    ensures
        records(r@, views@),
{
    let mut current: Vec<KnownView> = Vec::new();
    let mut i: usize = 0;
    while i < views.len()
        invariant
            i <= views@.len(),
            records(current@, views@.take(i as int)),
        decreases views@.len() - i,
    {
        let ghost before = current@;
        let k = record_of(&views[i]);
        store_record(&mut current, k);
        let ghost seen = views@.take(i + 1);
        assert(seen.drop_last() =~= views@.take(i as int));
        assert(seen.last() == views@[i as int]);
        assert forall|id: u64|
            #![trigger lookup(current@, id)]
            #![trigger last_view(seen, id)]
            match lookup(current@, id) {
                Some(k) => last_view(seen, id) matches Some(v) && is_record_of(k, v),
                None => last_view(seen, id) is None,
            } by {
            assert(lookup(current@, id) == lookup(before, id) || id == views@[i as int].id);
            assert(last_view(views@.take(i as int), id) == last_view(views@.take(i as int), id));
        }
        i += 1;
    }
    assert(views@.take(views@.len() as int) =~= views@);
    current
}

pub(crate) fn same_toplevel_exec(a: &Toplevel, b: &Toplevel) -> (r: bool)
    ensures
        r == same_toplevel(*a, *b),
{
    let parents = match (&a.parent_id, &b.parent_id) {
        (None, None) => true,
        (Some(p), Some(q)) => *p == *q,
        _ => false,
    };
    a.id == b.id && a.app_id == b.app_id && a.title == b.title && a.kind == b.kind && parents
}

fn same_layout_exec(a: &Vec<KnownView>, b: &Vec<KnownView>) -> (r: bool)
    ensures
        r == same_layout(a@, b@),
{
    if a.len() != b.len() {
        return false;
    }
    let mut i: usize = 0;
    while i < a.len()
        invariant
            a@.len() == b@.len(),
            i <= a@.len(),
            forall|j: int|
                #![trigger a@[j]]
                0 <= j < i ==> a@[j].id == b@[j].id && same_state(a@[j].state, b@[j].state),
        decreases a@.len() - i,
    {
        let s = &a[i].state;
        let t = &b[i].state;
        let same = a[i].id == b[i].id && s.x == t.x && s.y == t.y && s.width == t.width
            && s.height == t.height && s.minimized == t.minimized && s.fullscreen == t.fullscreen
            && s.maximized == t.maximized && s.tiled == t.tiled && s.region == t.region
            && s.decoration == t.decoration && s.titlebar_visible == t.titlebar_visible;
        if !same {
            return false;
        }
        assert(a@[i as int].id == b@[i as int].id);
        assert(same_state(a@[i as int].state, b@[i as int].state));
        i += 1;
    }
    true
}

impl LabwcIpcAdapter {
    /// Takes in one observed inventory: records its output and views, and queues the
    /// events that bring a workspace model from the previous observation to this one.
    pub fn refresh(&mut self, inventory: &Inventory) -> (r: Result<(), AdapterError>)
        requires
            old(self).well_formed(),
        ensures
            final(self).well_formed(),
            final(self).socket_path() == old(self).socket_path(),
            match r {
                Ok(()) => usable_output(*inventory) matches Some(o) && {
                    &&& final(self).last_output() == Some(o)
                    &&& final(self).origin() == (
                        inventory.outputs@[0].usable_area.x,
                        inventory.outputs@[0].usable_area.y,
                    )
                    &&& records(final(self).known(), inventory.views@)
                    &&& final(self).pending() == old(self).pending() + refresh_events(
                        old(self).known(),
                        old(self).last_output(),
                        final(self).known(),
                        o,
                    )
                },
                Err(e) => {
                    &&& usable_output(*inventory) is None
                    &&& e@ == ("Labwc IPC did not report a usable output"@, true)
                    &&& final(self).known() == old(self).known()
                    &&& final(self).pending() == old(self).pending()
                    &&& final(self).last_output() == old(self).last_output()
                    &&& final(self).origin() == old(self).origin()
                },
            },
    {
        if inventory.outputs.len() == 0 || inventory.outputs[0].usable_area.width == 0
            || inventory.outputs[0].usable_area.height == 0 {
            return Err(
                AdapterError::connected("Labwc IPC did not report a usable output".to_owned()),
            );
        }
        let area = inventory.outputs[0].usable_area;
        let output = Output { width: area.width, height: area.height };
        let current = records_of(&inventory.views);

        let ghost queued = self.pending@;
        let queued_len = self.pending.len();
        let mut i: usize = 0;
        while i < current.len()
            invariant
                i <= current@.len(),
                self.known@ == old(self).known@,
                self.socket@ == old(self).socket@,
                self.output == old(self).output,
                self.pending@ == queued + upserts(current@.take(i as int), self.known@),
            decreases current@.len() - i,
        {
            let record = &current[i];
            assert(current@.take(i + 1).drop_last() =~= current@.take(i as int));
            assert(current@.take(i + 1).last() == current@[i as int]);
            let is_changed = match lookup_index(&self.known, record.id) {
                Some(k) => !same_toplevel_exec(&self.known[k].toplevel, &record.toplevel),
                None => true,
            };
            if is_changed {
                self.pending.push_back(ToplevelEvent::Upsert(copy_toplevel(&record.toplevel)));
            }
            i += 1;
        }
        assert(current@.take(current@.len() as int) =~= current@);
        let ghost with_upserts = self.pending@;
        let mut j: usize = 0;
        while j < self.known.len()
            invariant
                j <= self.known@.len(),
                self.known@ == old(self).known@,
                self.socket@ == old(self).socket@,
                self.output == old(self).output,
                with_upserts == queued + upserts(current@, self.known@),
                self.pending@ == with_upserts + removals(self.known@.take(j as int), current@),
            decreases self.known@.len() - j,
        {
            assert(self.known@.take(j + 1).drop_last() =~= self.known@.take(j as int));
            assert(self.known@.take(j + 1).last() == self.known@[j as int]);
            if lookup_index(&current, self.known[j].id).is_none() {
                self.pending.push_back(ToplevelEvent::Remove { id: self.known[j].toplevel.id.clone() });
            }
            j += 1;
        }
        assert(self.known@.take(self.known@.len() as int) =~= self.known@);
        let topology_changed = self.pending.len() > queued_len;
        let output_moved = match self.output {
            Some(previous) => previous.width != output.width || previous.height != output.height,
            None => false,
        };
        let layout_changed = output_moved || !same_layout_exec(&self.known, &current);
        let ghost topology = upserts(current@, self.known@) + removals(self.known@, current@);
        assert(self.pending@ =~= queued + topology);
        if !topology_changed && layout_changed {
            self.pending.push_back(ToplevelEvent::Reconcile);
            assert(topology =~= Seq::<ToplevelEvent>::empty());
            assert(self.pending@ =~= queued + seq![ToplevelEvent::Reconcile]);
        }
        self.known = current;
        self.output = Some(output);
        self.output_origin = (area.x, area.y);
        Ok(())
    }
}

} // verus!

verus! {

/// The first convergence failure of a plan: placements in order, then floating windows.
pub open spec fn convergence_message(
    known: Seq<KnownView>,
    origin: (i32, i32),
    output: Option<Output>,
    plan: WorkspacePlan,
) -> Option<Seq<char>> {
    match placement_mismatch(known, origin, output, plan.placements@) {
        Some(m) => Some(m),
        None => floating_mismatch(known, plan.floating@),
    }
}

/// The Labwc action for a command, without its target.
pub fn command_action(command: &CompositorCommand) -> (r: String)
    ensures
        r@ == action_of(*command),
{
    match command {
        CompositorCommand::Maximize { .. } => "MAXIMIZE".to_owned(),
        CompositorCommand::Snap { region, .. } => concat("SNAP ", region.as_str()),
        CompositorCommand::Unmaximize { .. } => "FLOAT".to_owned(),
        CompositorCommand::Unsnap { .. } => "FLOAT".to_owned(),
        CompositorCommand::Unmanage { .. } => "UNMANAGE".to_owned(),
        CompositorCommand::SetDecoration { decoration, .. } => {
            let word = match decoration {
                DecorationState::Undecorated => "none",
                DecorationState::Border => "border",
                DecorationState::Full => "full",
            };
            concat("DECORATION ", word)
        },
    }
}

/// The toplevel a command addresses.
pub fn command_target(command: &CompositorCommand) -> (r: &String)
    ensures
        r@ == target_of(*command),
{
    match command {
        CompositorCommand::Maximize { toplevel_id } => toplevel_id,
        CompositorCommand::Snap { toplevel_id, .. } => toplevel_id,
        CompositorCommand::Unmaximize { toplevel_id } => toplevel_id,
        CompositorCommand::Unsnap { toplevel_id } => toplevel_id,
        CompositorCommand::Unmanage { toplevel_id } => toplevel_id,
        CompositorCommand::SetDecoration { toplevel_id, .. } => toplevel_id,
    }
}

/// Judges an `ACTION` reply: success, or the compositor's rejection.
pub fn action_outcome(action: &str, response: &ActionResponse) -> (r: Result<(), AdapterError>)
    ensures
        response.ok ==> r is Ok,
        !response.ok ==> (r matches Err(e) && e@ == (
            "Labwc rejected "@ + action@ + ": "@ + response.error@,
            true,
        )),
{
    if response.ok {
        Ok(())
    } else {
        let head = concat3("Labwc rejected ", action, ": ");
        Err(AdapterError::connected(concat(head.as_str(), response.error.as_str())))
    }
}

fn named(name: &String, text: &str) -> (r: bool)
    ensures
        r == (name@ == text@),
{
    *name == text.to_owned()
}

pub fn installed_region(name: &String) -> (r: Option<(u32, u32, u32, u32)>)
    ensures
        match r {
            Some(p) => region_percentages(name@) == Some(
                (p.0 as int, p.1 as int, p.2 as int, p.3 as int),
            ) && p.0 + p.2 <= 100 && p.1 + p.3 <= 100,
            None => region_percentages(name@) is None,
        },
{
    if named(name, "auto-2-left") || named(name, "auto-3-left") {
        Some((0, 0, 50, 100))
    } else if named(name, "auto-2-right") {
        Some((50, 0, 50, 100))
    } else if named(name, "auto-3-right-top") || named(name, "auto-4-top-right") {
        Some((50, 0, 50, 50))
    } else if named(name, "auto-3-right-bottom") || named(name, "auto-4-bottom-right") || named(
        name,
        "auto-5-r1-c1",
    ) {
        Some((50, 50, 50, 50))
    } else if named(name, "auto-4-top-left") {
        Some((0, 0, 50, 50))
    } else if named(name, "auto-4-bottom-left") || named(name, "auto-5-r1-c0") {
        Some((0, 50, 50, 50))
    } else if named(name, "auto-5-r0-c0") || named(name, "auto-6-r0-c0") {
        Some((0, 0, 33, 50))
    } else if named(name, "auto-5-r0-c1") || named(name, "auto-6-r0-c1") {
        Some((33, 0, 34, 50))
    } else if named(name, "auto-5-r0-c2") || named(name, "auto-6-r0-c2") {
        Some((67, 0, 33, 50))
    } else if named(name, "auto-6-r1-c0") {
        Some((0, 50, 33, 50))
    } else if named(name, "auto-6-r1-c1") {
        Some((33, 50, 34, 50))
    } else if named(name, "auto-6-r1-c2") {
        Some((67, 50, 33, 50))
    } else {
        None
    }
}

/// `size * percent / 100`, rounded down.
fn share(size: u32, percent: u32) -> (r: i64)
    requires
        percent <= 100,
    ensures
        r == size * percent / 100,
        0 <= r <= size,
{
    assert((size as int) * (percent as int) <= (size as int) * 100) by (nonlinear_arith)
        requires percent <= 100;
    assert((size as int) * (percent as int) / 100 <= size) by (nonlinear_arith)
        requires (size as int) * (percent as int) <= (size as int) * 100;
    assert(0 <= (size as int) * (percent as int)) by (nonlinear_arith);
    (((size as u64) * (percent as u64)) / 100) as i64
}

fn placement_reached_exec(
    s: &IpcLayoutState,
    p: &Placement,
    origin: (i32, i32),
    output: Option<Output>,
) -> (r: bool)
    ensures
        r == placement_reached(*s, *p, origin, output),
{
    let rect = p.rect;
    let planned = (
        (origin.0 as i64) + (rect.x as i64),
        (origin.1 as i64) + (rect.y as i64),
        rect.width as i64,
        rect.height as i64,
    );
    let (x, y, width, height): (i64, i64, i64, i64) = match (&p.request, output) {
        (LayoutRequest::Snap { region }, Some(o)) => match installed_region(region) {
            Some(pc) => {
                let x0 = share(o.width, pc.0);
                let x1 = share(o.width, pc.0 + pc.2);
                let y0 = share(o.height, pc.1);
                let y1 = share(o.height, pc.1 + pc.3);
                ((origin.0 as i64) + x0, (origin.1 as i64) + y0, x1 - x0, y1 - y0)
            },
            None => planned,
        },
        _ => planned,
    };
    let geometry = (s.x as i64) == x && (s.y as i64) == y && (s.width as i64) == width
        && (s.height as i64) == height;
    let request = match &p.request {
        LayoutRequest::Maximize => s.maximized && !s.tiled && s.region.as_str().is_empty(),
        LayoutRequest::Snap { region } => !s.maximized && s.tiled && s.region == *region,
    };
    geometry && request && !s.minimized && !s.fullscreen && s.decoration == "full".to_owned()
        && s.titlebar_visible
}

impl LabwcIpcAdapter {
    fn observed_index(&self, id: &String) -> (r: Option<usize>)
        ensures
            match r {
                Some(k) => k < self.known@.len() && observed(self.known@, id@) == Some(
                    self.known@[k as int].state,
                ),
                None => observed(self.known@, id@) is None,
            },
    {
        match parse_u64(id.as_str()) {
            Some(n) => lookup_index(&self.known, n),
            None => None,
        }
    }

    /// Verify observed outer geometry and compositor state, never ACTION ACKs.
    pub fn convergence_error(&self, plan: &WorkspacePlan) -> (r: Option<String>)
        ensures
            match r {
                Some(m) => convergence_message(self.known(), self.origin(), self.last_output(), *plan)
                    == Some(m@),
                None => convergence_message(self.known(), self.origin(), self.last_output(), *plan)
                    is None,
            },
    {
        let ghost ps = plan.placements@;
        let mut i: usize = 0;
        assert(ps.skip(0) =~= ps);
        while i < plan.placements.len()
            invariant
                i <= ps.len(),
                ps == plan.placements@,
                placement_mismatch(self.known@, self.output_origin, self.output, ps)
                    == placement_mismatch(
                    self.known@,
                    self.output_origin,
                    self.output,
                    ps.skip(i as int),
                ),
            decreases ps.len() - i,
        {
            let p = &plan.placements[i];
            assert(ps.skip(i as int)[0] == ps[i as int]);
            assert(ps.skip(i as int).drop_first() =~= ps.skip(i + 1));
            match self.observed_index(&p.id) {
                None => {
                    return Some(concat3("window ", p.id.as_str(), " is absent"));
                },
                Some(k) => {
                    if !placement_reached_exec(&self.known[k].state, p, self.output_origin, self.output) {
                        return Some(
                            concat3(
                                "window ",
                                p.id.as_str(),
                                " has not reached its planned geometry/state",
                            ),
                        );
                    }
                },
            }
            i += 1;
        }
        assert(ps.skip(i as int) =~= Seq::<Placement>::empty());
        assert(placement_mismatch(self.known@, self.output_origin, self.output, ps.skip(i as int)) is None);
        let ghost fs = plan.floating@;
        let mut j: usize = 0;
        assert(fs.skip(0) =~= fs);
        while j < plan.floating.len()
            invariant
                j <= fs.len(),
                fs == plan.floating@,
                placement_mismatch(self.known@, self.output_origin, self.output, plan.placements@) is None,
                floating_mismatch(self.known@, fs) == floating_mismatch(
                    self.known@,
                    fs.skip(j as int),
                ),
            decreases fs.len() - j,
        {
            let id = &plan.floating[j];
            assert(fs.skip(j as int)[0] == fs[j as int]);
            assert(fs.skip(j as int).drop_first() =~= fs.skip(j + 1));
            let reached = match self.observed_index(id) {
                Some(k) => {
                    let s = &self.known[k].state;
                    s.decoration == "full".to_owned() && !s.maximized && !s.tiled
                        && s.region.as_str().is_empty()
                },
                None => false,
            };
            if !reached {
                return Some(concat3("window ", id.as_str(), " has not reached floating state"));
            }
            j += 1;
        }
        assert(fs.skip(j as int) =~= Seq::<String>::empty());
        None
    }

    /// The `ACTION` request for one command, refused when its target is not a known view.
    pub fn command_request(&self, command: &CompositorCommand) -> (r: Result<String, AdapterError>)
        ensures
            ({
                let id = target_of(*command);
                match parsed_u64(id) {
                    None => r matches Err(e) && e@ == ("invalid Labwc toplevel id: "@ + id, true),
                    Some(n) => if lookup(self.known(), n) is None {
                        r matches Err(e) && e@ == (
                            "Labwc toplevel "@ + id + " disappeared before reconciliation"@,
                            true,
                        )
                    } else {
                        r matches Ok(request) && request@ == "ACTION "@ + id + " "@ + action_of(
                            *command,
                        ) + "\n"@
                    },
                }
            }),
    {
        let id = command_target(command);
        match parse_u64(id.as_str()) {
            None => Err(AdapterError::connected(concat("invalid Labwc toplevel id: ", id.as_str()))),
            Some(n) => {
                if lookup_index(&self.known, n).is_none() {
                    return Err(
                        AdapterError::connected(
                            concat3(
                                "Labwc toplevel ",
                                id.as_str(),
                                " disappeared before reconciliation",
                            ),
                        ),
                    );
                }
                let action = command_action(command);
                let head = concat3("ACTION ", id.as_str(), " ");
                let line = concat3(head.as_str(), action.as_str(), "\n");
                Ok(line)
            },
        }
    }

    /// Takes in one observed inventory and applies every resulting event, in order, to
    /// the workspace model.
    pub fn observe_workspace(&mut self, inventory: &Inventory, workspace: &mut Workspace) -> (r:
        Result<(), AdapterError>)
        requires
            old(self).well_formed(),
        ensures
            final(self).well_formed(),
            final(self).socket_path() == old(self).socket_path(),
            match r {
                Ok(()) => usable_output(*inventory) matches Some(o) && {
                    &&& final(self).last_output() == Some(o)
                    &&& final(self).origin() == (
                        inventory.outputs@[0].usable_area.x,
                        inventory.outputs@[0].usable_area.y,
                    )
                    &&& records(final(self).known(), inventory.views@)
                    &&& final(self).pending().len() == 0
                    &&& final(workspace)@ == apply_events(
                        old(workspace)@,
                        old(self).pending() + refresh_events(
                            old(self).known(),
                            old(self).last_output(),
                            final(self).known(),
                            o,
                        ),
                    )
                },
                Err(e) => {
                    &&& usable_output(*inventory) is None
                    &&& e@ == ("Labwc IPC did not report a usable output"@, true)
                    &&& final(self).known() == old(self).known()
                    &&& final(self).pending() == old(self).pending()
                    &&& final(self).last_output() == old(self).last_output()
                    &&& final(self).origin() == old(self).origin()
                    &&& final(workspace)@ == old(workspace)@
                },
            },
    {
        self.refresh(inventory)?;
        let ghost all = self.pending@;
        let ghost start = workspace@;
        let ghost known = self.known@;
        let ghost socket = self.socket@;
        let ghost output = self.output;
        let ghost origin = self.output_origin;
        let ghost mut done: int = 0;
        assert(all.take(0) =~= Seq::<ToplevelEvent>::empty());
        while self.pending.len() > 0
            invariant
                0 <= done <= all.len(),
                self.pending@ == all.skip(done),
                workspace@ == apply_events(start, all.take(done)),
                sorted_ids(self.known@),
                self.known@ == known,
                self.socket@ == socket,
                self.output == output,
                self.output_origin == origin,
            decreases self.pending@.len(),
        {
            let event = self.pending.pop_front();
            match event {
                Some(e) => {
                    assert(e == all[done]);
                    assert(all.take(done + 1).drop_last() =~= all.take(done));
                    assert(all.take(done + 1).last() == all[done]);
                    workspace.apply(e);
                    assert(self.pending@ =~= all.skip(done + 1));
                    proof {
                        done = done + 1;
                    }
                },
                None => {},
            }
        }
        assert(all.take(done) =~= all);
        Ok(())
    }
}

} // verus!

verus! {

/// Both record lists hold the same ids.
pub open spec fn same_ids(a: Seq<KnownView>, b: Seq<KnownView>) -> bool {
    forall|id: u64|
        #![trigger lookup(a, id)]
        #![trigger lookup(b, id)]
        (lookup(a, id) is Some) == (lookup(b, id) is Some)
}

proof fn lemma_member_found(s: Seq<KnownView>, k: int)
    requires
        sorted_ids(s),
        0 <= k < s.len(),
    ensures
        lookup(s, s[k].id) is Some,
{
    lemma_lookup_at(s, k);
}

proof fn lemma_aligned(a: Seq<KnownView>, b: Seq<KnownView>)
    requires
        sorted_ids(a),
        sorted_ids(b),
        same_ids(a, b),
    ensures
        a.len() == b.len(),
        forall|i: int| 0 <= i < a.len() ==> #[trigger] a[i].id == b[i].id,
    decreases a.len() + b.len(),
{
    if a.len() == 0 {
        if b.len() > 0 {
            lemma_member_found(b, 0);
            lemma_lookup_found(a, b[0].id);
        }
    } else if b.len() == 0 {
        lemma_member_found(a, 0);
        lemma_lookup_found(b, a[0].id);
    } else {
        let la = a.len() - 1;
        let lb = b.len() - 1;
        lemma_member_found(a, la);
        lemma_member_found(b, lb);
        lemma_lookup_found(b, a[la].id);
        lemma_lookup_found(a, b[lb].id);
        let jb = choose|k: int| 0 <= k < b.len() && b[k] == lookup(b, a[la].id)->0;
        let ja = choose|k: int| 0 <= k < a.len() && a[k] == lookup(a, b[lb].id)->0;
        assert(a[la].id == b[lb].id) by {
            if jb < lb {
                assert(b[jb].id < b[lb].id);
                if ja < la {
                    assert(a[ja].id < a[la].id);
                }
            }
            if ja < la {
                assert(a[ja].id < a[la].id);
            }
        }
        let top = a[la].id;
        let ra = a.drop_last();
        let rb = b.drop_last();
        assert forall|id: u64| (lookup(ra, id) is Some) == (lookup(rb, id) is Some) by {
            lemma_lookup_found(ra, id);
            lemma_lookup_found(rb, id);
            lemma_lookup_found(a, id);
            lemma_lookup_found(b, id);
            if let Some(r) = lookup(ra, id) {
                let k = choose|k: int| 0 <= k < ra.len() && ra[k] == r;
                assert(a[k] == ra[k]);
                assert(a[k].id < top);
                lemma_member_found(a, k);
                let m = choose|m: int| 0 <= m < b.len() && b[m] == lookup(b, id)->0;
                if m == lb {
                    assert(false);
                }
                assert(rb[m] == b[m]);
                lemma_member_found(rb, m);
            }
            if let Some(r) = lookup(rb, id) {
                let k = choose|k: int| 0 <= k < rb.len() && rb[k] == r;
                assert(b[k] == rb[k]);
                assert(b[k].id < top);
                lemma_member_found(b, k);
                let m = choose|m: int| 0 <= m < a.len() && a[m] == lookup(a, id)->0;
                if m == la {
                    assert(false);
                }
                assert(ra[m] == a[m]);
                lemma_member_found(ra, m);
            }
        }
        assert(sorted_ids(ra)) by {
            assert forall|i: int, j: int| 0 <= i < j < ra.len() implies ra[i].id < ra[j].id by {
                assert(ra[i] == a[i] && ra[j] == a[j]);
            }
        }
        assert(sorted_ids(rb)) by {
            assert forall|i: int, j: int| 0 <= i < j < rb.len() implies rb[i].id < rb[j].id by {
                assert(rb[i] == b[i] && rb[j] == b[j]);
            }
        }
        lemma_aligned(ra, rb);
        assert forall|i: int| 0 <= i < a.len() implies #[trigger] a[i].id == b[i].id by {
            if i < la {
                assert(ra[i] == a[i] && rb[i] == b[i]);
            }
        }
    }
}

proof fn lemma_no_upserts(current: Seq<KnownView>, known: Seq<KnownView>)
    requires
        forall|k: int| 0 <= k < current.len() ==> !changed(known, #[trigger] current[k]),
    ensures
        upserts(current, known) == Seq::<ToplevelEvent>::empty(),
    decreases current.len(),
{
    if current.len() > 0 {
        assert(!changed(known, current[current.len() - 1]));
        assert forall|k: int| 0 <= k < current.drop_last().len() implies !changed(
            known,
            #[trigger] current.drop_last()[k],
        ) by {
            assert(current.drop_last()[k] == current[k]);
        }
        lemma_no_upserts(current.drop_last(), known);
    }
}

proof fn lemma_no_removals(known: Seq<KnownView>, current: Seq<KnownView>)
    requires
        forall|k: int| 0 <= k < known.len() ==> lookup(current, #[trigger] known[k].id) is Some,
    ensures
        removals(known, current) == Seq::<ToplevelEvent>::empty(),
    decreases known.len(),
{
    if known.len() > 0 {
        assert(lookup(current, known[known.len() - 1].id) is Some);
        assert forall|k: int| 0 <= k < known.drop_last().len() implies lookup(
            current,
            #[trigger] known.drop_last()[k].id,
        ) is Some by {
            assert(known.drop_last()[k] == known[k]);
        }
        lemma_no_removals(known.drop_last(), current);
    }
}

/// Observing the same inventory again, on the same output, yields no events: only
/// a change of topology, geometry, state or output makes the adapter report.
pub proof fn lemma_repeated_observation_is_quiet(
    previous: Seq<KnownView>,
    current: Seq<KnownView>,
    views: Seq<IpcView>,
    output: Output,
)
    requires
        records(previous, views),
        records(current, views),
    ensures
        refresh_events(previous, Some(output), current, output) == Seq::<ToplevelEvent>::empty(),
{
    assert(same_ids(previous, current)) by {
        assert forall|id: u64| (lookup(previous, id) is Some) == (lookup(current, id) is Some) by {
            assert(last_view(views, id) == last_view(views, id));
        }
    }
    lemma_aligned(previous, current);
    assert forall|k: int| 0 <= k < current.len() implies !changed(previous, #[trigger] current[k]) by {
        lemma_lookup_at(current, k);
        assert(lookup(previous, current[k].id) == Some(previous[k])) by {
            lemma_lookup_at(previous, k);
        }
        let v = last_view(views, current[k].id)->0;
        assert(is_record_of(previous[k], v));
        assert(is_record_of(current[k], v));
    }
    lemma_no_upserts(current, previous);
    assert forall|k: int| 0 <= k < previous.len() implies lookup(current, #[trigger] previous[k].id)
        is Some by {
        lemma_lookup_at(current, k);
    }
    lemma_no_removals(previous, current);
    assert forall|i: int| 0 <= i < previous.len() implies previous[i].id == current[i].id
        && same_state(#[trigger] previous[i].state, current[i].state) by {
        lemma_lookup_at(current, i);
        lemma_lookup_at(previous, i);
        let v = last_view(views, current[i].id)->0;
        assert(is_record_of(previous[i], v));
    }
    assert(upserts(current, previous) + removals(previous, current) =~= Seq::<
        ToplevelEvent,
    >::empty());
}

} // verus!

verus! {

/// Every workspace reached by toplevel events from one with distinct ids (an empty
/// one among them) has distinct ids.
pub proof fn lemma_events_keep_ids_distinct(s: Seq<Toplevel>, events: Seq<ToplevelEvent>)
    requires
        distinct_ids(s),
    ensures
        distinct_ids(apply_events(s, events)),
    decreases events.len(),
{
    if events.len() > 0 {
        lemma_events_keep_ids_distinct(s, events.drop_last());
        let before = apply_events(s, events.drop_last());
        match events.last() {
            ToplevelEvent::Upsert(t) => lemma_upsert_keeps_ids_distinct(before, t),
            ToplevelEvent::Remove { id } => lemma_remove_keeps_ids_distinct(before, id@),
            ToplevelEvent::Reconcile => {},
        }
    }
}

/// Every view keeps its identity (id, application, title, kind and parent) between two
/// observations, and no view comes or goes.
pub open spec fn same_identities(a: Seq<KnownView>, b: Seq<KnownView>) -> bool {
    forall|id: u64|
        #![trigger lookup(a, id)]
        #![trigger lookup(b, id)]
        (lookup(a, id) is Some) == (lookup(b, id) is Some) && (lookup(a, id) matches Some(p)
            ==> same_toplevel(p.toplevel, lookup(b, id)->0.toplevel))
}

/// An observation that changes no view's identity leaves the workspace as it was: it
/// yields no upsert or removal, and exactly one `Reconcile` when the output or some
/// view's geometry or state changed, none otherwise.
pub proof fn lemma_identity_preserving_observation(
    previous: Seq<KnownView>,
    previous_output: Option<Output>,
    current: Seq<KnownView>,
    output: Output,
    s: Seq<Toplevel>,
)
    requires
        sorted_ids(previous),
        sorted_ids(current),
        same_identities(previous, current),
    ensures
        refresh_events(previous, previous_output, current, output) == if output_changed(
            previous_output,
            output,
        ) || !same_layout(previous, current) {
            seq![ToplevelEvent::Reconcile]
        } else {
            Seq::<ToplevelEvent>::empty()
        },
        apply_events(s, refresh_events(previous, previous_output, current, output)) == s,
{
    assert forall|k: int| 0 <= k < current.len() implies !changed(previous, #[trigger] current[k]) by {
        lemma_lookup_at(current, k);
        assert(lookup(current, current[k].id) == Some(current[k]));
        assert(lookup(previous, current[k].id) is Some);
    }
    lemma_no_upserts(current, previous);
    assert forall|k: int| 0 <= k < previous.len() implies lookup(current, #[trigger] previous[k].id)
        is Some by {
        lemma_lookup_at(previous, k);
        assert(lookup(previous, previous[k].id) is Some);
    }
    lemma_no_removals(previous, current);
    assert(upserts(current, previous) + removals(previous, current) =~= Seq::<
        ToplevelEvent,
    >::empty());
    let events = refresh_events(previous, previous_output, current, output);
    if events.len() > 0 {
        assert(events.drop_last() =~= Seq::<ToplevelEvent>::empty());
        assert(events.last() == ToplevelEvent::Reconcile);
        assert(apply_events(s, events.drop_last()) == s);
        assert(applied(s, ToplevelEvent::Reconcile) == s);
    } else {
        assert(events =~= Seq::<ToplevelEvent>::empty());
    }
}

} // verus!

verus! {

/// The names of the installed Labwc regions.
pub open spec fn installed_region_names_spec() -> Seq<Seq<char>> {
    seq![
            "auto-2-left"@,
            "auto-2-right"@,
            "auto-3-left"@,
            "auto-3-right-top"@,
            "auto-3-right-bottom"@,
            "auto-4-top-left"@,
            "auto-4-top-right"@,
            "auto-4-bottom-left"@,
            "auto-4-bottom-right"@,
            "auto-5-r0-c0"@,
            "auto-5-r0-c1"@,
            "auto-5-r0-c2"@,
            "auto-5-r1-c0"@,
            "auto-5-r1-c1"@,
            "auto-6-r0-c0"@,
            "auto-6-r0-c1"@,
            "auto-6-r0-c2"@,
            "auto-6-r1-c0"@,
            "auto-6-r1-c1"@,
            "auto-6-r1-c2"@,
    ]
}

/// The names of the installed Labwc regions: exactly those with a place in the table.
pub fn installed_region_names() -> (r: Vec<String>)
    ensures
        views(r@) == installed_region_names_spec(),
        forall|name: Seq<char>|
            #![trigger region_percentages(name)]
            region_percentages(name) is Some <==> views(r@).contains(name),
{
    let r = vec![
        "auto-2-left".to_owned(),
        "auto-2-right".to_owned(),
        "auto-3-left".to_owned(),
        "auto-3-right-top".to_owned(),
        "auto-3-right-bottom".to_owned(),
        "auto-4-top-left".to_owned(),
        "auto-4-top-right".to_owned(),
        "auto-4-bottom-left".to_owned(),
        "auto-4-bottom-right".to_owned(),
        "auto-5-r0-c0".to_owned(),
        "auto-5-r0-c1".to_owned(),
        "auto-5-r0-c2".to_owned(),
        "auto-5-r1-c0".to_owned(),
        "auto-5-r1-c1".to_owned(),
        "auto-6-r0-c0".to_owned(),
        "auto-6-r0-c1".to_owned(),
        "auto-6-r0-c2".to_owned(),
        "auto-6-r1-c0".to_owned(),
        "auto-6-r1-c1".to_owned(),
        "auto-6-r1-c2".to_owned(),
    ];
    assert(views(r@) =~= installed_region_names_spec());
    assert forall|name: Seq<char>| #[trigger] region_percentages(name) is Some <==> views(
        r@,
    ).contains(name) by {
        let all = installed_region_names_spec();
        if region_percentages(name) is Some {
            if name == "auto-2-left"@ {
                assert(all[0] == name);
            } else if name == "auto-2-right"@ {
                assert(all[1] == name);
            } else if name == "auto-3-left"@ {
                assert(all[2] == name);
            } else if name == "auto-3-right-top"@ {
                assert(all[3] == name);
            } else if name == "auto-3-right-bottom"@ {
                assert(all[4] == name);
            } else if name == "auto-4-top-left"@ {
                assert(all[5] == name);
            } else if name == "auto-4-top-right"@ {
                assert(all[6] == name);
            } else if name == "auto-4-bottom-left"@ {
                assert(all[7] == name);
            } else if name == "auto-4-bottom-right"@ {
                assert(all[8] == name);
            } else if name == "auto-5-r0-c0"@ {
                assert(all[9] == name);
            } else if name == "auto-5-r0-c1"@ {
                assert(all[10] == name);
            } else if name == "auto-5-r0-c2"@ {
                assert(all[11] == name);
            } else if name == "auto-5-r1-c0"@ {
                assert(all[12] == name);
            } else if name == "auto-5-r1-c1"@ {
                assert(all[13] == name);
            } else if name == "auto-6-r0-c0"@ {
                assert(all[14] == name);
            } else if name == "auto-6-r0-c1"@ {
                assert(all[15] == name);
            } else if name == "auto-6-r0-c2"@ {
                assert(all[16] == name);
            } else if name == "auto-6-r1-c0"@ {
                assert(all[17] == name);
            } else if name == "auto-6-r1-c1"@ {
                assert(all[18] == name);
            } else if name == "auto-6-r1-c2"@ {
                assert(all[19] == name);
            }
        }
        if all.contains(name) {
            let k = choose|k: int| 0 <= k < all.len() && all[k] == name;
            assert(region_percentages(all[k]) is Some);
        }
    }
    r
}

/// The planner and the installed regions agree: every region the planner asks for,
/// for two through six windows, is installed, and every installed region is one the
/// planner asks for.
pub proof fn lemma_planned_regions_are_installed(n: int, i: int, name: Seq<char>)
    ensures
        2 <= n <= 6 && 0 <= i < n ==> (planned_region(n, i) matches Some(r) && region_percentages(
            r,
        ) is Some),
        region_percentages(name) is Some ==> exists|m: int, j: int|
            2 <= m <= 6 && 0 <= j < m && #[trigger] planned_region(m, j) == Some(name),
{
    if region_percentages(name) is Some {
        if name == "auto-2-left"@ {
        assert(planned_region(2, 0) == Some(name));
    } else if name == "auto-2-right"@ {
        assert(planned_region(2, 1) == Some(name));
    } else if name == "auto-3-left"@ {
        assert(planned_region(3, 0) == Some(name));
    } else if name == "auto-3-right-top"@ {
        assert(planned_region(3, 1) == Some(name));
    } else if name == "auto-3-right-bottom"@ {
        assert(planned_region(3, 2) == Some(name));
    } else if name == "auto-4-top-left"@ {
        assert(planned_region(4, 0) == Some(name));
    } else if name == "auto-4-top-right"@ {
        assert(planned_region(4, 1) == Some(name));
    } else if name == "auto-4-bottom-left"@ {
        assert(planned_region(4, 2) == Some(name));
    } else if name == "auto-4-bottom-right"@ {
        assert(planned_region(4, 3) == Some(name));
    } else if name == "auto-5-r0-c0"@ {
        assert(planned_region(5, 0) == Some(name));
    } else if name == "auto-5-r0-c1"@ {
        assert(planned_region(5, 1) == Some(name));
    } else if name == "auto-5-r0-c2"@ {
        assert(planned_region(5, 2) == Some(name));
    } else if name == "auto-5-r1-c0"@ {
        assert(planned_region(5, 3) == Some(name));
    } else if name == "auto-5-r1-c1"@ {
        assert(planned_region(5, 4) == Some(name));
    } else if name == "auto-6-r0-c0"@ {
        assert(planned_region(6, 0) == Some(name));
    } else if name == "auto-6-r0-c1"@ {
        assert(planned_region(6, 1) == Some(name));
    } else if name == "auto-6-r0-c2"@ {
        assert(planned_region(6, 2) == Some(name));
    } else if name == "auto-6-r1-c0"@ {
        assert(planned_region(6, 3) == Some(name));
    } else if name == "auto-6-r1-c1"@ {
        assert(planned_region(6, 4) == Some(name));
    } else if name == "auto-6-r1-c2"@ {
        assert(planned_region(6, 5) == Some(name));
        }
    }
}

} // verus!

verus! {

/// `a` is `b` up to one hundredth of `size`, plus one for rounding.
pub open spec fn near(a: int, b: int, size: int) -> bool {
    a - b <= size / 100 + 1 && b - a <= size / 100 + 1
}

proof fn lemma_percent_edges(w: int)
    requires
        w >= 0,
    ensures
        w * 0 / 100 == 0,
        w * 50 / 100 == w / 2,
        w * 100 / 100 == w,
        near(w * 33 / 100, w * 1 / 3, w),
        near(w * 67 / 100, w * 2 / 3, w),
{
}

proof fn lemma_installed_region_table()
    ensures
        region_percentages("auto-2-left"@) == Some((0int, 0int, 50int, 100int)),
        region_percentages("auto-3-left"@) == Some((0int, 0int, 50int, 100int)),
        region_percentages("auto-2-right"@) == Some((50int, 0int, 50int, 100int)),
        region_percentages("auto-3-right-top"@) == Some((50int, 0int, 50int, 50int)),
        region_percentages("auto-4-top-right"@) == Some((50int, 0int, 50int, 50int)),
        region_percentages("auto-3-right-bottom"@) == Some((50int, 50int, 50int, 50int)),
        region_percentages("auto-4-bottom-right"@) == Some((50int, 50int, 50int, 50int)),
        region_percentages("auto-5-r1-c1"@) == Some((50int, 50int, 50int, 50int)),
        region_percentages("auto-4-top-left"@) == Some((0int, 0int, 50int, 50int)),
        region_percentages("auto-4-bottom-left"@) == Some((0int, 50int, 50int, 50int)),
        region_percentages("auto-5-r1-c0"@) == Some((0int, 50int, 50int, 50int)),
        region_percentages("auto-5-r0-c0"@) == Some((0int, 0int, 33int, 50int)),
        region_percentages("auto-6-r0-c0"@) == Some((0int, 0int, 33int, 50int)),
        region_percentages("auto-5-r0-c1"@) == Some((33int, 0int, 34int, 50int)),
        region_percentages("auto-6-r0-c1"@) == Some((33int, 0int, 34int, 50int)),
        region_percentages("auto-5-r0-c2"@) == Some((67int, 0int, 33int, 50int)),
        region_percentages("auto-6-r0-c2"@) == Some((67int, 0int, 33int, 50int)),
        region_percentages("auto-6-r1-c0"@) == Some((0int, 50int, 33int, 50int)),
        region_percentages("auto-6-r1-c1"@) == Some((33int, 50int, 34int, 50int)),
        region_percentages("auto-6-r1-c2"@) == Some((67int, 50int, 33int, 50int)),
{
    reveal_strlit("auto-2-left");
    reveal_strlit("auto-3-left");
    reveal_strlit("auto-2-right");
    reveal_strlit("auto-3-right-top");
    reveal_strlit("auto-4-top-right");
    reveal_strlit("auto-3-right-bottom");
    reveal_strlit("auto-4-bottom-right");
    reveal_strlit("auto-5-r1-c1");
    reveal_strlit("auto-4-top-left");
    reveal_strlit("auto-4-bottom-left");
    reveal_strlit("auto-5-r1-c0");
    reveal_strlit("auto-5-r0-c0");
    reveal_strlit("auto-6-r0-c0");
    reveal_strlit("auto-5-r0-c1");
    reveal_strlit("auto-6-r0-c1");
    reveal_strlit("auto-5-r0-c2");
    reveal_strlit("auto-6-r0-c2");
    reveal_strlit("auto-6-r1-c0");
    reveal_strlit("auto-6-r1-c1");
    reveal_strlit("auto-6-r1-c2");
    assert("auto-3-left"@[5] != "auto-2-left"@[5]);
    assert("auto-2-right"@.len() != "auto-2-left"@.len());
    assert("auto-2-right"@.len() != "auto-3-left"@.len());
    assert("auto-3-right-top"@.len() != "auto-2-left"@.len());
    assert("auto-3-right-top"@.len() != "auto-3-left"@.len());
    assert("auto-3-right-top"@.len() != "auto-2-right"@.len());
    assert("auto-4-top-right"@.len() != "auto-2-left"@.len());
    assert("auto-4-top-right"@.len() != "auto-3-left"@.len());
    assert("auto-4-top-right"@.len() != "auto-2-right"@.len());
    assert("auto-4-top-right"@[5] != "auto-3-right-top"@[5]);
    assert("auto-3-right-bottom"@.len() != "auto-2-left"@.len());
    assert("auto-3-right-bottom"@.len() != "auto-3-left"@.len());
    assert("auto-3-right-bottom"@.len() != "auto-2-right"@.len());
    assert("auto-3-right-bottom"@.len() != "auto-3-right-top"@.len());
    assert("auto-3-right-bottom"@.len() != "auto-4-top-right"@.len());
    assert("auto-4-bottom-right"@.len() != "auto-2-left"@.len());
    assert("auto-4-bottom-right"@.len() != "auto-3-left"@.len());
    assert("auto-4-bottom-right"@.len() != "auto-2-right"@.len());
    assert("auto-4-bottom-right"@.len() != "auto-3-right-top"@.len());
    assert("auto-4-bottom-right"@.len() != "auto-4-top-right"@.len());
    assert("auto-4-bottom-right"@[5] != "auto-3-right-bottom"@[5]);
    assert("auto-5-r1-c1"@.len() != "auto-2-left"@.len());
    assert("auto-5-r1-c1"@.len() != "auto-3-left"@.len());
    assert("auto-5-r1-c1"@[5] != "auto-2-right"@[5]);
    assert("auto-5-r1-c1"@.len() != "auto-3-right-top"@.len());
    assert("auto-5-r1-c1"@.len() != "auto-4-top-right"@.len());
    assert("auto-5-r1-c1"@.len() != "auto-3-right-bottom"@.len());
    assert("auto-5-r1-c1"@.len() != "auto-4-bottom-right"@.len());
    assert("auto-4-top-left"@.len() != "auto-2-left"@.len());
    assert("auto-4-top-left"@.len() != "auto-3-left"@.len());
    assert("auto-4-top-left"@.len() != "auto-2-right"@.len());
    assert("auto-4-top-left"@.len() != "auto-3-right-top"@.len());
    assert("auto-4-top-left"@.len() != "auto-4-top-right"@.len());
    assert("auto-4-top-left"@.len() != "auto-3-right-bottom"@.len());
    assert("auto-4-top-left"@.len() != "auto-4-bottom-right"@.len());
    assert("auto-4-top-left"@.len() != "auto-5-r1-c1"@.len());
    assert("auto-4-bottom-left"@.len() != "auto-2-left"@.len());
    assert("auto-4-bottom-left"@.len() != "auto-3-left"@.len());
    assert("auto-4-bottom-left"@.len() != "auto-2-right"@.len());
    assert("auto-4-bottom-left"@.len() != "auto-3-right-top"@.len());
    assert("auto-4-bottom-left"@.len() != "auto-4-top-right"@.len());
    assert("auto-4-bottom-left"@.len() != "auto-3-right-bottom"@.len());
    assert("auto-4-bottom-left"@.len() != "auto-4-bottom-right"@.len());
    assert("auto-4-bottom-left"@.len() != "auto-5-r1-c1"@.len());
    assert("auto-4-bottom-left"@.len() != "auto-4-top-left"@.len());
    assert("auto-5-r1-c0"@.len() != "auto-2-left"@.len());
    assert("auto-5-r1-c0"@.len() != "auto-3-left"@.len());
    assert("auto-5-r1-c0"@[5] != "auto-2-right"@[5]);
    assert("auto-5-r1-c0"@.len() != "auto-3-right-top"@.len());
    assert("auto-5-r1-c0"@.len() != "auto-4-top-right"@.len());
    assert("auto-5-r1-c0"@.len() != "auto-3-right-bottom"@.len());
    assert("auto-5-r1-c0"@.len() != "auto-4-bottom-right"@.len());
    assert("auto-5-r1-c0"@[11] != "auto-5-r1-c1"@[11]);
    assert("auto-5-r1-c0"@.len() != "auto-4-top-left"@.len());
    assert("auto-5-r1-c0"@.len() != "auto-4-bottom-left"@.len());
    assert("auto-5-r0-c0"@.len() != "auto-2-left"@.len());
    assert("auto-5-r0-c0"@.len() != "auto-3-left"@.len());
    assert("auto-5-r0-c0"@[5] != "auto-2-right"@[5]);
    assert("auto-5-r0-c0"@.len() != "auto-3-right-top"@.len());
    assert("auto-5-r0-c0"@.len() != "auto-4-top-right"@.len());
    assert("auto-5-r0-c0"@.len() != "auto-3-right-bottom"@.len());
    assert("auto-5-r0-c0"@.len() != "auto-4-bottom-right"@.len());
    assert("auto-5-r0-c0"@[8] != "auto-5-r1-c1"@[8]);
    assert("auto-5-r0-c0"@.len() != "auto-4-top-left"@.len());
    assert("auto-5-r0-c0"@.len() != "auto-4-bottom-left"@.len());
    assert("auto-5-r0-c0"@[8] != "auto-5-r1-c0"@[8]);
    assert("auto-6-r0-c0"@.len() != "auto-2-left"@.len());
    assert("auto-6-r0-c0"@.len() != "auto-3-left"@.len());
    assert("auto-6-r0-c0"@[5] != "auto-2-right"@[5]);
    assert("auto-6-r0-c0"@.len() != "auto-3-right-top"@.len());
    assert("auto-6-r0-c0"@.len() != "auto-4-top-right"@.len());
    assert("auto-6-r0-c0"@.len() != "auto-3-right-bottom"@.len());
    assert("auto-6-r0-c0"@.len() != "auto-4-bottom-right"@.len());
    assert("auto-6-r0-c0"@[5] != "auto-5-r1-c1"@[5]);
    assert("auto-6-r0-c0"@.len() != "auto-4-top-left"@.len());
    assert("auto-6-r0-c0"@.len() != "auto-4-bottom-left"@.len());
    assert("auto-6-r0-c0"@[5] != "auto-5-r1-c0"@[5]);
    assert("auto-6-r0-c0"@[5] != "auto-5-r0-c0"@[5]);
    assert("auto-5-r0-c1"@.len() != "auto-2-left"@.len());
    assert("auto-5-r0-c1"@.len() != "auto-3-left"@.len());
    assert("auto-5-r0-c1"@[5] != "auto-2-right"@[5]);
    assert("auto-5-r0-c1"@.len() != "auto-3-right-top"@.len());
    assert("auto-5-r0-c1"@.len() != "auto-4-top-right"@.len());
    assert("auto-5-r0-c1"@.len() != "auto-3-right-bottom"@.len());
    assert("auto-5-r0-c1"@.len() != "auto-4-bottom-right"@.len());
    assert("auto-5-r0-c1"@[8] != "auto-5-r1-c1"@[8]);
    assert("auto-5-r0-c1"@.len() != "auto-4-top-left"@.len());
    assert("auto-5-r0-c1"@.len() != "auto-4-bottom-left"@.len());
    assert("auto-5-r0-c1"@[8] != "auto-5-r1-c0"@[8]);
    assert("auto-5-r0-c1"@[11] != "auto-5-r0-c0"@[11]);
    assert("auto-5-r0-c1"@[5] != "auto-6-r0-c0"@[5]);
    assert("auto-6-r0-c1"@.len() != "auto-2-left"@.len());
    assert("auto-6-r0-c1"@.len() != "auto-3-left"@.len());
    assert("auto-6-r0-c1"@[5] != "auto-2-right"@[5]);
    assert("auto-6-r0-c1"@.len() != "auto-3-right-top"@.len());
    assert("auto-6-r0-c1"@.len() != "auto-4-top-right"@.len());
    assert("auto-6-r0-c1"@.len() != "auto-3-right-bottom"@.len());
    assert("auto-6-r0-c1"@.len() != "auto-4-bottom-right"@.len());
    assert("auto-6-r0-c1"@[5] != "auto-5-r1-c1"@[5]);
    assert("auto-6-r0-c1"@.len() != "auto-4-top-left"@.len());
    assert("auto-6-r0-c1"@.len() != "auto-4-bottom-left"@.len());
    assert("auto-6-r0-c1"@[5] != "auto-5-r1-c0"@[5]);
    assert("auto-6-r0-c1"@[5] != "auto-5-r0-c0"@[5]);
    assert("auto-6-r0-c1"@[11] != "auto-6-r0-c0"@[11]);
    assert("auto-6-r0-c1"@[5] != "auto-5-r0-c1"@[5]);
    assert("auto-5-r0-c2"@.len() != "auto-2-left"@.len());
    assert("auto-5-r0-c2"@.len() != "auto-3-left"@.len());
    assert("auto-5-r0-c2"@[5] != "auto-2-right"@[5]);
    assert("auto-5-r0-c2"@.len() != "auto-3-right-top"@.len());
    assert("auto-5-r0-c2"@.len() != "auto-4-top-right"@.len());
    assert("auto-5-r0-c2"@.len() != "auto-3-right-bottom"@.len());
    assert("auto-5-r0-c2"@.len() != "auto-4-bottom-right"@.len());
    assert("auto-5-r0-c2"@[8] != "auto-5-r1-c1"@[8]);
    assert("auto-5-r0-c2"@.len() != "auto-4-top-left"@.len());
    assert("auto-5-r0-c2"@.len() != "auto-4-bottom-left"@.len());
    assert("auto-5-r0-c2"@[8] != "auto-5-r1-c0"@[8]);
    assert("auto-5-r0-c2"@[11] != "auto-5-r0-c0"@[11]);
    assert("auto-5-r0-c2"@[5] != "auto-6-r0-c0"@[5]);
    assert("auto-5-r0-c2"@[11] != "auto-5-r0-c1"@[11]);
    assert("auto-5-r0-c2"@[5] != "auto-6-r0-c1"@[5]);
    assert("auto-6-r0-c2"@.len() != "auto-2-left"@.len());
    assert("auto-6-r0-c2"@.len() != "auto-3-left"@.len());
    assert("auto-6-r0-c2"@[5] != "auto-2-right"@[5]);
    assert("auto-6-r0-c2"@.len() != "auto-3-right-top"@.len());
    assert("auto-6-r0-c2"@.len() != "auto-4-top-right"@.len());
    assert("auto-6-r0-c2"@.len() != "auto-3-right-bottom"@.len());
    assert("auto-6-r0-c2"@.len() != "auto-4-bottom-right"@.len());
    assert("auto-6-r0-c2"@[5] != "auto-5-r1-c1"@[5]);
    assert("auto-6-r0-c2"@.len() != "auto-4-top-left"@.len());
    assert("auto-6-r0-c2"@.len() != "auto-4-bottom-left"@.len());
    assert("auto-6-r0-c2"@[5] != "auto-5-r1-c0"@[5]);
    assert("auto-6-r0-c2"@[5] != "auto-5-r0-c0"@[5]);
    assert("auto-6-r0-c2"@[11] != "auto-6-r0-c0"@[11]);
    assert("auto-6-r0-c2"@[5] != "auto-5-r0-c1"@[5]);
    assert("auto-6-r0-c2"@[11] != "auto-6-r0-c1"@[11]);
    assert("auto-6-r0-c2"@[5] != "auto-5-r0-c2"@[5]);
    assert("auto-6-r1-c0"@.len() != "auto-2-left"@.len());
    assert("auto-6-r1-c0"@.len() != "auto-3-left"@.len());
    assert("auto-6-r1-c0"@[5] != "auto-2-right"@[5]);
    assert("auto-6-r1-c0"@.len() != "auto-3-right-top"@.len());
    assert("auto-6-r1-c0"@.len() != "auto-4-top-right"@.len());
    assert("auto-6-r1-c0"@.len() != "auto-3-right-bottom"@.len());
    assert("auto-6-r1-c0"@.len() != "auto-4-bottom-right"@.len());
    assert("auto-6-r1-c0"@[5] != "auto-5-r1-c1"@[5]);
    assert("auto-6-r1-c0"@.len() != "auto-4-top-left"@.len());
    assert("auto-6-r1-c0"@.len() != "auto-4-bottom-left"@.len());
    assert("auto-6-r1-c0"@[5] != "auto-5-r1-c0"@[5]);
    assert("auto-6-r1-c0"@[5] != "auto-5-r0-c0"@[5]);
    assert("auto-6-r1-c0"@[8] != "auto-6-r0-c0"@[8]);
    assert("auto-6-r1-c0"@[5] != "auto-5-r0-c1"@[5]);
    assert("auto-6-r1-c0"@[8] != "auto-6-r0-c1"@[8]);
    assert("auto-6-r1-c0"@[5] != "auto-5-r0-c2"@[5]);
    assert("auto-6-r1-c0"@[8] != "auto-6-r0-c2"@[8]);
    assert("auto-6-r1-c1"@.len() != "auto-2-left"@.len());
    assert("auto-6-r1-c1"@.len() != "auto-3-left"@.len());
    assert("auto-6-r1-c1"@[5] != "auto-2-right"@[5]);
    assert("auto-6-r1-c1"@.len() != "auto-3-right-top"@.len());
    assert("auto-6-r1-c1"@.len() != "auto-4-top-right"@.len());
    assert("auto-6-r1-c1"@.len() != "auto-3-right-bottom"@.len());
    assert("auto-6-r1-c1"@.len() != "auto-4-bottom-right"@.len());
    assert("auto-6-r1-c1"@[5] != "auto-5-r1-c1"@[5]);
    assert("auto-6-r1-c1"@.len() != "auto-4-top-left"@.len());
    assert("auto-6-r1-c1"@.len() != "auto-4-bottom-left"@.len());
    assert("auto-6-r1-c1"@[5] != "auto-5-r1-c0"@[5]);
    assert("auto-6-r1-c1"@[5] != "auto-5-r0-c0"@[5]);
    assert("auto-6-r1-c1"@[8] != "auto-6-r0-c0"@[8]);
    assert("auto-6-r1-c1"@[5] != "auto-5-r0-c1"@[5]);
    assert("auto-6-r1-c1"@[8] != "auto-6-r0-c1"@[8]);
    assert("auto-6-r1-c1"@[5] != "auto-5-r0-c2"@[5]);
    assert("auto-6-r1-c1"@[8] != "auto-6-r0-c2"@[8]);
    assert("auto-6-r1-c1"@[11] != "auto-6-r1-c0"@[11]);
    assert("auto-6-r1-c2"@.len() != "auto-2-left"@.len());
    assert("auto-6-r1-c2"@.len() != "auto-3-left"@.len());
    assert("auto-6-r1-c2"@[5] != "auto-2-right"@[5]);
    assert("auto-6-r1-c2"@.len() != "auto-3-right-top"@.len());
    assert("auto-6-r1-c2"@.len() != "auto-4-top-right"@.len());
    assert("auto-6-r1-c2"@.len() != "auto-3-right-bottom"@.len());
    assert("auto-6-r1-c2"@.len() != "auto-4-bottom-right"@.len());
    assert("auto-6-r1-c2"@[5] != "auto-5-r1-c1"@[5]);
    assert("auto-6-r1-c2"@.len() != "auto-4-top-left"@.len());
    assert("auto-6-r1-c2"@.len() != "auto-4-bottom-left"@.len());
    assert("auto-6-r1-c2"@[5] != "auto-5-r1-c0"@[5]);
    assert("auto-6-r1-c2"@[5] != "auto-5-r0-c0"@[5]);
    assert("auto-6-r1-c2"@[8] != "auto-6-r0-c0"@[8]);
    assert("auto-6-r1-c2"@[5] != "auto-5-r0-c1"@[5]);
    assert("auto-6-r1-c2"@[8] != "auto-6-r0-c1"@[8]);
    assert("auto-6-r1-c2"@[5] != "auto-5-r0-c2"@[5]);
    assert("auto-6-r1-c2"@[8] != "auto-6-r0-c2"@[8]);
    assert("auto-6-r1-c2"@[11] != "auto-6-r1-c0"@[11]);
    assert("auto-6-r1-c2"@[11] != "auto-6-r1-c1"@[11]);
}

/// Each planned window asks Labwc for the region where the planner put it: on every
/// output, each edge of the installed box of the region the `i`-th of `n` windows
/// requests lies within one hundredth of the output's size (plus one for rounding)
/// of the same edge of its planned rectangle.
pub proof fn lemma_regions_lie_where_planned(o: Output, n: int, i: int)
    requires
        2 <= n <= 6,
        0 <= i < n,
    ensures
        planned_region(n, i) matches Some(name) && region_percentages(name) matches Some(pc) && {
            let b = region_box((0i32, 0i32), o, pc);
            let t = planned_rect(o, n, i);
            &&& near(b.0, t.0, o.width as int)
            &&& near(b.0 + b.2, t.0 + t.2, o.width as int)
            &&& near(b.1, t.1, o.height as int)
            &&& near(b.1 + b.3, t.1 + t.3, o.height as int)
        },
{
    lemma_installed_region_table();
    lemma_percent_edges(o.width as int);
    lemma_percent_edges(o.height as int);
    if n == 2 && i == 0 {
        assert(planned_region(2, 0) == Some("auto-2-left"@));
    } else if n == 2 && i == 1 {
        assert(planned_region(2, 1) == Some("auto-2-right"@));
    } else if n == 3 && i == 0 {
        assert(planned_region(3, 0) == Some("auto-3-left"@));
    } else if n == 3 && i == 1 {
        assert(planned_region(3, 1) == Some("auto-3-right-top"@));
    } else if n == 3 && i == 2 {
        assert(planned_region(3, 2) == Some("auto-3-right-bottom"@));
    } else if n == 4 && i == 0 {
        assert(planned_region(4, 0) == Some("auto-4-top-left"@));
    } else if n == 4 && i == 1 {
        assert(planned_region(4, 1) == Some("auto-4-top-right"@));
    } else if n == 4 && i == 2 {
        assert(planned_region(4, 2) == Some("auto-4-bottom-left"@));
    } else if n == 4 && i == 3 {
        assert(planned_region(4, 3) == Some("auto-4-bottom-right"@));
    } else if n == 5 && i == 0 {
        assert(planned_region(5, 0) == Some("auto-5-r0-c0"@));
    } else if n == 5 && i == 1 {
        assert(planned_region(5, 1) == Some("auto-5-r0-c1"@));
    } else if n == 5 && i == 2 {
        assert(planned_region(5, 2) == Some("auto-5-r0-c2"@));
    } else if n == 5 && i == 3 {
        assert(planned_region(5, 3) == Some("auto-5-r1-c0"@));
    } else if n == 5 && i == 4 {
        assert(planned_region(5, 4) == Some("auto-5-r1-c1"@));
    } else if n == 6 && i == 0 {
        assert(planned_region(6, 0) == Some("auto-6-r0-c0"@));
    } else if n == 6 && i == 1 {
        assert(planned_region(6, 1) == Some("auto-6-r0-c1"@));
    } else if n == 6 && i == 2 {
        assert(planned_region(6, 2) == Some("auto-6-r0-c2"@));
    } else if n == 6 && i == 3 {
        assert(planned_region(6, 3) == Some("auto-6-r1-c0"@));
    } else if n == 6 && i == 4 {
        assert(planned_region(6, 4) == Some("auto-6-r1-c1"@));
    } else if n == 6 && i == 5 {
        assert(planned_region(6, 5) == Some("auto-6-r1-c2"@));
    }
}

} // verus!

verus! {

/// Every view type word names the toplevel kind of the same name: for any view and the
/// toplevel observed for it, `normal`, `dialog`, `utility` and `desktop` give the kinds
/// so named, and any other word gives `Other`.
pub proof fn lemma_view_type_names_its_kind(t: Toplevel, v: IpcView)
    requires
        is_toplevel_of(t, v),
    ensures
        v.kind@ == "normal"@ ==> t.kind == ToplevelKind::Normal,
        v.kind@ == "dialog"@ ==> t.kind == ToplevelKind::Dialog,
        v.kind@ == "utility"@ ==> t.kind == ToplevelKind::Utility,
        v.kind@ == "desktop"@ ==> t.kind == ToplevelKind::Desktop,
        v.kind@ != "normal"@ && v.kind@ != "dialog"@ && v.kind@ != "utility"@ && v.kind@
            != "desktop"@ ==> t.kind == ToplevelKind::Other,
{
    reveal_strlit("normal");
    reveal_strlit("dialog");
    reveal_strlit("utility");
    reveal_strlit("desktop");
    assert("dialog"@[0] != "normal"@[0]);
    assert("utility"@[0] != "normal"@[0]);
    assert("utility"@[0] != "dialog"@[0]);
    assert("desktop"@[0] != "normal"@[0]);
    assert("desktop"@[1] != "dialog"@[1]);
    assert("desktop"@[0] != "utility"@[0]);
}

} // verus!
