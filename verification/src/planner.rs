//! The deterministic layout planner and the compositor commands that carry a
//! plan out.

use vstd::prelude::*;

use crate::model::{
    request_region, views, CompositorCommand, DecorationState, LayoutRequest, Output, Placement, Rect,
    WorkspacePlan,
};

verus! {

/// `w * k / parts`, the `k`-th of `parts` equal integer cuts of `w`.
pub open spec fn cut(w: int, k: int, parts: int) -> int {
    w * k / parts
}

/// Row of the `i`-th window of a five- or six-window grid.
pub open spec fn grid_row(i: int) -> int {
    if i < 3 { 0 } else { 1 }
}

/// Column of the `i`-th window of a five- or six-window grid.
pub open spec fn grid_col(i: int) -> int {
    if i < 3 { i } else { i - 3 }
}

/// Columns in the row of the `i`-th window: three, or two on the second row of five.
pub open spec fn grid_columns(n: int, i: int) -> int {
    if n == 5 && grid_row(i) == 1 { 2 } else { 3 }
}

/// The planned rectangle `(x, y, width, height)` of the `i`-th of `n` managed windows.
pub open spec fn planned_rect(o: Output, n: int, i: int) -> (int, int, int, int) {
    let w = o.width as int;
    let h = o.height as int;
    let hw = w / 2;
    let hh = h / 2;
    let rw = w - hw;
    let rh = h - hh;
    if n == 1 {
        (0, 0, w, h)
    } else if n == 2 {
        if i == 0 { (0, 0, hw, h) } else { (hw, 0, w - hw, h) }
    } else if n == 3 {
        if i == 0 {
            (0, 0, hw, h)
        } else if i == 1 {
            (hw, 0, rw, hh)
        } else {
            (hw, hh, rw, rh)
        }
    } else if n == 4 {
        if i == 0 {
            (0, 0, hw, hh)
        } else if i == 1 {
            (hw, 0, rw, hh)
        } else if i == 2 {
            (0, hh, hw, rh)
        } else {
            (hw, hh, rw, rh)
        }
    } else {
        let row = grid_row(i);
        let col = grid_col(i);
        let cols = grid_columns(n, i);
        let x = cut(w, col, cols);
        let y = cut(h, row, 2);
        (x, y, cut(w, col + 1, cols) - x, cut(h, row + 1, 2) - y)
    }
}

/// Region name of a five- or six-window grid cell.
pub open spec fn grid_region(n: int, row: int, col: int) -> Seq<char> {
    if n == 5 {
        if row == 0 {
            if col == 0 { "auto-5-r0-c0"@ } else if col == 1 { "auto-5-r0-c1"@ } else { "auto-5-r0-c2"@ }
        } else {
            if col == 0 { "auto-5-r1-c0"@ } else { "auto-5-r1-c1"@ }
        }
    } else {
        if row == 0 {
            if col == 0 { "auto-6-r0-c0"@ } else if col == 1 { "auto-6-r0-c1"@ } else { "auto-6-r0-c2"@ }
        } else {
            if col == 0 { "auto-6-r1-c0"@ } else if col == 1 { "auto-6-r1-c1"@ } else { "auto-6-r1-c2"@ }
        }
    }
}

/// The Labwc region requested for the `i`-th of `n` managed windows; `None` means maximize.
pub open spec fn planned_region(n: int, i: int) -> Option<Seq<char>> {
    if n == 1 {
        None
    } else if n == 2 {
        Some(if i == 0 { "auto-2-left"@ } else { "auto-2-right"@ })
    } else if n == 3 {
        Some(if i == 0 { "auto-3-left"@ } else if i == 1 { "auto-3-right-top"@ } else { "auto-3-right-bottom"@ })
    } else if n == 4 {
        Some(
            if i == 0 {
                "auto-4-top-left"@
            } else if i == 1 {
                "auto-4-top-right"@
            } else if i == 2 {
                "auto-4-bottom-left"@
            } else {
                "auto-4-bottom-right"@
            },
        )
    } else {
        Some(grid_region(n, grid_row(i), grid_col(i)))
    }
}

/// A rectangle equals the given `(x, y, width, height)`.
pub open spec fn rect_is(r: Rect, t: (int, int, int, int)) -> bool {
    r.x == t.0 && r.y == t.1 && r.width == t.2 && r.height == t.3
}

/// The `i`-th of `n` placements of window `id` on `o` is the planned one.
pub open spec fn placement_is(p: Placement, o: Output, n: int, i: int, id: Seq<char>) -> bool {
    &&& p.id@ == id
    &&& rect_is(p.rect, planned_rect(o, n, i))
    &&& request_region(p.request) == planned_region(n, i)
}

/// `ps` is the plan of the managed windows `ids` on `o`: one placement per window for
/// one through six windows, in order, and no placement otherwise.
pub open spec fn is_plan(ps: Seq<Placement>, o: Output, ids: Seq<Seq<char>>) -> bool {
    let n = ids.len() as int;
    if 1 <= n <= 6 {
        &&& ps.len() == n
        &&& forall|i: int| 0 <= i < n ==> #[trigger] placement_is(ps[i], o, n, i, ids[i])
    } else {
        ps.len() == 0
    }
}

/// The rectangle `t` lies inside the output `o`.
pub open spec fn inside(t: (int, int, int, int), o: Output) -> bool {
    &&& 0 <= t.0 && 0 <= t.1 && 0 <= t.2 && 0 <= t.3
    &&& t.0 + t.2 <= o.width
    &&& t.1 + t.3 <= o.height
}

/// The point `(px, py)` lies in the rectangle `t`.
pub open spec fn covers(t: (int, int, int, int), px: int, py: int) -> bool {
    t.0 <= px < t.0 + t.2 && t.1 <= py < t.1 + t.3
}

/// Some of the `n` planned rectangles covers the point `(px, py)`.
pub open spec fn covered(o: Output, n: int, px: int, py: int) -> bool {
    exists|i: int| 0 <= i < n && #[trigger] covers(planned_rect(o, n, i), px, py)
}

proof fn lemma_cuts(w: int)
    requires
        w >= 0,
    ensures
        cut(w, 0, 2) == 0,
        cut(w, 2, 2) == w,
        0 <= cut(w, 1, 2) <= w,
        cut(w, 1, 2) == w / 2,
        cut(w, 0, 3) == 0,
        cut(w, 3, 3) == w,
        0 <= cut(w, 1, 3) <= cut(w, 2, 3) <= w,
{
}

/// For one through six windows the planned rectangles stay inside the output,
/// no two of them overlap, and together they cover every point of the output:
/// the automatic layout tiles the usable area without gaps.
pub proof fn lemma_plan_tiles_output(o: Output, n: int)
    requires
        1 <= n <= 6,
    ensures
        forall|i: int| 0 <= i < n ==> inside(#[trigger] planned_rect(o, n, i), o),
        forall|i: int, j: int, px: int, py: int|
            #![trigger covers(planned_rect(o, n, i), px, py), covers(planned_rect(o, n, j), px, py)]
            0 <= i < j < n && covers(planned_rect(o, n, i), px, py) ==> !covers(
                planned_rect(o, n, j),
                px,
                py,
            ),
        forall|px: int, py: int|
            0 <= px < o.width && 0 <= py < o.height ==> #[trigger] covered(o, n, px, py),
{
    let w = o.width as int;
    let h = o.height as int;
    lemma_cuts(w);
    lemma_cuts(h);
    assert forall|px: int, py: int| 0 <= px < w && 0 <= py < h implies #[trigger] covered(
        o,
        n,
        px,
        py,
    ) by {
        let hw = w / 2;
        let hh = h / 2;
        let i: int = if n == 1 {
            0
        } else if n == 2 {
            if px < hw { 0 } else { 1 }
        } else if n == 3 {
            if px < hw { 0 } else if py < hh { 1 } else { 2 }
        } else if n == 4 {
            if py < hh {
                if px < hw { 0 } else { 1 }
            } else {
                if px < hw { 2 } else { 3 }
            }
        } else {
            let row: int = if py < hh { 0 } else { 1 };
            let cols: int = if n == 5 && row == 1 { 2 } else { 3 };
            let col: int = if px < cut(w, 1, cols) { 0 } else if px < cut(w, 2, cols) { 1 } else { 2 };
            row * 3 + col
        };
        assert(covers(planned_rect(o, n, i), px, py));
    }
}

fn snap(id: &String, x: u32, y: u32, width: u32, height: u32, region: &str) -> (p: Placement)
    ensures
        p.id@ == id@,
        p.rect == (Rect { x, y, width, height }),
        request_region(p.request) == Some(region@),
{
    Placement {
        id: id.clone(),
        rect: Rect { x, y, width, height },
        request: LayoutRequest::Snap { region: region.to_owned() },
    }
}

/// `w * k / parts` computed without overflow.
fn cut_exec(w: u32, k: u32, parts: u32) -> (r: u32)
    requires
        parts == 2 || parts == 3,
        k <= parts,
    ensures
        r == cut(w as int, k as int, parts as int),
        r <= w,
{
    assert((w as int) * (k as int) <= 0xffff_ffff * 3) by (nonlinear_arith)
        requires w <= 0xffff_ffff, k <= 3;
    let wide = (w as u64) * (k as u64);
    proof {
        assert((w as int) * (k as int) <= (w as int) * (parts as int)) by (nonlinear_arith)
            requires k <= parts;
        assert((w as int) * (k as int) / (parts as int) <= (w as int) * (parts as int) / (parts as int)) by (nonlinear_arith)
            requires (w as int) * (k as int) <= (w as int) * (parts as int), parts > 0;
        assert((w as int) * (parts as int) / (parts as int) == w) by (nonlinear_arith)
            requires parts > 0;
    }
    (wide / (parts as u64)) as u32
}

fn grid_region_exec(n: usize, row: usize, col: usize) -> (r: String)
    requires
        n == 5 || n == 6,
    ensures
        r@ == grid_region(n as int, row as int, col as int),
{
    let s = if n == 5 {
        if row == 0 {
            if col == 0 { "auto-5-r0-c0" } else if col == 1 { "auto-5-r0-c1" } else { "auto-5-r0-c2" }
        } else {
            if col == 0 { "auto-5-r1-c0" } else { "auto-5-r1-c1" }
        }
    } else {
        if row == 0 {
            if col == 0 { "auto-6-r0-c0" } else if col == 1 { "auto-6-r0-c1" } else { "auto-6-r0-c2" }
        } else {
            if col == 0 { "auto-6-r1-c0" } else if col == 1 { "auto-6-r1-c1" } else { "auto-6-r1-c2" }
        }
    };
    s.to_owned()
}

/// Plan the desired placement of already-classified managed toplevels.
pub fn plan(output: Output, windows: &[String]) -> (r: Vec<Placement>)
    ensures
        is_plan(r@, output, views(windows@)),
{
    let n = windows.len();
    let w = output.width;
    let h = output.height;
    let hw = w / 2;
    let hh = h / 2;
    let rw = w - hw;
    let rh = h - hh;
    if n == 1 {
        let p = Placement {
            id: windows[0].clone(),
            rect: Rect { x: 0, y: 0, width: w, height: h },
            request: LayoutRequest::Maximize,
        };
        let r = vec![p];
        assert(placement_is(r@[0], output, 1, 0, views(windows@)[0]));
        r
    } else if n == 2 {
        let r = vec![
            snap(&windows[0], 0, 0, hw, h, "auto-2-left"),
            snap(&windows[1], hw, 0, rw, h, "auto-2-right"),
        ];
        assert(placement_is(r@[0], output, 2, 0, views(windows@)[0]));
        assert(placement_is(r@[1], output, 2, 1, views(windows@)[1]));
        r
    } else if n == 3 {
        let r = vec![
            snap(&windows[0], 0, 0, hw, h, "auto-3-left"),
            snap(&windows[1], hw, 0, rw, hh, "auto-3-right-top"),
            snap(&windows[2], hw, hh, rw, rh, "auto-3-right-bottom"),
        ];
        assert(placement_is(r@[0], output, 3, 0, views(windows@)[0]));
        assert(placement_is(r@[1], output, 3, 1, views(windows@)[1]));
        assert(placement_is(r@[2], output, 3, 2, views(windows@)[2]));
        r
    } else if n == 4 {
        let r = vec![
            snap(&windows[0], 0, 0, hw, hh, "auto-4-top-left"),
            snap(&windows[1], hw, 0, rw, hh, "auto-4-top-right"),
            snap(&windows[2], 0, hh, hw, rh, "auto-4-bottom-left"),
            snap(&windows[3], hw, hh, rw, rh, "auto-4-bottom-right"),
        ];
        assert(placement_is(r@[0], output, 4, 0, views(windows@)[0]));
        assert(placement_is(r@[1], output, 4, 1, views(windows@)[1]));
        assert(placement_is(r@[2], output, 4, 2, views(windows@)[2]));
        assert(placement_is(r@[3], output, 4, 3, views(windows@)[3]));
        r
    } else if n == 5 || n == 6 {
        plan_small_grid(output, windows)
    } else {
        Vec::new()
    }
}

/// The five- and six-window grids: three columns per row, two on the second row of five.
fn plan_small_grid(output: Output, windows: &[String]) -> (r: Vec<Placement>)
    requires
        windows@.len() == 5 || windows@.len() == 6,
    ensures
        is_plan(r@, output, views(windows@)),
{
    let n = windows.len();
    let mut placements: Vec<Placement> = Vec::with_capacity(n);
    let mut index: usize = 0;
    while index < n
        invariant
            n == windows@.len(),
            n == 5 || n == 6,
            index <= n,
            placements@.len() == index,
            forall|i: int|
                0 <= i < index ==> #[trigger] placement_is(
                    placements@[i],
                    output,
                    n as int,
                    i,
                    views(windows@)[i],
                ),
        decreases n - index,
    {
        let row: usize = if index < 3 { 0 } else { 1 };
        let column: usize = if index < 3 { index } else { index - 3 };
        let columns: usize = if n == 5 && row == 1 { 2 } else { 3 };
        let y = cut_exec(output.height, row as u32, 2);
        let next_y = cut_exec(output.height, (row + 1) as u32, 2);
        let x = cut_exec(output.width, column as u32, columns as u32);
        let next_x = cut_exec(output.width, (column + 1) as u32, columns as u32);
        proof {
            let w = output.width as int;
            let h = output.height as int;
            assert(cut(w, column as int, columns as int) <= cut(w, column as int + 1, columns as int)) by (nonlinear_arith)
                requires columns > 0, w >= 0;
            assert(cut(h, row as int, 2) <= cut(h, row as int + 1, 2)) by (nonlinear_arith)
                requires h >= 0;
        }
        let region = grid_region_exec(n, row, column);
        let p = Placement {
            id: windows[index].clone(),
            rect: Rect { x, y, width: next_x - x, height: next_y - y },
            request: LayoutRequest::Snap { region },
        };
        assert(placement_is(p, output, n as int, index as int, views(windows@)[index as int]));
        placements.push(p);
        index += 1;
    }
    placements
}

} // verus!

verus! {

/// The compositor command that realises one placement.
pub open spec fn command_for(p: Placement) -> CompositorCommand {
    match p.request {
        LayoutRequest::Maximize => CompositorCommand::Maximize { toplevel_id: p.id },
        LayoutRequest::Snap { region } => CompositorCommand::Snap {
            toplevel_id: p.id,
            region,
            rect: p.rect,
        },
    }
}

/// The window `id` is floating or ignored in `plan`.
pub open spec fn leaves_layout(plan: WorkspacePlan, id: Seq<char>) -> bool {
    views(plan.floating@).contains(id) || views(plan.ignored@).contains(id)
}

/// One `Unsnap` per previously placed window that no longer takes part in the layout,
/// in the previous order.
pub open spec fn release_commands(previous: Seq<String>, plan: WorkspacePlan) -> Seq<
    CompositorCommand,
>
    decreases previous.len(),
{
    if previous.len() == 0 {
        seq![]
    } else {
        let earlier = release_commands(previous.drop_last(), plan);
        if leaves_layout(plan, previous.last()@) {
            earlier.push(CompositorCommand::Unsnap { toplevel_id: previous.last() })
        } else {
            earlier
        }
    }
}

/// Whether `v` holds a string equal to `id`.
pub fn contains_id(v: &Vec<String>, id: &String) -> (b: bool)
    ensures
        b == views(v@).contains(id@),
{
    let mut i: usize = 0;
    while i < v.len()
        invariant
            i <= v@.len(),
            forall|j: int| 0 <= j < i ==> v@[j]@ != id@,
        decreases v@.len() - i,
    {
        if v[i] == *id {
            assert(views(v@)[i as int] == id@);
            return true;
        }
        i += 1;
    }
    proof {
        if views(v@).contains(id@) {
            let k = choose|k: int| 0 <= k < views(v@).len() && views(v@)[k] == id@;
            assert(v@[k]@ == id@);
        }
    }
    false
}

/// Turns pure planner output into the small semantic adapter contract.
pub fn reconcile_commands(placements: &[Placement]) -> (r: Vec<CompositorCommand>)
    ensures
        r@ == placements@.map_values(|p: Placement| command_for(p)),
{
    let mut r: Vec<CompositorCommand> = Vec::new();
    let mut i: usize = 0;
    while i < placements.len()
        invariant
            i <= placements@.len(),
            r@ == placements@.take(i as int).map_values(|p: Placement| command_for(p)),
        decreases placements@.len() - i,
    {
        let p = &placements[i];
        let command = match &p.request {
            LayoutRequest::Maximize => CompositorCommand::Maximize { toplevel_id: p.id.clone() },
            LayoutRequest::Snap { region } => CompositorCommand::Snap {
                toplevel_id: p.id.clone(),
                region: region.clone(),
                rect: p.rect,
            },
        };
        r.push(command);
        assert(placements@.take(i + 1) == placements@.take(i as int).push(placements@[i as int]));
        i += 1;
    }
    assert(placements@.take(placements@.len() as int) == placements@);
    r
}

/// Release windows that left the layout, then place the planned ones.
pub fn transition_commands(previous_placements: &[String], plan: &WorkspacePlan) -> (r: Vec<
    CompositorCommand,
>)
    ensures
        r@ == release_commands(previous_placements@, *plan) + plan.placements@.map_values(
            |p: Placement| command_for(p),
        ),
{
    let mut commands: Vec<CompositorCommand> = Vec::new();
    let mut i: usize = 0;
    while i < previous_placements.len()
        invariant
            i <= previous_placements@.len(),
            commands@ == release_commands(previous_placements@.take(i as int), *plan),
        decreases previous_placements@.len() - i,
    {
        let id = &previous_placements[i];
        assert(previous_placements@.take(i + 1).drop_last() == previous_placements@.take(i as int));
        if contains_id(&plan.floating, id) || contains_id(&plan.ignored, id) {
            commands.push(CompositorCommand::Unsnap { toplevel_id: id.clone() });
        }
        i += 1;
    }
    assert(previous_placements@.take(previous_placements@.len() as int) == previous_placements@);
    let mut placed = reconcile_commands(plan.placements.as_slice());
    commands.append(&mut placed);
    commands
}

} // verus!

verus! {

/// Full decorations, then the placement, for each planned window in order.
pub open spec fn placement_commands(ps: Seq<Placement>) -> Seq<CompositorCommand>
    decreases ps.len(),
{
    if ps.len() == 0 {
        Seq::empty()
    } else {
        placement_commands(ps.drop_last()) + seq![
            CompositorCommand::SetDecoration {
                toplevel_id: ps.last().id,
                decoration: DecorationState::Full,
            },
            command_for(ps.last()),
        ]
    }
}

/// Full decorations, then floating, for each floating window in order.
pub open spec fn floating_commands(ids: Seq<String>) -> Seq<CompositorCommand>
    decreases ids.len(),
{
    if ids.len() == 0 {
        Seq::empty()
    } else {
        floating_commands(ids.drop_last()) + seq![
            CompositorCommand::SetDecoration {
                toplevel_id: ids.last(),
                decoration: DecorationState::Full,
            },
            CompositorCommand::Unsnap { toplevel_id: ids.last() },
        ]
    }
}

/// The commands that bring the compositor to a workspace plan: every planned window is
/// fully decorated and placed, then every floating window is fully decorated and floated.
pub fn reconcile_workspace_commands(plan: &WorkspacePlan) -> (r: Vec<CompositorCommand>)
    ensures
        r@ == placement_commands(plan.placements@) + floating_commands(plan.floating@),
{
    let mut r: Vec<CompositorCommand> = Vec::new();
    let mut i: usize = 0;
    while i < plan.placements.len()
        invariant
            i <= plan.placements@.len(),
            r@ == placement_commands(plan.placements@.take(i as int)),
        decreases plan.placements@.len() - i,
    {
        let p = &plan.placements[i];
        assert(plan.placements@.take(i + 1).drop_last() =~= plan.placements@.take(i as int));
        assert(plan.placements@.take(i + 1).last() == plan.placements@[i as int]);
        let ghost before = r@;
        r.push(
            CompositorCommand::SetDecoration {
                toplevel_id: p.id.clone(),
                decoration: DecorationState::Full,
            },
        );
        let command = match &p.request {
            LayoutRequest::Maximize => CompositorCommand::Maximize { toplevel_id: p.id.clone() },
            LayoutRequest::Snap { region } => CompositorCommand::Snap {
                toplevel_id: p.id.clone(),
                region: region.clone(),
                rect: p.rect,
            },
        };
        r.push(command);
        assert(r@ =~= before + seq![
            CompositorCommand::SetDecoration {
                toplevel_id: p.id,
                decoration: DecorationState::Full,
            },
            command_for(*p),
        ]);
        i += 1;
    }
    assert(plan.placements@.take(plan.placements@.len() as int) =~= plan.placements@);
    let ghost placed = r@;
    let mut j: usize = 0;
    while j < plan.floating.len()
        invariant
            j <= plan.floating@.len(),
            placed == placement_commands(plan.placements@),
            r@ == placed + floating_commands(plan.floating@.take(j as int)),
        decreases plan.floating@.len() - j,
    {
        let id = &plan.floating[j];
        assert(plan.floating@.take(j + 1).drop_last() =~= plan.floating@.take(j as int));
        assert(plan.floating@.take(j + 1).last() == plan.floating@[j as int]);
        let ghost before = r@;
        r.push(
            CompositorCommand::SetDecoration {
                toplevel_id: id.clone(),
                decoration: DecorationState::Full,
            },
        );
        r.push(CompositorCommand::Unsnap { toplevel_id: id.clone() });
        assert(r@ =~= before + seq![
            CompositorCommand::SetDecoration { toplevel_id: *id, decoration: DecorationState::Full },
            CompositorCommand::Unsnap { toplevel_id: *id },
        ]);
        j += 1;
    }
    assert(plan.floating@.take(plan.floating@.len() as int) =~= plan.floating@);
    r
}

} // verus!
