//! Decision logic of the narrow XWayland/EWMH adapter.
//!
//! The caller runs `wmctrl`, `xprop` and `xwininfo` and hands their output
//! here: this module parses it, tracks the observed windows and their restore
//! geometry, and decides which `wmctrl` mutations each command needs.

use std::collections::VecDeque;

use vstd::prelude::*;

use crate::glob::occurs_at;
use crate::keyed::{find_key, key_index, keys_sorted, lemma_find_key, lemma_find_key_at, remove_key, store_key};
use crate::lines::{
    blank, char_views, contains_exec, contains_text, first_index, first_index_exec, is_blank,
    lines_exec, lines_of, split_on, split_on_exec, starts_with, starts_with_exec, trim, trim_exec,
    words, words_exec,
};
use crate::model::{views, CompositorCommand, Output, Rect, Toplevel, ToplevelEvent, ToplevelKind};
use crate::text::{
    chars_of, concat, concat3, decimal, decimal_string, parse_i32, parse_i64, parse_u32,
    parsed_i32, parsed_i64, parsed_u32, string_of,
};
use crate::labwc::same_toplevel_exec;
use crate::config::{layoutd_state_path, state_path};
use crate::labwc::command_target;
use crate::runtime::text_of;
use crate::text::lex_lt;
use crate::workspace::copy_toplevel;

verus! {

/// An XWayland adapter failure and its description.
#[derive(Debug)]
pub struct AdapterError {
    message: String,
}

impl View for AdapterError {
    type V = Seq<char>;

    closed spec fn view(&self) -> Seq<char> {
        self.message@
    }
}

impl AdapterError {
    pub fn new(message: String) -> (e: Self)
        ensures
            e@ == message@,
    {
        AdapterError { message }
    }

    /// The human-readable description.
    pub fn message(&self) -> (m: String)
        ensures
            m@ == self@,
    {
        self.message.clone()
    }
}

/// The first line that begins with `prefix`.
pub open spec fn first_with_prefix(lines: Seq<Seq<char>>, prefix: Seq<char>) -> Option<Seq<char>>
    decreases lines.len(),
{
    if lines.len() == 0 {
        None
    } else if starts_with(lines[0], prefix) {
        Some(lines[0])
    } else {
        first_with_prefix(lines.drop_first(), prefix)
    }
}

/// The text between the double quotes of a trimmed `"…"` value.
pub open spec fn quoted(v: Seq<char>) -> Option<Seq<char>> {
    let t = trim(v);
    if t.len() >= 2 && t[0] == '"' && t.last() == '"' {
        Some(t.subrange(1, t.len() - 1))
    } else {
        None
    }
}

/// The quoted values among `parts`, in order.
pub open spec fn quoted_values(parts: Seq<Seq<char>>) -> Seq<Seq<char>>
    decreases parts.len(),
{
    if parts.len() == 0 {
        Seq::empty()
    } else {
        match quoted(parts.last()) {
            Some(q) => quoted_values(parts.drop_last()).push(q),
            None => quoted_values(parts.drop_last()),
        }
    }
}

/// The application id `WM_CLASS` gives: `instance.class` from its first two quoted
/// values, the single value when there is one.
pub open spec fn wm_class(properties: Seq<char>) -> Option<Seq<char>> {
    match first_with_prefix(lines_of(properties), "WM_CLASS"@) {
        None => None,
        Some(line) => match first_index(line, '=') {
            None => None,
            Some(k) => {
                let q = quoted_values(split_on(line.skip(k + 1), ','));
                if q.len() >= 2 {
                    Some(q[0] + "."@ + q[1])
                } else if q.len() == 1 {
                    Some(q[0])
                } else {
                    None
                }
            },
        },
    }
}

/// The toplevel kind `_NET_WM_WINDOW_TYPE` names.
pub open spec fn window_kind(properties: Seq<char>) -> ToplevelKind {
    let line = match first_with_prefix(lines_of(properties), "_NET_WM_WINDOW_TYPE"@) {
        Some(l) => l,
        None => Seq::empty(),
    };
    if contains_text(line, "_NET_WM_WINDOW_TYPE_DIALOG"@) {
        ToplevelKind::Dialog
    } else if contains_text(line, "_NET_WM_WINDOW_TYPE_UTILITY"@) {
        ToplevelKind::Utility
    } else if contains_text(line, "_NET_WM_WINDOW_TYPE_DESKTOP"@) {
        ToplevelKind::Desktop
    } else if contains_text(line, "_NET_WM_WINDOW_TYPE_NORMAL"@) {
        ToplevelKind::Normal
    } else {
        ToplevelKind::Other
    }
}

/// `w` without trailing commas.
pub open spec fn without_trailing_commas(w: Seq<char>) -> Seq<char>
    decreases w.len(),
{
    if w.len() > 0 && w.last() == ',' {
        without_trailing_commas(w.drop_last())
    } else {
        w
    }
}

/// The first word naming a window (`0x…`, but not `0x0`).
pub open spec fn first_window_word(ws: Seq<Seq<char>>) -> Option<Seq<char>>
    decreases ws.len(),
{
    if ws.len() == 0 {
        None
    } else if starts_with(ws[0], "0x"@) && ws[0] != "0x0"@ {
        Some(ws[0])
    } else {
        first_window_word(ws.drop_first())
    }
}

/// The parent window `WM_TRANSIENT_FOR` names.
pub open spec fn transient_for(properties: Seq<char>) -> Option<Seq<char>> {
    match first_with_prefix(lines_of(properties), "WM_TRANSIENT_FOR"@) {
        None => None,
        Some(line) => if contains_text(line, "not found"@) {
            None
        } else {
            match first_window_word(words(line)) {
                Some(w) => Some(without_trailing_commas(w)),
                None => None,
            }
        },
    }
}

/// Both maximized states are set.
pub open spec fn maximized_in(properties: Seq<char>) -> bool {
    contains_text(properties, "_NET_WM_STATE_MAXIMIZED_VERT"@) && contains_text(
        properties,
        "_NET_WM_STATE_MAXIMIZED_HORZ"@,
    )
}

fn first_with_prefix_exec(lines: &Vec<Vec<char>>, prefix: &str) -> (r: Option<usize>)
    ensures
        match r {
            Some(i) => i < lines@.len() && first_with_prefix(char_views(lines@), prefix@) == Some(
                lines@[i as int]@,
            ),
            None => first_with_prefix(char_views(lines@), prefix@) is None,
        },
{
    let p = chars_of(prefix);
    let ghost all = char_views(lines@);
    let mut i: usize = 0;
    assert(all.skip(0) =~= all);
    while i < lines.len()
        invariant
            all == char_views(lines@),
            p@ == prefix@,
            i <= lines@.len(),
            first_with_prefix(all, prefix@) == first_with_prefix(all.skip(i as int), prefix@),
        decreases lines@.len() - i,
    {
        assert(all.skip(i as int)[0] == lines@[i as int]@);
        if starts_with_exec(&lines[i], &p) {
            return Some(i);
        }
        assert(all.skip(i as int).drop_first() =~= all.skip(i + 1));
        i += 1;
    }
    assert(all.skip(i as int) =~= Seq::<Seq<char>>::empty());
    None
}

fn quoted_exec(v: &Vec<char>) -> (r: Option<Vec<char>>)
    ensures
        match r {
            Some(q) => quoted(v@) == Some(q@),
            None => quoted(v@) is None,
        },
{
    let t = trim_exec(v);
    let n = t.len();
    if n >= 2 && t[0] == '"' && t[n - 1] == '"' {
        let mut q: Vec<char> = Vec::new();
        let mut i: usize = 1;
        while i < n - 1
            invariant
                n == t@.len(),
                n >= 2,
                1 <= i <= n - 1,
                q@ == t@.subrange(1, i as int),
            decreases n - 1 - i,
        {
            q.push(t[i]);
            assert(t@.subrange(1, i + 1) =~= t@.subrange(1, i as int).push(t@[i as int]));
            i += 1;
        }
        Some(q)
    } else {
        None
    }
}

/// `WM_CLASS` parsing: the application id of an X11 window.
pub fn parse_wm_class(properties: &str) -> (r: Option<String>)
    ensures
        match r {
            Some(c) => wm_class(properties@) == Some(c@),
            None => wm_class(properties@) is None,
        },
{
    let text = chars_of(properties);
    let all = lines_exec(&text);
    let line = match first_with_prefix_exec(&all, "WM_CLASS") {
        None => {
            return None;
        },
        Some(i) => &all[i],
    };
    let k = match first_index_exec(line, '=') {
        None => {
            return None;
        },
        Some(k) => k,
    };
    let n = line.len();
    let mut values: Vec<char> = Vec::new();
    let mut i = k + 1;
    while i < line.len()
        invariant
            k < line@.len(),
            k + 1 <= i <= line@.len(),
            values@ == line@.subrange(k + 1, i as int),
        decreases line@.len() - i,
    {
        values.push(line[i]);
        assert(line@.subrange(k + 1, i + 1) =~= line@.subrange(k + 1, i as int).push(
            line@[i as int],
        ));
        i += 1;
    }
    assert(values@ =~= line@.skip(k + 1));
    let parts = split_on_exec(&values, ',');
    let mut q: Vec<Vec<char>> = Vec::new();
    let mut j: usize = 0;
    while j < parts.len()
        invariant
            j <= parts@.len(),
            char_views(q@) == quoted_values(char_views(parts@).take(j as int)),
        decreases parts@.len() - j,
    {
        assert(char_views(parts@).take(j + 1).drop_last() =~= char_views(parts@).take(j as int));
        assert(char_views(parts@).take(j + 1).last() == parts@[j as int]@);
        match quoted_exec(&parts[j]) {
            Some(v) => {
                let ghost before = q@;
                q.push(v);
                assert(char_views(q@) =~= char_views(before).push(q@.last()@));
            },
            None => {},
        }
        j += 1;
    }
    assert(char_views(parts@).take(parts@.len() as int) =~= char_views(parts@));
    if q.len() >= 2 {
        let first = string_of(q[0].as_slice());
        let second = string_of(q[1].as_slice());
        Some(concat3(first.as_str(), ".", second.as_str()))
    } else if q.len() == 1 {
        Some(string_of(q[0].as_slice()))
    } else {
        None
    }
}

/// `_NET_WM_WINDOW_TYPE` parsing: the toplevel kind of an X11 window.
pub fn parse_window_kind(properties: &str) -> (r: ToplevelKind)
    ensures
        r == window_kind(properties@),
{
    let text = chars_of(properties);
    let all = lines_exec(&text);
    let line = match first_with_prefix_exec(&all, "_NET_WM_WINDOW_TYPE") {
        Some(i) => chars_of(string_of(all[i].as_slice()).as_str()),
        None => Vec::new(),
    };
    if contains_exec(&line, &chars_of("_NET_WM_WINDOW_TYPE_DIALOG")) {
        ToplevelKind::Dialog
    } else if contains_exec(&line, &chars_of("_NET_WM_WINDOW_TYPE_UTILITY")) {
        ToplevelKind::Utility
    } else if contains_exec(&line, &chars_of("_NET_WM_WINDOW_TYPE_DESKTOP")) {
        ToplevelKind::Desktop
    } else if contains_exec(&line, &chars_of("_NET_WM_WINDOW_TYPE_NORMAL")) {
        ToplevelKind::Normal
    } else {
        ToplevelKind::Other
    }
}

/// `WM_TRANSIENT_FOR` parsing: the parent of an X11 window.
pub fn parse_transient(properties: &str) -> (r: Option<String>)
    ensures
        match r {
            Some(p) => transient_for(properties@) == Some(p@),
            None => transient_for(properties@) is None,
        },
{
    let text = chars_of(properties);
    let all = lines_exec(&text);
    let line = match first_with_prefix_exec(&all, "WM_TRANSIENT_FOR") {
        None => {
            return None;
        },
        Some(i) => &all[i],
    };
    if contains_exec(line, &chars_of("not found")) {
        return None;
    }
    let ws = words_exec(line);
    let prefix = chars_of("0x");
    let zero = chars_of("0x0");
    let ghost all_words = char_views(ws@);
    let mut i: usize = 0;
    assert(all_words.skip(0) =~= all_words);
    while i < ws.len()
        invariant
            all_words == char_views(ws@),
            all_words == words(line@),
            first_with_prefix(lines_of(properties@), "WM_TRANSIENT_FOR"@) == Some(line@),
            !contains_text(line@, "not found"@),
            prefix@ == "0x"@,
            zero@ == "0x0"@,
            i <= ws@.len(),
            first_window_word(all_words) == first_window_word(all_words.skip(i as int)),
        decreases ws@.len() - i,
    {
        assert(all_words.skip(i as int)[0] == ws@[i as int]@);
        let w = &ws[i];
        if starts_with_exec(w, &prefix) && string_of(w.as_slice()) != string_of(zero.as_slice()) {
            let mut end = w.len();
            assert(w@.take(end as int) =~= w@);
            while end > 0 && w[end - 1] == ','
                invariant
                    end <= w@.len(),
                    without_trailing_commas(w@) == without_trailing_commas(w@.take(end as int)),
                decreases end,
            {
                assert(w@.take(end as int).drop_last() =~= w@.take(end - 1));
                end -= 1;
            }
            let kept = string_of(w.as_slice().split_at(end).0);
            assert(kept@ =~= w@.take(end as int));
            assert(without_trailing_commas(w@.take(end as int)) == w@.take(end as int));
            assert(first_window_word(all_words.skip(i as int)) == Some(w@));
            assert(transient_for(properties@) == Some(without_trailing_commas(w@)));
            return Some(kept);
        }
        assert(all_words.skip(i as int).drop_first() =~= all_words.skip(i + 1));
        i += 1;
    }
    assert(all_words.skip(i as int) =~= Seq::<Seq<char>>::empty());
    None
}

} // verus!

verus! {

/// The first line whose trimmed text starts with `name` followed by a number that
/// parses as `u32`, and that number.
pub open spec fn root_dimension(lines: Seq<Seq<char>>, name: Seq<char>) -> Option<u32>
    decreases lines.len(),
{
    if lines.len() == 0 {
        None
    } else {
        let t = trim(lines[0]);
        if starts_with(t, name) && parsed_u32(trim(t.skip(name.len() as int))) is Some {
            parsed_u32(trim(t.skip(name.len() as int)))
        } else {
            root_dimension(lines.drop_first(), name)
        }
    }
}

/// The output `xwininfo -root` reports: its width and height, both positive.
pub open spec fn root_output(raw: Seq<char>) -> Option<Output> {
    match (root_dimension(lines_of(raw), "Width:"@), root_dimension(lines_of(raw), "Height:"@)) {
        (Some(w), Some(h)) => if w > 0 && h > 0 {
            Some(Output { width: w, height: h })
        } else {
            None
        },
        _ => None,
    }
}

/// The lines that are not blank.
pub open spec fn nonblank_lines(ls: Seq<Seq<char>>) -> Seq<Seq<char>>
    decreases ls.len(),
{
    if ls.len() == 0 {
        ls
    } else if blank(ls.last()) {
        nonblank_lines(ls.drop_last())
    } else {
        nonblank_lines(ls.drop_last()).push(ls.last())
    }
}

/// Words joined by single spaces.
pub open spec fn joined(ws: Seq<Seq<char>>) -> Seq<char>
    decreases ws.len(),
{
    if ws.len() == 0 {
        Seq::empty()
    } else if ws.len() == 1 {
        ws[0]
    } else {
        joined(ws.drop_last()) + " "@ + ws.last()
    }
}

/// The fields of a `wmctrl -lpGx` row all parse: id, desktop, pid, x, y, width,
/// height, host and class, then the title.
pub open spec fn row_parses(ws: Seq<Seq<char>>) -> bool {
    &&& ws.len() >= 9
    &&& parsed_i32(ws[1]) is Some
    &&& parsed_u32(ws[2]) is Some
    &&& parsed_i64(ws[3]) is Some
    &&& parsed_i64(ws[4]) is Some
    &&& parsed_u32(ws[5]) is Some
    &&& parsed_u32(ws[6]) is Some
}

/// The row's window lies at a non-negative position and has area.
pub open spec fn row_supported(ws: Seq<Seq<char>>) -> bool {
    parsed_i64(ws[3])->0 >= 0 && parsed_i64(ws[4])->0 >= 0 && parsed_u32(ws[5])->0 > 0 && parsed_u32(
        ws[6],
    )->0 > 0
}

pub open spec fn malformed_message() -> Seq<char> {
    "wmctrl returned a malformed nonempty inventory row; refusing partial observation"@
}

pub open spec fn unsupported_message() -> Seq<char> {
    "wmctrl reported unsupported window geometry; refusing partial observation"@
}

/// One window row of the `wmctrl` inventory.
#[derive(Clone, Debug, PartialEq, Eq)]
pub struct InventoryRow {
    pub id: String,
    pub x: i64,
    pub y: i64,
    pub width: u32,
    pub height: u32,
    pub class: String,
    pub title: String,
}

/// What the adapter knows of one X11 window.
#[derive(Clone, Debug, PartialEq, Eq)]
pub struct WindowSnapshot {
    pub toplevel: Toplevel,
    pub rect: Rect,
    pub maximized: bool,
}

fn copy_snapshot(s: &WindowSnapshot) -> (r: WindowSnapshot)
    ensures
        r == *s,
{
    WindowSnapshot { toplevel: copy_toplevel(&s.toplevel), rect: s.rect, maximized: s.maximized }
}

fn root_dimension_exec(lines: &Vec<Vec<char>>, name: &str) -> (r: Option<u32>)
    ensures
        r == root_dimension(char_views(lines@), name@),
{
    let n = chars_of(name);
    let ghost all = char_views(lines@);
    let mut i: usize = 0;
    assert(all.skip(0) =~= all);
    while i < lines.len()
        invariant
            all == char_views(lines@),
            n@ == name@,
            i <= lines@.len(),
            root_dimension(all, name@) == root_dimension(all.skip(i as int), name@),
        decreases lines@.len() - i,
    {
        assert(all.skip(i as int)[0] == lines@[i as int]@);
        let t = trim_exec(&lines[i]);
        if starts_with_exec(&t, &n) {
            let mut rest: Vec<char> = Vec::new();
            let mut k = n.len();
            while k < t.len()
                invariant
                    n@.len() <= k <= t@.len(),
                    rest@ == t@.subrange(n@.len() as int, k as int),
                decreases t@.len() - k,
            {
                rest.push(t[k]);
                assert(t@.subrange(n@.len() as int, k + 1) =~= t@.subrange(
                    n@.len() as int,
                    k as int,
                ).push(t@[k as int]));
                k += 1;
            }
            assert(rest@ =~= t@.skip(n@.len() as int));
            let value = trim_exec(&rest);
            match parse_u32(string_of(value.as_slice()).as_str()) {
                Some(v) => {
                    return Some(v);
                },
                None => {},
            }
        }
        assert(all.skip(i as int).drop_first() =~= all.skip(i + 1));
        i += 1;
    }
    assert(all.skip(i as int) =~= Seq::<Seq<char>>::empty());
    None
}

/// The lines of a `wmctrl -lpGx` inventory that are not blank, in order.
pub fn inventory_lines(raw: &str) -> (r: Vec<String>)
    ensures
        views(r@) == nonblank_lines(lines_of(raw@)),
{
    let text = chars_of(raw);
    let all = lines_exec(&text);
    let mut r: Vec<String> = Vec::new();
    let mut i: usize = 0;
    while i < all.len()
        invariant
            i <= all@.len(),
            char_views(all@) == lines_of(raw@),
            views(r@) == nonblank_lines(char_views(all@).take(i as int)),
        decreases all@.len() - i,
    {
        assert(char_views(all@).take(i + 1).drop_last() =~= char_views(all@).take(i as int));
        assert(char_views(all@).take(i + 1).last() == all@[i as int]@);
        if !is_blank(&all[i]) {
            let ghost before = r@;
            r.push(string_of(all[i].as_slice()));
            assert(views(r@) =~= views(before).push(all@[i as int]@));
        }
        i += 1;
    }
    assert(char_views(all@).take(all@.len() as int) =~= char_views(all@));
    r
}

/// Parses one nonblank `wmctrl -lpGx` row, refusing a malformed row or a window
/// without a supported geometry.
pub fn parse_inventory_row(line: &str) -> (r: Result<InventoryRow, AdapterError>)
    ensures
        ({
            let ws = words(line@);
            if !row_parses(ws) {
                r matches Err(e) && e@ == malformed_message()
            } else if !row_supported(ws) {
                r matches Err(e) && e@ == unsupported_message()
            } else {
                r matches Ok(row) && {
                    &&& row.id@ == ws[0]
                    &&& row.x == parsed_i64(ws[3])->0
                    &&& row.y == parsed_i64(ws[4])->0
                    &&& row.width == parsed_u32(ws[5])->0
                    &&& row.height == parsed_u32(ws[6])->0
                    &&& row.class@ == ws[8]
                    &&& row.title@ == joined(ws.skip(9))
                }
            }
        }),
{
    let text = chars_of(line);
    let fields = words_exec(&text);
    let ghost ws = char_views(fields@);
    let malformed = "wmctrl returned a malformed nonempty inventory row; refusing partial observation";
    if fields.len() < 9 {
        return Err(AdapterError::new(malformed.to_owned()));
    }
    let id = string_of(fields[0].as_slice());
    let desktop = parse_i32(string_of(fields[1].as_slice()).as_str());
    let pid = parse_u32(string_of(fields[2].as_slice()).as_str());
    let x = parse_i64(string_of(fields[3].as_slice()).as_str());
    let y = parse_i64(string_of(fields[4].as_slice()).as_str());
    let width = parse_u32(string_of(fields[5].as_slice()).as_str());
    let height = parse_u32(string_of(fields[6].as_slice()).as_str());
    let class = string_of(fields[8].as_slice());
    let (x, y, width, height) = match (desktop, pid, x, y, width, height) {
        (Some(_), Some(_), Some(x), Some(y), Some(w), Some(h)) => (x, y, w, h),
        _ => {
            return Err(AdapterError::new(malformed.to_owned()));
        },
    };
    if x < 0 || y < 0 || width == 0 || height == 0 {
        return Err(
            AdapterError::new(
                "wmctrl reported unsupported window geometry; refusing partial observation".to_owned(),
            ),
        );
    }
    let mut title = String::new();
    let mut k: usize = 9;
    assert(ws.skip(9).take(0) =~= Seq::<Seq<char>>::empty());
    while k < fields.len()
        invariant
            9 <= k <= fields@.len(),
            ws == char_views(fields@),
            title@ == joined(ws.skip(9).take(k - 9)),
        decreases fields@.len() - k,
    {
        let ghost rest = ws.skip(9).take(k + 1 - 9);
        assert(rest.drop_last() =~= ws.skip(9).take(k - 9));
        assert(rest.last() == fields@[k as int]@);
        let word = string_of(fields[k].as_slice());
        if k == 9 {
            title = word;
        } else {
            let joined_so_far = concat3(title.as_str(), " ", word.as_str());
            title = joined_so_far;
        }
        k += 1;
    }
    assert(ws.skip(9).take(k - 9) =~= ws.skip(9));
    Ok(InventoryRow { id, x, y, width, height, class, title })
}

/// The snapshot of a window from its inventory row and its `xprop` properties: the
/// application id from `WM_CLASS` (else the `wmctrl` class), kind, parent, geometry
/// and maximized state.
pub fn snapshot_of(row: &InventoryRow, properties: &str) -> (r: WindowSnapshot)
    ensures
        r.toplevel.id@ == row.id@,
        r.toplevel.app_id@ == match wm_class(properties@) {
            Some(c) => c,
            None => row.class@,
        },
        r.toplevel.title@ == row.title@,
        r.toplevel.kind == window_kind(properties@),
        match r.toplevel.parent_id {
            Some(p) => transient_for(properties@) == Some(p@),
            None => transient_for(properties@) is None,
        },
        r.rect == (Rect {
            x: row.x as u32,
            y: row.y as u32,
            width: row.width,
            height: row.height,
        }),
        r.maximized == maximized_in(properties@),
{
    let app_id = match parse_wm_class(properties) {
        Some(c) => c,
        None => row.class.clone(),
    };
    let text = chars_of(properties);
    let maximized = contains_exec(&text, &chars_of("_NET_WM_STATE_MAXIMIZED_VERT")) && contains_exec(
        &text,
        &chars_of("_NET_WM_STATE_MAXIMIZED_HORZ"),
    );
    WindowSnapshot {
        toplevel: Toplevel {
            id: row.id.clone(),
            app_id,
            title: row.title.clone(),
            kind: parse_window_kind(properties),
            parent_id: parse_transient(properties),
        },
        rect: Rect {
            x: row.x as u32,
            y: row.y as u32,
            width: row.width,
            height: row.height,
        },
        maximized,
    }
}

/// Whether a failed spawn is retried: only "text file busy", for the first three attempts.
pub fn retry_spawn(error_code: Option<i32>, attempt: u32) -> (r: bool)
    ensures
        r == (error_code == Some(26i32) && attempt < 3),
{
    match error_code {
        Some(code) => code == 26 && attempt < 3,
        None => false,
    }
}

/// The judgment of one finished command: its standard output, or an error.  A
/// missing EWMH client list is an empty `wmctrl -lpGx` inventory.
pub fn command_outcome(
    command: &str,
    args: &Vec<String>,
    success: bool,
    stdout: Result<String, String>,
    stderr: &str,
) -> (r: Result<String, AdapterError>)
    ensures
        ({
            let empty_list = views(args@) == seq!["-lpGx"@] && contains_text(
                stderr@,
                "Cannot get client list properties."@,
            ) && contains_text(stderr@, "_NET_CLIENT_LIST or _WIN_CLIENT_LIST"@);
            if !success {
                if empty_list {
                    r matches Ok(out) && out@.len() == 0
                } else {
                    r matches Err(e) && e@ == command@ + " "@ + joined(views(args@)) + " failed: "@
                        + trim(stderr@)
                }
            } else {
                match stdout {
                    Ok(out) => r matches Ok(o) && o@ == out@,
                    Err(message) => r matches Err(e) && e@ == command@
                        + " returned non-UTF-8 output: "@ + message@,
                }
            }
        }),
{
    if !success {
        let err = chars_of(stderr);
        let is_list = args.len() == 1 && args[0] == "-lpGx".to_owned();
        proof {
            if is_list {
                assert(views(args@) =~= seq!["-lpGx"@]);
            }
            if views(args@) == seq!["-lpGx"@] {
                assert(views(args@)[0] == args@[0]@);
            }
        }
        if is_list && contains_exec(&err, &chars_of("Cannot get client list properties."))
            && contains_exec(&err, &chars_of("_NET_CLIENT_LIST or _WIN_CLIENT_LIST")) {
            return Ok(String::new());
        }
        let mut all_args = String::new();
        let mut i: usize = 0;
        while i < args.len()
            invariant
                i <= args@.len(),
                all_args@ == joined(views(args@).take(i as int)),
            decreases args@.len() - i,
        {
            assert(views(args@).take(i + 1).drop_last() =~= views(args@).take(i as int));
            assert(views(args@).take(i + 1).last() == args@[i as int]@);
            if i == 0 {
                all_args = args[0].clone();
            } else {
                all_args = concat3(all_args.as_str(), " ", args[i].as_str());
            }
            i += 1;
        }
        assert(views(args@).take(args@.len() as int) =~= views(args@));
        let head = concat3(command, " ", all_args.as_str());
        let trimmed = string_of(trim_exec(&err).as_slice());
        return Err(AdapterError::new(concat3(head.as_str(), " failed: ", trimmed.as_str())));
    }
    match stdout {
        Ok(out) => Ok(out),
        Err(message) => Err(
            AdapterError::new(concat3(command, " returned non-UTF-8 output: ", message.as_str())),
        ),
    }
}

} // verus!

verus! {

/// `wmctrl` arguments that maximize a window.
pub open spec fn maximize_args(id: Seq<char>) -> Seq<Seq<char>> {
    seq!["-ir"@, id, "-b"@, "add,maximized_vert,maximized_horz"@]
}

/// `wmctrl` arguments that leave the maximized state.
pub open spec fn unmaximize_args(id: Seq<char>) -> Seq<Seq<char>> {
    seq!["-ir"@, id, "-b"@, "remove,maximized_vert,maximized_horz"@]
}

/// `wmctrl` arguments that move and resize a window with north-west gravity.
pub open spec fn geometry_args(id: Seq<char>, r: Rect) -> Seq<Seq<char>> {
    seq![
        "-ir"@,
        id,
        "-e"@,
        "1,"@ + decimal(r.x as nat) + ","@ + decimal(r.y as nat) + ","@ + decimal(r.width as nat)
            + ","@ + decimal(r.height as nat),
    ]
}

/// The toplevel id a command addresses.
pub open spec fn command_id(command: CompositorCommand) -> Seq<char> {
    crate::labwc::target_of(command)
}

/// The restore rectangle of the addressed window after a command is prepared: a
/// maximize or snap of a window that is not maximized records its geometry unless
/// one is already recorded.
pub open spec fn entry_after_prepare(
    entry: Option<Rect>,
    snap: WindowSnapshot,
    command: CompositorCommand,
) -> Option<Rect> {
    match command {
        CompositorCommand::Maximize { .. } | CompositorCommand::Snap { .. } => if !snap.maximized
            && entry is None {
            Some(snap.rect)
        } else {
            entry
        },
        _ => entry,
    }
}

/// The mutation that runs first: maximize a window that is not maximized, or leave
/// the maximized state before floating or snapping.
pub open spec fn first_args(snap: WindowSnapshot, command: CompositorCommand) -> Option<
    Seq<Seq<char>>,
> {
    match command {
        CompositorCommand::Maximize { toplevel_id } => if !snap.maximized {
            Some(maximize_args(toplevel_id@))
        } else {
            None
        },
        CompositorCommand::Unmaximize { toplevel_id } | CompositorCommand::Unsnap { toplevel_id }
        | CompositorCommand::Snap { toplevel_id, .. } => if snap.maximized {
            Some(unmaximize_args(toplevel_id@))
        } else {
            None
        },
        _ => None,
    }
}

/// A window left the maximized state without a recorded restore rectangle: its
/// restored geometry has to be observed.
pub open spec fn needs_capture(
    entry: Option<Rect>,
    snap: WindowSnapshot,
    command: CompositorCommand,
) -> bool {
    match command {
        CompositorCommand::Unmaximize { .. } | CompositorCommand::Unsnap { .. }
        | CompositorCommand::Snap { .. } => snap.maximized && entry is None,
        _ => false,
    }
}

/// The mutation that completes a command: restore the recorded geometry when floating,
/// or place a snapped window, unless it is already there and not maximized.
pub open spec fn finish_args(
    entry: Option<Rect>,
    rect: Rect,
    maximized: bool,
    command: CompositorCommand,
) -> Option<Seq<Seq<char>>> {
    match command {
        CompositorCommand::Unmaximize { toplevel_id } | CompositorCommand::Unsnap {
            toplevel_id,
        } => match entry {
            Some(r) => if rect != r || maximized {
                Some(geometry_args(toplevel_id@, r))
            } else {
                None
            },
            None => None,
        },
        CompositorCommand::Snap { toplevel_id, rect: target, .. } => if rect != target || maximized {
            Some(geometry_args(toplevel_id@, target))
        } else {
            None
        },
        _ => None,
    }
}

/// Floating a window forgets its restore rectangle.
pub open spec fn entry_after_finish(entry: Option<Rect>, command: CompositorCommand) -> Option<
    Rect,
> {
    match command {
        CompositorCommand::Unmaximize { .. } | CompositorCommand::Unsnap { .. } => None,
        _ => entry,
    }
}

/// The table of snapshots keyed by window id, a later snapshot of an id replacing
/// an earlier one.
pub open spec fn last_snapshot(snaps: Seq<WindowSnapshot>, id: Seq<char>) -> Option<WindowSnapshot>
    decreases snaps.len(),
{
    if snaps.len() == 0 {
        None
    } else if snaps.last().toplevel.id@ == id {
        Some(snaps.last())
    } else {
        last_snapshot(snaps.drop_last(), id)
    }
}

/// The table of toplevels of a snapshot table, in its key order.
pub open spec fn toplevels_of(t: Seq<(String, WindowSnapshot)>) -> Seq<(String, Toplevel)> {
    t.map_values(|e: (String, WindowSnapshot)| (e.0, e.1.toplevel))
}

/// The toplevel of the table entry is new or changed since `known`.
pub open spec fn toplevel_changed(known: Seq<(String, Toplevel)>, e: (String, WindowSnapshot)) -> bool {
    match find_key(known, e.0@) {
        Some(t) => !crate::labwc::same_toplevel(t, e.1.toplevel),
        None => true,
    }
}

/// One `Upsert` per new or changed window of `current`, in id order.
pub open spec fn window_upserts(
    current: Seq<(String, WindowSnapshot)>,
    known: Seq<(String, Toplevel)>,
) -> Seq<ToplevelEvent>
    decreases current.len(),
{
    if current.len() == 0 {
        Seq::empty()
    } else if toplevel_changed(known, current.last()) {
        window_upserts(current.drop_last(), known).push(
            ToplevelEvent::Upsert(current.last().1.toplevel),
        )
    } else {
        window_upserts(current.drop_last(), known)
    }
}

/// One `Remove` per known window that `current` no longer has, in id order.
pub open spec fn window_removals(
    known: Seq<(String, Toplevel)>,
    current: Seq<(String, WindowSnapshot)>,
) -> Seq<ToplevelEvent>
    decreases known.len(),
{
    if known.len() == 0 {
        Seq::empty()
    } else if find_key(current, known.last().0@) is None {
        window_removals(known.drop_last(), current).push(
            ToplevelEvent::Remove { id: known.last().0 },
        )
    } else {
        window_removals(known.drop_last(), current)
    }
}

/// `t` is the table of the observed windows: in key order, each id holding the last
/// snapshot observed under it.
pub open spec fn tabulates(t: Seq<(String, WindowSnapshot)>, observed: Seq<WindowSnapshot>) -> bool {
    &&& keys_sorted(t)
    &&& forall|id: Seq<char>| #![trigger find_key(t, id)] find_key(t, id) == last_snapshot(observed, id)
}

/// The snapshot table of the observed windows.
pub fn snapshot_table(snaps: Vec<WindowSnapshot>) -> (r: Vec<(String, WindowSnapshot)>)
    ensures
        tabulates(r@, snaps@),
{
    let mut table: Vec<(String, WindowSnapshot)> = Vec::new();
    let mut i: usize = 0;
    while i < snaps.len()
        invariant
            i <= snaps@.len(),
            keys_sorted(table@),
            forall|id: Seq<char>|
                #![trigger find_key(table@, id)]
                find_key(table@, id) == last_snapshot(snaps@.take(i as int), id),
        decreases snaps@.len() - i,
    {
        let s = copy_snapshot(&snaps[i]);
        let key = s.toplevel.id.clone();
        let ghost before = table@;
        store_key(&mut table, key, s);
        let ghost seen = snaps@.take(i + 1);
        assert(seen.drop_last() =~= snaps@.take(i as int));
        assert(seen.last() == snaps@[i as int]);
        assert forall|id: Seq<char>| #[trigger] find_key(table@, id) == last_snapshot(seen, id) by {
            assert(find_key(table@, id) == find_key(table@, id));
        }
        i += 1;
    }
    assert(snaps@.take(snaps@.len() as int) =~= snaps@);
    table
}

/// The XWayland adapter: the tools it runs and what it last observed.
pub struct XwaylandEwmhAdapter {
    wmctrl: String,
    xprop: String,
    xwininfo: String,
    known: Vec<(String, Toplevel)>,
    snapshots: Vec<(String, WindowSnapshot)>,
    restore_rects: Vec<(String, Rect)>,
    pending: VecDeque<ToplevelEvent>,
}

impl XwaylandEwmhAdapter {
    pub closed spec fn wmctrl_path(&self) -> Seq<char> {
        self.wmctrl@
    }

    pub closed spec fn xprop_path(&self) -> Seq<char> {
        self.xprop@
    }

    pub closed spec fn xwininfo_path(&self) -> Seq<char> {
        self.xwininfo@
    }

    /// The toplevels of the last observation, by id.
    pub closed spec fn known(&self) -> Seq<(String, Toplevel)> {
        self.known@
    }

    /// The current snapshots, by id.
    pub closed spec fn snapshots(&self) -> Seq<(String, WindowSnapshot)> {
        self.snapshots@
    }

    /// The geometry each managed window had before management, by id.
    pub closed spec fn restore(&self) -> Seq<(String, Rect)> {
        self.restore_rects@
    }

    /// Events observed and not yet handed out.
    pub closed spec fn pending(&self) -> Seq<ToplevelEvent> {
        self.pending@
    }

    /// The tables are kept in key order.
    pub closed spec fn well_formed(&self) -> bool {
        keys_sorted(self.known@) && keys_sorted(self.snapshots@) && keys_sorted(
            self.restore_rects@,
        )
    }

    pub fn new() -> (r: Self)
        ensures
            r.well_formed(),
            r.wmctrl_path() == "wmctrl"@,
            r.xprop_path() == "xprop"@,
            r.xwininfo_path() == "xwininfo"@,
            r.known().len() == 0,
            r.snapshots().len() == 0,
            r.restore().len() == 0,
            r.pending().len() == 0,
    {
        let mut adapter = Self::with_commands("wmctrl".to_owned(), "xprop".to_owned());
        adapter.xwininfo = "xwininfo".to_owned();
        adapter
    }

    /// An adapter running the given `wmctrl` and `xprop`; `xwininfo` is looked up
    /// through the `wmctrl` path as well.
    pub fn with_commands(wmctrl: String, xprop: String) -> (r: Self)
        ensures
            r.well_formed(),
            r.wmctrl_path() == wmctrl@,
            r.xprop_path() == xprop@,
            r.xwininfo_path() == wmctrl@,
            r.known().len() == 0,
            r.snapshots().len() == 0,
            r.restore().len() == 0,
            r.pending().len() == 0,
    {
        XwaylandEwmhAdapter {
            xwininfo: wmctrl.clone(),
            wmctrl,
            xprop,
            known: Vec::new(),
            snapshots: Vec::new(),
            restore_rects: Vec::new(),
            pending: VecDeque::new(),
        }
    }

    pub fn wmctrl(&self) -> (r: &String)
        ensures
            r@ == self.wmctrl_path(),
    {
        &self.wmctrl
    }

    pub fn xprop(&self) -> (r: &String)
        ensures
            r@ == self.xprop_path(),
    {
        &self.xprop
    }

    pub fn xwininfo(&self) -> (r: &String)
        ensures
            r@ == self.xwininfo_path(),
    {
        &self.xwininfo
    }

    /// The output from `xwininfo -root`: the root window's positive width and height.
    pub fn output(&self, root: &str) -> (r: Result<Output, AdapterError>)
        ensures
            match root_output(root@) {
                Some(o) => r == Ok::<Output, AdapterError>(o),
                None => r matches Err(e) && e@
                    == "xwininfo did not report a positive X root geometry"@,
            },
    {
        let text = chars_of(root);
        let all = lines_exec(&text);
        match (root_dimension_exec(&all, "Width:"), root_dimension_exec(&all, "Height:")) {
            (Some(width), Some(height)) => {
                if width > 0 && height > 0 {
                    return Ok(Output { width, height });
                }
            },
            _ => {},
        }
        Err(AdapterError::new("xwininfo did not report a positive X root geometry".to_owned()))
    }

    pub fn has_pending(&self) -> (b: bool)
        ensures
            b == (self.pending().len() > 0),
    {
        self.pending.len() > 0
    }

    /// Hands out the oldest pending event.
    pub fn next_event(&mut self) -> (r: Option<ToplevelEvent>)
        ensures
            final(self).known() == old(self).known(),
            final(self).snapshots() == old(self).snapshots(),
            final(self).restore() == old(self).restore(),
            final(self).wmctrl_path() == old(self).wmctrl_path(),
            final(self).xprop_path() == old(self).xprop_path(),
            final(self).xwininfo_path() == old(self).xwininfo_path(),
            final(self).well_formed() == old(self).well_formed(),
            old(self).pending().len() == 0 ==> r is None && final(self).pending().len() == 0,
            old(self).pending().len() > 0 ==> r == Some(old(self).pending()[0])
                && final(self).pending() == old(self).pending().drop_first(),
    {
        let r = self.pending.pop_front();
        proof {
            if old(self).pending().len() > 0 {
                assert(self.pending@ =~= old(self).pending().drop_first());
            }
        }
        r
    }

    /// Takes in the windows observed just before commands apply as the current snapshots.
    pub fn set_snapshots(&mut self, observed: Vec<WindowSnapshot>)
        requires
            old(self).well_formed(),
        ensures
            final(self).well_formed(),
            tabulates(final(self).snapshots(), observed@),
            final(self).known() == old(self).known(),
            final(self).restore() == old(self).restore(),
            final(self).pending() == old(self).pending(),
            final(self).wmctrl_path() == old(self).wmctrl_path(),
            final(self).xprop_path() == old(self).xprop_path(),
            final(self).xwininfo_path() == old(self).xwininfo_path(),
    {
        self.snapshots = snapshot_table(observed);
    }
}

} // verus!

verus! {

impl XwaylandEwmhAdapter {
    /// Takes in the observed windows: queues an `Upsert` for each new or changed window
    /// and a `Remove` for each vanished one, forgets the restore geometry of vanished
    /// windows, and records the observation as the current snapshots.
    pub fn refresh(&mut self, observed: Vec<WindowSnapshot>)
        requires
            old(self).well_formed(),
        ensures
            final(self).well_formed(),
            tabulates(final(self).snapshots(), observed@),
            final(self).known() == toplevels_of(final(self).snapshots()),
            final(self).pending() == old(self).pending() + window_upserts(
                final(self).snapshots(),
                old(self).known(),
            ) + window_removals(old(self).known(), final(self).snapshots()),
            forall|key: Seq<char>|
                #![trigger find_key(final(self).restore(), key)]
                find_key(final(self).restore(), key) == if find_key(old(self).known(), key) is Some
                    && last_snapshot(observed@, key) is None {
                    None
                } else {
                    find_key(old(self).restore(), key)
                },
            final(self).wmctrl_path() == old(self).wmctrl_path(),
            final(self).xprop_path() == old(self).xprop_path(),
            final(self).xwininfo_path() == old(self).xwininfo_path(),
    {
        let current = snapshot_table(observed);
        let ghost table = current@;
        self.refresh_table(current);
        assert forall|key: Seq<char>| #[trigger] find_key(table, key) == last_snapshot(observed@, key) by {}
    }

    fn refresh_table(&mut self, current: Vec<(String, WindowSnapshot)>)
        requires
            old(self).well_formed(),
            keys_sorted(current@),
        ensures
            final(self).well_formed(),
            final(self).known() == toplevels_of(current@),
            final(self).snapshots() == current@,
            final(self).pending() == old(self).pending() + window_upserts(current@, old(self).known())
                + window_removals(old(self).known(), current@),
            forall|key: Seq<char>|
                #![trigger find_key(final(self).restore(), key)]
                find_key(final(self).restore(), key) == if find_key(old(self).known(), key) is Some
                    && find_key(current@, key) is None {
                    None
                } else {
                    find_key(old(self).restore(), key)
                },
            final(self).wmctrl_path() == old(self).wmctrl_path(),
            final(self).xprop_path() == old(self).xprop_path(),
            final(self).xwininfo_path() == old(self).xwininfo_path(),
    {
        let ghost queued = self.pending@;
        let mut i: usize = 0;
        while i < current.len()
            invariant
                i <= current@.len(),
                self.known@ == old(self).known@,
                self.restore_rects@ == old(self).restore_rects@,
                self.wmctrl@ == old(self).wmctrl@,
                self.xprop@ == old(self).xprop@,
                self.xwininfo@ == old(self).xwininfo@,
                self.pending@ == queued + window_upserts(current@.take(i as int), self.known@),
            decreases current@.len() - i,
        {
            let entry = &current[i];
            assert(current@.take(i + 1).drop_last() =~= current@.take(i as int));
            assert(current@.take(i + 1).last() == current@[i as int]);
            let is_changed = match key_index(&self.known, &entry.0) {
                Some(k) => !same_toplevel_exec(&self.known[k].1, &entry.1.toplevel),
                None => true,
            };
            if is_changed {
                self.pending.push_back(ToplevelEvent::Upsert(copy_toplevel(&entry.1.toplevel)));
            }
            i += 1;
        }
        assert(current@.take(current@.len() as int) =~= current@);
        let ghost with_upserts = self.pending@;
        let ghost old_restore = self.restore_rects@;
        let mut j: usize = 0;
        while j < self.known.len()
            invariant
                j <= self.known@.len(),
                self.known@ == old(self).known@,
                keys_sorted(self.restore_rects@),
                self.wmctrl@ == old(self).wmctrl@,
                self.xprop@ == old(self).xprop@,
                self.xwininfo@ == old(self).xwininfo@,
                with_upserts == queued + window_upserts(current@, self.known@),
                self.pending@ == with_upserts + window_removals(self.known@.take(j as int), current@),
                forall|key: Seq<char>|
                    #![trigger find_key(self.restore_rects@, key)]
                    find_key(self.restore_rects@, key) == if find_key(
                        self.known@.take(j as int),
                        key,
                    ) is Some && find_key(current@, key) is None {
                        None
                    } else {
                        find_key(old_restore, key)
                    },
            decreases self.known@.len() - j,
        {
            let ghost seen = self.known@.take(j + 1);
            assert(seen.drop_last() =~= self.known@.take(j as int));
            assert(seen.last() == self.known@[j as int]);
            if key_index(&current, &self.known[j].0).is_none() {
                let id = self.known[j].0.clone();
                self.pending.push_back(ToplevelEvent::Remove { id: id.clone() });
                let ghost before = self.restore_rects@;
                remove_key(&mut self.restore_rects, &id);
                assert forall|key: Seq<char>| #[trigger] find_key(self.restore_rects@, key)
                    == if find_key(seen, key) is Some && find_key(current@, key) is None {
                    None
                } else {
                    find_key(old_restore, key)
                } by {
                    assert(find_key(before, key) == find_key(before, key));
                }
            } else {
                assert forall|key: Seq<char>| #[trigger] find_key(self.restore_rects@, key)
                    == if find_key(seen, key) is Some && find_key(current@, key) is None {
                    None
                } else {
                    find_key(old_restore, key)
                } by {
                    assert(find_key(self.restore_rects@, key) == find_key(self.restore_rects@, key));
                }
            }
            j += 1;
        }
        assert(self.known@.take(self.known@.len() as int) =~= self.known@);
        let mut known: Vec<(String, Toplevel)> = Vec::new();
        let mut k: usize = 0;
        while k < current.len()
            invariant
                k <= current@.len(),
                known@ == toplevels_of(current@).take(k as int),
            decreases current@.len() - k,
        {
            known.push((current[k].0.clone(), copy_toplevel(&current[k].1.toplevel)));
            assert(toplevels_of(current@).take(k + 1) =~= toplevels_of(current@).take(k as int).push(
                (current@[k as int].0, current@[k as int].1.toplevel),
            ));
            k += 1;
        }
        assert(toplevels_of(current@).take(current@.len() as int) =~= toplevels_of(current@));
        assert(keys_sorted(known@)) by {
            assert forall|a: int, b: int| 0 <= a < b < known@.len() implies lex_lt(
                #[trigger] known@[a].0@,
                #[trigger] known@[b].0@,
            ) by {
                assert(known@[a].0 == current@[a].0 && known@[b].0 == current@[b].0);
            }
        }
        self.known = known;
        self.snapshots = current;
    }
}

} // verus!

verus! {

/// A command whose window was found: its snapshot geometry and maximized state when
/// it was prepared, the `wmctrl` mutation to run first, and whether the restored
/// geometry has to be observed before the command completes.
#[derive(Debug)]
pub struct PreparedCommand {
    pub rect: Rect,
    pub maximized: bool,
    pub first: Option<Vec<String>>,
    pub capture: bool,
}

/// The characters of each argument, when there are arguments.
pub open spec fn args_view(a: Option<Vec<String>>) -> Option<Seq<Seq<char>>> {
    match a {
        Some(v) => Some(views(v@)),
        None => None,
    }
}

pub open spec fn unavailable_message(id: Seq<char>) -> Seq<char> {
    "X11 toplevel "@ + id + " is unavailable or unsupported; refusing to guess a replacement"@
}

pub open spec fn decoration_message() -> Seq<char> {
    "dynamic decoration mutation is not available through EWMH"@
}

pub open spec fn disappeared_message(id: Seq<char>) -> Seq<char> {
    "X11 toplevel "@ + id + " disappeared while unmaximizing"@
}

pub open spec fn still_maximized_message(id: Seq<char>) -> Seq<char> {
    "X11 toplevel "@ + id + " did not leave maximized state"@
}

fn state_args(id: &String, verb: &str) -> (r: Vec<String>)
    ensures
        views(r@) == seq!["-ir"@, id@, "-b"@, verb@],
{
    let r = vec!["-ir".to_owned(), id.clone(), "-b".to_owned(), verb.to_owned()];
    assert(views(r@) =~= seq!["-ir"@, id@, "-b"@, verb@]);
    r
}

fn geometry_args_exec(id: &String, rect: Rect) -> (r: Vec<String>)
    ensures
        views(r@) == geometry_args(id@, rect),
{
    let x = decimal_string(rect.x as u64);
    let y = decimal_string(rect.y as u64);
    let w = decimal_string(rect.width as u64);
    let h = decimal_string(rect.height as u64);
    let g1 = concat("1,", x.as_str());
    let g2 = concat3(g1.as_str(), ",", y.as_str());
    let g3 = concat3(g2.as_str(), ",", w.as_str());
    let g = concat3(g3.as_str(), ",", h.as_str());
    let r = vec!["-ir".to_owned(), id.clone(), "-e".to_owned(), g];
    assert(views(r@) =~= geometry_args(id@, rect));
    r
}

impl XwaylandEwmhAdapter {
    /// Prepares one command against the current snapshots: records the geometry a
    /// maximize or snap starts from, and says what to run.  Decoration changes are
    /// refused, releasing a window needs nothing, and a window that is not in the
    /// snapshots is refused rather than guessed.
    pub fn prepare_command(&mut self, command: &CompositorCommand) -> (r: Result<
        Option<PreparedCommand>,
        AdapterError,
    >)
        requires
            old(self).well_formed(),
        ensures
            final(self).well_formed(),
            final(self).known() == old(self).known(),
            final(self).snapshots() == old(self).snapshots(),
            final(self).pending() == old(self).pending(),
            final(self).wmctrl_path() == old(self).wmctrl_path(),
            final(self).xprop_path() == old(self).xprop_path(),
            final(self).xwininfo_path() == old(self).xwininfo_path(),
            ({
                let id = command_id(*command);
                match *command {
                    CompositorCommand::SetDecoration { .. } => r matches Err(e) && e@
                        == decoration_message() && final(self).restore() == old(self).restore(),
                    CompositorCommand::Unmanage { .. } => r matches Ok(None) && final(self).restore()
                        == old(self).restore(),
                    _ => match find_key(old(self).snapshots(), id) {
                        None => r matches Err(e) && e@ == unavailable_message(id)
                            && final(self).restore() == old(self).restore(),
                        Some(snap) => {
                            let entry = entry_after_prepare(
                                find_key(old(self).restore(), id),
                                snap,
                                *command,
                            );
                            &&& r matches Ok(Some(p)) && {
                                &&& p.rect == snap.rect
                                &&& p.maximized == snap.maximized
                                &&& args_view(p.first) == first_args(snap, *command)
                                &&& p.capture == needs_capture(entry, snap, *command)
                            }
                            &&& forall|key: Seq<char>|
                                #![trigger find_key(final(self).restore(), key)]
                                find_key(final(self).restore(), key) == if key == id {
                                    entry
                                } else {
                                    find_key(old(self).restore(), key)
                                }
                        },
                    },
                }
            }),
    {
        match command {
            CompositorCommand::SetDecoration { .. } => {
                return Err(
                    AdapterError::new(
                        "dynamic decoration mutation is not available through EWMH".to_owned(),
                    ),
                );
            },
            CompositorCommand::Unmanage { .. } => {
                return Ok(None);
            },
            _ => {},
        }
        let id = command_target(command);
        let snap = match key_index(&self.snapshots, id) {
            None => {
                let head = concat("X11 toplevel ", id.as_str());
                return Err(
                    AdapterError::new(
                        concat(
                            head.as_str(),
                            " is unavailable or unsupported; refusing to guess a replacement",
                        ),
                    ),
                );
            },
            Some(k) => copy_snapshot(&self.snapshots[k].1),
        };
        let ghost before = self.restore_rects@;
        let recorded = key_index(&self.restore_rects, id).is_some();
        let records = match command {
            CompositorCommand::Maximize { .. } | CompositorCommand::Snap { .. } => !snap.maximized
                && !recorded,
            _ => false,
        };
        if records {
            store_key(&mut self.restore_rects, id.clone(), snap.rect);
        }
        let ghost entry = entry_after_prepare(find_key(before, id@), snap, *command);
        assert forall|key: Seq<char>| #[trigger] find_key(self.restore_rects@, key) == if key
            == id@ {
            entry
        } else {
            find_key(before, key)
        } by {
            assert(find_key(self.restore_rects@, key) == find_key(self.restore_rects@, key));
        }
        let first = match command {
            CompositorCommand::Maximize { .. } => if !snap.maximized {
                Some(state_args(id, "add,maximized_vert,maximized_horz"))
            } else {
                None
            },
            _ => if snap.maximized {
                Some(state_args(id, "remove,maximized_vert,maximized_horz"))
            } else {
                None
            },
        };
        let capture = match command {
            CompositorCommand::Maximize { .. } => false,
            _ => snap.maximized && !recorded,
        };
        Ok(Some(PreparedCommand { rect: snap.rect, maximized: snap.maximized, first, capture }))
    }

    /// One look at the window being unmaximized, in a freshly observed snapshot table.
    /// Once it has left the maximized state its geometry becomes its restore geometry
    /// and the table the current snapshots (`Ok(true)`); while it is still maximized the
    /// caller waits and looks again (`Ok(false)`), up to the tenth look.
    pub fn capture_attempt(
        &mut self,
        id: &String,
        observed: Vec<WindowSnapshot>,
        attempt: u32,
    ) -> (r: Result<bool, AdapterError>)
        requires
            old(self).well_formed(),
        ensures
            final(self).well_formed(),
            final(self).known() == old(self).known(),
            final(self).pending() == old(self).pending(),
            final(self).wmctrl_path() == old(self).wmctrl_path(),
            final(self).xprop_path() == old(self).xprop_path(),
            final(self).xwininfo_path() == old(self).xwininfo_path(),
            match last_snapshot(observed@, id@) {
                None => {
                    &&& r matches Err(e) && e@ == disappeared_message(id@)
                    &&& final(self).snapshots() == old(self).snapshots()
                    &&& final(self).restore() == old(self).restore()
                },
                Some(s) => if !s.maximized {
                    &&& r matches Ok(b) && b
                    &&& tabulates(final(self).snapshots(), observed@)
                    &&& forall|key: Seq<char>|
                        #![trigger find_key(final(self).restore(), key)]
                        find_key(final(self).restore(), key) == if key == id@ {
                            Some(s.rect)
                        } else {
                            find_key(old(self).restore(), key)
                        }
                } else if attempt >= 9 {
                    &&& r matches Err(e) && e@ == still_maximized_message(id@)
                    &&& final(self).snapshots() == old(self).snapshots()
                    &&& final(self).restore() == old(self).restore()
                } else {
                    &&& r matches Ok(b) && !b
                    &&& final(self).snapshots() == old(self).snapshots()
                    &&& final(self).restore() == old(self).restore()
                },
            },
    {
        let current = snapshot_table(observed);
        let (rect, maximized) = match key_index(&current, id) {
            None => {
                let head = concat("X11 toplevel ", id.as_str());
                return Err(
                    AdapterError::new(concat(head.as_str(), " disappeared while unmaximizing")),
                );
            },
            Some(k) => (current[k].1.rect, current[k].1.maximized),
        };
        if !maximized {
            store_key(&mut self.restore_rects, id.clone(), rect);
            self.snapshots = current;
            return Ok(true);
        }
        if attempt >= 9 {
            let head = concat("X11 toplevel ", id.as_str());
            return Err(AdapterError::new(concat(head.as_str(), " did not leave maximized state")));
        }
        Ok(false)
    }

    /// Completes a prepared command: the geometry mutation it still needs, if any.
    /// Floating a window moves it back to its restore geometry and forgets that.
    pub fn finish_command(&mut self, command: &CompositorCommand, prepared: &PreparedCommand) -> (r:
        Option<Vec<String>>)
        requires
            old(self).well_formed(),
        ensures
            final(self).well_formed(),
            final(self).known() == old(self).known(),
            final(self).snapshots() == old(self).snapshots(),
            final(self).pending() == old(self).pending(),
            final(self).wmctrl_path() == old(self).wmctrl_path(),
            final(self).xprop_path() == old(self).xprop_path(),
            final(self).xwininfo_path() == old(self).xwininfo_path(),
            args_view(r) == finish_args(
                find_key(old(self).restore(), command_id(*command)),
                prepared.rect,
                prepared.maximized,
                *command,
            ),
            forall|key: Seq<char>|
                #![trigger find_key(final(self).restore(), key)]
                find_key(final(self).restore(), key) == if key == command_id(*command) {
                    entry_after_finish(find_key(old(self).restore(), key), *command)
                } else {
                    find_key(old(self).restore(), key)
                },
    {
        let id = command_target(command);
        let moved = |a: Rect, b: Rect| -> (m: bool)
            ensures
                m == (a != b),
            { a.x != b.x || a.y != b.y || a.width != b.width || a.height != b.height };
        match command {
            CompositorCommand::Unmaximize { .. } | CompositorCommand::Unsnap { .. } => {
                match key_index(&self.restore_rects, id) {
                    None => None,
                    Some(k) => {
                        let rect = self.restore_rects[k].1;
                        let args = if moved(prepared.rect, rect) || prepared.maximized {
                            Some(geometry_args_exec(id, rect))
                        } else {
                            None
                        };
                        remove_key(&mut self.restore_rects, id);
                        args
                    },
                }
            },
            CompositorCommand::Snap { rect, .. } => {
                if moved(prepared.rect, *rect) || prepared.maximized {
                    Some(geometry_args_exec(id, *rect))
                } else {
                    None
                }
            },
            _ => None,
        }
    }
}

} // verus!

verus! {

/// The restore entry of a window after a run of prepared and finished commands, each
/// against the snapshot it was prepared from.
pub open spec fn entry_through(
    entry: Option<Rect>,
    steps: Seq<(WindowSnapshot, CompositorCommand)>,
) -> Option<Rect>
    decreases steps.len(),
{
    if steps.len() == 0 {
        entry
    } else {
        let (snap, command) = steps.last();
        entry_after_finish(entry_after_prepare(entry_through(entry, steps.drop_last()), snap, command), command)
    }
}

/// A command that manages a window: maximize or snap.
pub open spec fn manages(command: CompositorCommand) -> bool {
    command is Maximize || command is Snap
}

/// A command that floats a window: unmaximize or unsnap.
pub open spec fn floats(command: CompositorCommand) -> bool {
    command is Unmaximize || command is Unsnap
}

/// Floating restores the geometry a window had before management: the first maximize
/// or snap of a window that is not maximized records its geometry, any further
/// maximizes and snaps keep that record, and the unmaximize or unsnap that follows
/// moves the window back to it (unless it is already there and not maximized),
/// needs no observation of the restored geometry, and forgets the record.
pub proof fn lemma_float_restores_first_geometry(
    first: WindowSnapshot,
    manage: CompositorCommand,
    later: Seq<(WindowSnapshot, CompositorCommand)>,
    last: WindowSnapshot,
    float: CompositorCommand,
)
    requires
        !first.maximized,
        manages(manage),
        forall|i: int| 0 <= i < later.len() ==> manages(#[trigger] later[i].1),
        floats(float),
    ensures
        ({
            let recorded = entry_through(None, seq![(first, manage)] + later);
            &&& recorded == Some(first.rect)
            &&& !needs_capture(entry_after_prepare(recorded, last, float), last, float)
            &&& finish_args(recorded, last.rect, last.maximized, float) == if last.rect != first.rect
                || last.maximized {
                Some(geometry_args(command_id(float), first.rect))
            } else {
                None
            }
            &&& entry_after_finish(entry_after_prepare(recorded, last, float), float) is None
        }),
    decreases later.len(),
{
    let steps = seq![(first, manage)] + later;
    if later.len() == 0 {
        assert(steps.drop_last() =~= Seq::<(WindowSnapshot, CompositorCommand)>::empty());
        assert(steps.last() == (first, manage));
        assert(entry_through(None, steps.drop_last()) is None);
        assert(entry_after_prepare(None, first, manage) == Some(first.rect));
    } else {
        let shorter = later.drop_last();
        assert forall|i: int| 0 <= i < shorter.len() implies manages(#[trigger] shorter[i].1) by {
            assert(shorter[i] == later[i]);
        }
        lemma_float_restores_first_geometry(first, manage, shorter, last, float);
        assert(steps.drop_last() =~= seq![(first, manage)] + shorter);
        assert(manages(later[later.len() - 1].1));
        assert(steps.last() == later[later.len() - 1]);
    }
}

} // verus!

verus! {

/// The state path the XWayland runtime writes, the one the shell's status reads.
pub fn runtime_state_path(state_override: Option<String>, runtime_dir: Option<String>) -> (r:
    Option<String>)
    ensures
        text_of(r) == state_path(text_of(state_override), text_of(runtime_dir)),
{
    layoutd_state_path(state_override, runtime_dir)
}

} // verus!

verus! {

proof fn lemma_no_window_upserts(current: Seq<(String, WindowSnapshot)>, known: Seq<(String, Toplevel)>)
    requires
        forall|k: int| 0 <= k < current.len() ==> !toplevel_changed(known, #[trigger] current[k]),
    ensures
        window_upserts(current, known) == Seq::<ToplevelEvent>::empty(),
    decreases current.len(),
{
    if current.len() > 0 {
        assert(!toplevel_changed(known, current[current.len() - 1]));
        assert forall|k: int| 0 <= k < current.drop_last().len() implies !toplevel_changed(
            known,
            #[trigger] current.drop_last()[k],
        ) by {
            assert(current.drop_last()[k] == current[k]);
        }
        lemma_no_window_upserts(current.drop_last(), known);
    }
}

proof fn lemma_no_window_removals(known: Seq<(String, Toplevel)>, current: Seq<(String, WindowSnapshot)>)
    requires
        forall|k: int| 0 <= k < known.len() ==> find_key(current, #[trigger] known[k].0@) is Some,
    ensures
        window_removals(known, current) == Seq::<ToplevelEvent>::empty(),
    decreases known.len(),
{
    if known.len() > 0 {
        assert(find_key(current, known[known.len() - 1].0@) is Some);
        assert forall|k: int| 0 <= k < known.drop_last().len() implies find_key(
            current,
            #[trigger] known.drop_last()[k].0@,
        ) is Some by {
            assert(known.drop_last()[k] == known[k]);
        }
        lemma_no_window_removals(known.drop_last(), current);
    }
}

/// Observing the same X11 windows again yields no events: once a snapshot table is
/// the known one, refreshing with it queues neither upserts nor removals.
pub proof fn lemma_repeated_window_observation_is_quiet(current: Seq<(String, WindowSnapshot)>)
    requires
        keys_sorted(current),
    ensures
        window_upserts(current, toplevels_of(current)) + window_removals(
            toplevels_of(current),
            current,
        ) == Seq::<ToplevelEvent>::empty(),
{
    let known = toplevels_of(current);
    assert(keys_sorted(known)) by {
        assert forall|i: int, j: int| 0 <= i < j < known.len() implies lex_lt(
            #[trigger] known[i].0@,
            #[trigger] known[j].0@,
        ) by {
            assert(known[i].0 == current[i].0 && known[j].0 == current[j].0);
        }
    }
    assert forall|k: int| 0 <= k < current.len() implies !toplevel_changed(
        known,
        #[trigger] current[k],
    ) by {
        lemma_find_key_at(known, k);
        assert(known[k] == (current[k].0, current[k].1.toplevel));
    }
    lemma_no_window_upserts(current, known);
    assert forall|k: int| 0 <= k < known.len() implies find_key(current, #[trigger] known[k].0@)
        is Some by {
        lemma_find_key_at(current, k);
        assert(known[k].0 == current[k].0);
    }
    lemma_no_window_removals(known, current);
    assert(window_upserts(current, known) + window_removals(known, current) =~= Seq::<
        ToplevelEvent,
    >::empty());
}

/// Placement is idempotent: snapping a window that is not maximized and already has
/// the target geometry, or maximizing a maximized window, issues no mutation and
/// needs no observation.
pub proof fn lemma_settled_window_needs_no_mutation(
    entry: Option<Rect>,
    snap: WindowSnapshot,
    command: CompositorCommand,
)
    requires
        match command {
            CompositorCommand::Snap { rect, .. } => !snap.maximized && snap.rect == rect,
            CompositorCommand::Maximize { .. } => snap.maximized,
            _ => false,
        },
    ensures
        first_args(snap, command) is None,
        !needs_capture(entry_after_prepare(entry, snap, command), snap, command),
        finish_args(
            entry_after_prepare(entry, snap, command),
            snap.rect,
            snap.maximized,
            command,
        ) is None,
{
}

} // verus!

verus! {

/// Maximizes and snaps keep a recorded restore geometry.
pub proof fn lemma_managing_keeps_the_record(
    recorded: Rect,
    steps: Seq<(WindowSnapshot, CompositorCommand)>,
)
    requires
        forall|i: int| 0 <= i < steps.len() ==> manages(#[trigger] steps[i].1),
    ensures
        entry_through(Some(recorded), steps) == Some(recorded),
    decreases steps.len(),
{
    if steps.len() > 0 {
        let shorter = steps.drop_last();
        assert forall|i: int| 0 <= i < shorter.len() implies manages(#[trigger] shorter[i].1) by {
            assert(shorter[i] == steps[i]);
        }
        lemma_managing_keeps_the_record(recorded, shorter);
        assert(manages(steps[steps.len() - 1].1));
    }
}

/// A window first managed while maximized: the snap leaves it without a record and
/// asks for its restored geometry to be observed; once that geometry is captured,
/// further maximizes and snaps keep it, and the unmaximize or unsnap that follows moves
/// the window back to it (unless it is already there and not maximized) and forgets it.
pub proof fn lemma_float_restores_captured_geometry(
    first: WindowSnapshot,
    snap: CompositorCommand,
    captured: Rect,
    later: Seq<(WindowSnapshot, CompositorCommand)>,
    last: WindowSnapshot,
    float: CompositorCommand,
)
    requires
        first.maximized,
        snap is Snap,
        forall|i: int| 0 <= i < later.len() ==> manages(#[trigger] later[i].1),
        floats(float),
    ensures
        entry_after_prepare(None, first, snap) is None,
        first_args(first, snap) is Some,
        needs_capture(None, first, snap),
        ({
            let recorded = entry_through(entry_after_finish(Some(captured), snap), later);
            &&& recorded == Some(captured)
            &&& !needs_capture(entry_after_prepare(recorded, last, float), last, float)
            &&& finish_args(recorded, last.rect, last.maximized, float) == if last.rect != captured
                || last.maximized {
                Some(geometry_args(command_id(float), captured))
            } else {
                None
            }
            &&& entry_after_finish(entry_after_prepare(recorded, last, float), float) is None
        }),
{
    lemma_managing_keeps_the_record(captured, later);
}

} // verus!

verus! {

/// The toplevel kind follows the window's `_NET_WM_WINDOW_TYPE` line: a dialog type
/// makes a dialog; otherwise a utility type a utility, then a desktop type a desktop,
/// then a normal type a normal window; anything else, or no such line, is `Other`.
pub proof fn lemma_window_type_names_its_kind(properties: Seq<char>)
    ensures
        ({
            let line = first_with_prefix(lines_of(properties), "_NET_WM_WINDOW_TYPE"@);
            let names = |atom: Seq<char>| line matches Some(l) && contains_text(l, atom);
            let dialog = names("_NET_WM_WINDOW_TYPE_DIALOG"@);
            let utility = names("_NET_WM_WINDOW_TYPE_UTILITY"@);
            let desktop = names("_NET_WM_WINDOW_TYPE_DESKTOP"@);
            let normal = names("_NET_WM_WINDOW_TYPE_NORMAL"@);
            &&& dialog ==> window_kind(properties) == ToplevelKind::Dialog
            &&& !dialog && utility ==> window_kind(properties) == ToplevelKind::Utility
            &&& !dialog && !utility && desktop ==> window_kind(properties) == ToplevelKind::Desktop
            &&& !dialog && !utility && !desktop && normal ==> window_kind(properties)
                == ToplevelKind::Normal
            &&& !dialog && !utility && !desktop && !normal ==> window_kind(properties)
                == ToplevelKind::Other
        }),
{
    let line = first_with_prefix(lines_of(properties), "_NET_WM_WINDOW_TYPE"@);
    if line is None {
        reveal_strlit("_NET_WM_WINDOW_TYPE_DIALOG");
        reveal_strlit("_NET_WM_WINDOW_TYPE_UTILITY");
        reveal_strlit("_NET_WM_WINDOW_TYPE_DESKTOP");
        reveal_strlit("_NET_WM_WINDOW_TYPE_NORMAL");
        assert(!contains_text(Seq::<char>::empty(), "_NET_WM_WINDOW_TYPE_DIALOG"@));
        assert(!contains_text(Seq::<char>::empty(), "_NET_WM_WINDOW_TYPE_UTILITY"@));
        assert(!contains_text(Seq::<char>::empty(), "_NET_WM_WINDOW_TYPE_DESKTOP"@));
        assert(!contains_text(Seq::<char>::empty(), "_NET_WM_WINDOW_TYPE_NORMAL"@));
    }
}

} // verus!
