//! Application state: which pane has focus, the cached pane rectangles, and
//! the decisions taken on each user action. The shells behind the panes are
//! driven by the caller, which carries out the returned commands.

use std::collections::HashMap;

use vstd::prelude::*;
use vstd::std_specs::iter::IteratorSpec;

use vstd::string::StringExecFns;
use vstd::utf8::encode_utf8;

use crate::input::{input_step, is_press, key_label_seq, key_labels, InputAction, InputState, KeyCode, KeyEvent, KeyEventKind, ScrollAction};
use crate::keys::KeyTracker;
use crate::layout::{
    cycle_next, cycle_previous, distinct_panes, is_first_position, lemma_filter_distinct, lemma_first_position_exists, leaves_of, pane_numbers,
    rects_spec, remove_spec, split_spec, LayoutNode, PaneId, PaneLayout, SplitDirection,
};
use crate::rect::Rect;
use crate::pane::{paste_bytes, paste_chars, requested_offset};
use crate::text::{decimal, push_decimal, push_str};

verus! {

broadcast use vstd::std_specs::hash::group_hash_axioms;

/// A direction in which focus can move between panes.
#[derive(Debug, Clone, Copy, PartialEq, Eq, Structural)]
pub enum FocusDirection {
    Left,
    Down,
    Up,
    Right,
}

// ---------------------------------------------------------------------------
// Directional focus

/// `candidate` lies on the `direction` side of `current`, judged by their
/// edges (one cell of overlap tolerated).
pub open spec fn in_direction_spec(current: Rect, candidate: Rect, direction: FocusDirection) -> bool {
    match direction {
        FocusDirection::Left => candidate.right() <= current.x.saturating_add(1),
        FocusDirection::Right => candidate.x.saturating_add(1) >= current.right(),
        FocusDirection::Up => candidate.bottom() <= current.y.saturating_add(1),
        FocusDirection::Down => candidate.y.saturating_add(1) >= current.bottom(),
    }
}

/// How many rows (moving left or right) or columns (moving up or down) the
/// two rectangles share.
pub open spec fn axis_overlap_spec(current: Rect, candidate: Rect, direction: FocusDirection) -> u32 {
    match direction {
        FocusDirection::Left | FocusDirection::Right => {
            let top = if current.y >= candidate.y { current.y } else { candidate.y };
            let bottom = if current.bottom() <= candidate.bottom() {
                current.bottom()
            } else {
                candidate.bottom()
            };
            bottom.saturating_sub(top) as u32
        },
        FocusDirection::Up | FocusDirection::Down => {
            let left = if current.x >= candidate.x { current.x } else { candidate.x };
            let right = if current.right() <= candidate.right() {
                current.right()
            } else {
                candidate.right()
            };
            right.saturating_sub(left) as u32
        },
    }
}

/// The distance between the centres along the direction of travel.
pub open spec fn primary_distance_spec(current: Rect, candidate: Rect, direction: FocusDirection) -> u32 {
    let (a, b) = match direction {
        FocusDirection::Left | FocusDirection::Right => (
            current.x + current.width / 2,
            candidate.x + candidate.width / 2,
        ),
        FocusDirection::Up | FocusDirection::Down => (
            current.y + current.height / 2,
            candidate.y + candidate.height / 2,
        ),
    };
    if a >= b {
        (a - b) as u32
    } else {
        (b - a) as u32
    }
}

/// Candidate `a` ranks before `b`: shorter distance along the move, then
/// larger overlap across it.
pub open spec fn ranks_before(current: Rect, a: Rect, b: Rect, direction: FocusDirection) -> bool {
    let da = primary_distance_spec(current, a, direction);
    let db = primary_distance_spec(current, b, direction);
    ||| da < db
    ||| da == db && axis_overlap_spec(current, a, direction) > axis_overlap_spec(current, b, direction)
}

/// Pane `k` can take focus from `focused` moving in `direction`.
pub open spec fn is_neighbor_candidate(
    rects: Map<usize, Rect>,
    focused: PaneId,
    k: usize,
    direction: FocusDirection,
) -> bool {
    &&& rects.contains_key(focused.0)
    &&& rects.contains_key(k)
    &&& k != focused.0
    &&& in_direction_spec(rects[focused.0], rects[k], direction)
}

/// Some candidate shares rows (or columns) with the focused pane.
pub open spec fn has_overlapping_candidate(
    rects: Map<usize, Rect>,
    focused: PaneId,
    direction: FocusDirection,
) -> bool {
    exists|k: usize|
        is_neighbor_candidate(rects, focused, k, direction) && #[trigger] axis_overlap_spec(
            rects[focused.0],
            rects[k],
            direction,
        ) > 0
}

/// The candidates considered: those that overlap when there are any,
/// otherwise all of them.
pub open spec fn in_pool(
    rects: Map<usize, Rect>,
    focused: PaneId,
    k: usize,
    direction: FocusDirection,
) -> bool {
    &&& is_neighbor_candidate(rects, focused, k, direction)
    &&& has_overlapping_candidate(rects, focused, direction) ==> axis_overlap_spec(
        rects[focused.0],
        rects[k],
        direction,
    ) > 0
}

/// `k` is a best pane to move focus to: in the pool, and no pool member
/// ranks before it.
pub open spec fn is_best_neighbor(
    rects: Map<usize, Rect>,
    focused: PaneId,
    k: usize,
    direction: FocusDirection,
) -> bool {
    &&& in_pool(rects, focused, k, direction)
    &&& forall|j: usize| #[trigger]
        in_pool(rects, focused, j, direction) ==> !ranks_before(
            rects[focused.0],
            rects[j],
            rects[k],
            direction,
        )
}

fn in_direction(current: Rect, candidate: Rect, direction: FocusDirection) -> (r: bool)
    ensures
        r == in_direction_spec(current, candidate, direction),
{
    let cur_right = current.x.saturating_add(current.width);
    let cur_bottom = current.y.saturating_add(current.height);
    let cand_right = candidate.x.saturating_add(candidate.width);
    let cand_bottom = candidate.y.saturating_add(candidate.height);
    match direction {
        FocusDirection::Left => cand_right <= current.x.saturating_add(1),
        FocusDirection::Right => candidate.x.saturating_add(1) >= cur_right,
        FocusDirection::Up => cand_bottom <= current.y.saturating_add(1),
        FocusDirection::Down => candidate.y.saturating_add(1) >= cur_bottom,
    }
}

fn axis_overlap(current: Rect, candidate: Rect, direction: FocusDirection) -> (r: u32)
    ensures
        r == axis_overlap_spec(current, candidate, direction),
{
    match direction {
        FocusDirection::Left | FocusDirection::Right => {
            let top = if current.y >= candidate.y { current.y } else { candidate.y };
            let cur_bottom = current.y.saturating_add(current.height);
            let cand_bottom = candidate.y.saturating_add(candidate.height);
            let bottom = if cur_bottom <= cand_bottom { cur_bottom } else { cand_bottom };
            bottom.saturating_sub(top) as u32
        },
        FocusDirection::Up | FocusDirection::Down => {
            let left = if current.x >= candidate.x { current.x } else { candidate.x };
            let cur_right = current.x.saturating_add(current.width);
            let cand_right = candidate.x.saturating_add(candidate.width);
            let right = if cur_right <= cand_right { cur_right } else { cand_right };
            right.saturating_sub(left) as u32
        },
    }
}

fn primary_distance(current: Rect, candidate: Rect, direction: FocusDirection) -> (r: u32)
    ensures
        r == primary_distance_spec(current, candidate, direction),
{
    let cur_cx = current.x as i32 + current.width as i32 / 2;
    let cur_cy = current.y as i32 + current.height as i32 / 2;
    let cand_cx = candidate.x as i32 + candidate.width as i32 / 2;
    let cand_cy = candidate.y as i32 + candidate.height as i32 / 2;
    let (a, b) = match direction {
        FocusDirection::Left | FocusDirection::Right => (cur_cx, cand_cx),
        FocusDirection::Up | FocusDirection::Down => (cur_cy, cand_cy),
    };
    if a >= b {
        (a - b) as u32
    } else {
        (b - a) as u32
    }
}

/// Whether `a` ranks strictly before `b` (see `ranks_before`).
fn ranks_ahead(current: Rect, a: Rect, b: Rect, direction: FocusDirection) -> (r: bool)
    ensures
        r == ranks_before(current, a, b, direction),
{
    let da = primary_distance(current, a, direction);
    let db = primary_distance(current, b, direction);
    da < db || (da == db && axis_overlap(current, a, direction) > axis_overlap(
        current,
        b,
        direction,
    ))
}

/// Picks the pane to move focus to from `focused` in `direction`, among the
/// panes of `rects`: only panes lying on that side (judged by edges) count;
/// those sharing rows (or columns) with the focused pane are preferred when
/// there are any; then the shortest distance between centres along the
/// move wins, and among equals the largest overlap. Panes that tie
/// completely are told apart by the map's iteration order.
pub fn directional_neighbor(
    rects: &HashMap<usize, Rect>,
    focused: PaneId,
    direction: FocusDirection,
) -> (next: Option<PaneId>)
    ensures
        match next {
            None => forall|k: usize| !is_neighbor_candidate(rects@, focused, k, direction),
            Some(p) => is_best_neighbor(rects@, focused, p.0, direction) && forall|j: usize|
                #[trigger] in_pool(rects@, focused, j, direction) ==> centre_gap(
                    rects@[focused.0],
                    rects@[p.0],
                    direction,
                ) <= centre_gap(rects@[focused.0], rects@[j], direction),
        },
{
    let current = match rects.get(&focused.0) {
        Some(r) => *r,
        None => return None,
    };
    let ghost m = rects@;
    let mut best_any: Option<(usize, Rect)> = None;
    let mut best_overlap: Option<(usize, Rect)> = None;
    let ghost full = vstd::std_specs::hash::spec_hash_map_iter(rects).remaining();
    let ghost mut count: int = 0;
    for item in it: rects.iter()
        invariant
            m == rects@,
            it.seq() == full,
            count == it.index(),
            m.contains_key(focused.0),
            m[focused.0] == current,
            forall|i: int|
                0 <= i < it.seq().len() ==> m.contains_key(*(#[trigger] it.seq()[i]).0) && m[*it.seq()[i].0]
                    == *it.seq()[i].1,
            best_any matches Some((k, r)) ==> is_neighbor_candidate(m, focused, k, direction)
                && m[k] == r,
            best_overlap matches Some((k, r)) ==> is_neighbor_candidate(m, focused, k, direction)
                && m[k] == r && axis_overlap_spec(current, r, direction) > 0,
            forall|i: int|
                #![trigger it.seq()[i]]
                0 <= i < count && is_neighbor_candidate(m, focused, *it.seq()[i].0, direction)
                    ==> {
                    &&& best_any matches Some((k, r)) && !ranks_before(
                        current,
                        m[*it.seq()[i].0],
                        r,
                        direction,
                    )
                    &&& axis_overlap_spec(current, m[*it.seq()[i].0], direction) > 0 ==> (
                    best_overlap matches Some((k2, r2)) && !ranks_before(
                        current,
                        m[*it.seq()[i].0],
                        r2,
                        direction,
                    ))
                },
    {
        let (id, rect) = item;
        if *id != focused.0 && in_direction(current, *rect, direction) {
            let replace_any = match best_any {
                None => true,
                Some((_, r)) => ranks_ahead(current, *rect, r, direction),
            };
            if replace_any {
                best_any = Some((*id, *rect));
            }
            if axis_overlap(current, *rect, direction) > 0 {
                let replace_overlap = match best_overlap {
                    None => true,
                    Some((_, r)) => ranks_ahead(current, *rect, r, direction),
                };
                if replace_overlap {
                    best_overlap = Some((*id, *rect));
                }
            }
        }
        proof {
            count = count + 1;
        }
    }
    proof {
        assert forall|k: usize| #[trigger] is_neighbor_candidate(m, focused, k, direction) implies {
            &&& best_any matches Some((k1, r1)) && !ranks_before(current, m[k], r1, direction)
            &&& axis_overlap_spec(current, m[k], direction) > 0 ==> (best_overlap matches Some((k2, r2))
                && !ranks_before(current, m[k], r2, direction))
        } by {
            let v = full;
            assert(v.contains((&k, &m[k])));
            let i = choose|i: int| 0 <= i < v.len() && v[i] == (&k, &m[k]);
            assert(*v[i].0 == k);
        }
    }
    let next = match best_overlap {
        Some((k, _)) => Some(PaneId(k)),
        None => match best_any {
            Some((k, _)) => Some(PaneId(k)),
            None => None,
        },
    };
    proof {
        if let Some(p) = next {
            assert forall|j: usize| #[trigger] in_pool(m, focused, j, direction) implies centre_gap(
                m[focused.0],
                m[p.0],
                direction,
            ) <= centre_gap(m[focused.0], m[j], direction) by {
                law_neighbor_is_nearest(m, focused, p.0, j, direction);
            }
        }
    }
    next
}


// ---------------------------------------------------------------------------
// Application state

/// How long the main loop waits for input while panes are busy, in
/// milliseconds (about 60 frames a second).
pub const ACTIVE_POLL_INTERVAL_MS: u64 = 16;

/// How long the main loop waits for input while everything is quiet, in
/// milliseconds (about 30 frames a second).
pub const IDLE_POLL_INTERVAL_MS: u64 = 33;

/// How long to wait for input before the next frame: short after a frame
/// with input or pane output, longer otherwise.
pub fn poll_interval_ms(active: bool) -> (ms: u64)
    ensures
        ms == if active { ACTIVE_POLL_INTERVAL_MS } else { IDLE_POLL_INTERVAL_MS },
{
    if active {
        ACTIVE_POLL_INTERVAL_MS
    } else {
        IDLE_POLL_INTERVAL_MS
    }
}

/// One screen of scrollback per page step.
pub const SCROLL_PAGE_LINES: usize = 20;

/// How a pane's scrollback is to move.
#[derive(Debug, Clone, Copy, PartialEq, Eq, Structural)]
pub enum ScrollStep {
    /// Lines further back (positive) or towards the live edge (negative).
    By(isize),
    /// To the oldest line kept.
    ToTop,
    /// Back to the live edge.
    ToBottom,
}

/// What the caller has to do with the pane shells after an action.
#[derive(Debug)]
pub enum Command {
    /// Nothing beyond the state change.
    Nothing,
    /// Start a shell for pane `id`; once it runs, call `attach_pane`.
    SpawnPane { id: PaneId, direction: SplitDirection },
    /// The pane left the layout: stop its shell.
    ClosePane(PaneId),
    /// Show the pane's live output again.
    SnapToLive(PaneId),
    /// Scroll the pane; then report its offset with `scrolled`.
    Scroll { pane: PaneId, step: ScrollStep },
    /// Write bytes to the pane's shell.
    Write { pane: PaneId, bytes: Vec<u8> },
}

/// The scroll step of a scroll-mode action.
pub open spec fn scroll_step_of(action: ScrollAction) -> ScrollStep {
    match action {
        ScrollAction::LineUp => ScrollStep::By(1),
        ScrollAction::LineDown => ScrollStep::By(-1isize),
        ScrollAction::PageUp => ScrollStep::By(20),
        ScrollAction::PageDown => ScrollStep::By(-20isize),
        ScrollAction::Top => ScrollStep::ToTop,
        ScrollAction::Bottom => ScrollStep::ToBottom,
    }
}

/// The state of the application, as the contracts see it.
pub struct AppView {
    pub layout: LayoutNode,
    pub focused: PaneId,
    pub next_pane_id: usize,
    pub show_system_panel: bool,
    pub should_quit: bool,
    /// The pane rectangles of the last layout pass.
    pub rects: Map<usize, Rect>,
    /// The area the rectangles were computed for; `None` once the layout
    /// or the area changed.
    pub last_area: Option<Rect>,
    pub status: Seq<char>,
    pub animation_tick: u64,
    /// Lit keyboard labels and the step at which each goes dark.
    pub active_keys: Map<Seq<char>, u64>,
    /// (prefix armed, scroll mode)
    pub input: (bool, bool),
}

/// The state is consistent: no pane is shown twice, every pane number
/// (shown, focused or cached) is below the next one handed out, and while the
/// cached area is valid the cached rectangles are exactly the layout's
/// rectangles for that area.
pub open spec fn app_wf(v: AppView) -> bool {
    &&& distinct_panes(leaves_of(v.layout))
    &&& forall|i: int|
        0 <= i < leaves_of(v.layout).len() ==> (#[trigger] leaves_of(v.layout)[i]).0
            < v.next_pane_id
    &&& v.focused.0 < v.next_pane_id
    &&& forall|k: usize| #[trigger] v.rects.dom().contains(k) ==> k < v.next_pane_id
    &&& v.last_area is Some ==> v.rects.dom() == pane_numbers(leaves_of(v.layout))
    &&& v.last_area matches Some(a) ==> v.rects == rects_spec(v.layout, a)
}

/// The status line after focus moved to `p`.
pub open spec fn focused_status(p: PaneId) -> Seq<char> {
    "focused pane "@ + decimal(p.0 as nat)
}

/// The pane that focus moves to without a geometric neighbour: the one
/// before (left, up) or after (right, down) in layout order.
pub open spec fn focus_fallback(v: AppView, direction: FocusDirection) -> Option<PaneId> {
    match direction {
        FocusDirection::Left | FocusDirection::Up => cycle_previous(leaves_of(v.layout), v.focused),
        FocusDirection::Right | FocusDirection::Down => cycle_next(leaves_of(v.layout), v.focused),
    }
}

/// The keyboard labels lit by `key`, and when they go dark: pressing or
/// repeating lights its labels for eight steps, releasing darkens them.
pub open spec fn keys_after(keys: Map<Seq<char>, u64>, tick: u64, key: KeyEvent) -> Map<Seq<char>, u64> {
    let labels = key_label_seq(key);
    if labels.len() == 0 {
        keys
    } else if key.kind == KeyEventKind::Release {
        keys.remove_keys(labels.to_set())
    } else {
        keys.union_prefer_right(Map::new(|l: Seq<char>| labels.contains(l), |l: Seq<char>| tick.saturating_add(8)))
    }
}

/// The number of rows (or columns) a pane's shell gets inside its border.
pub open spec fn inner_size(outer: u16) -> u16 {
    if outer <= 3 { 1 } else { (outer - 2) as u16 }
}

/// The application state: layout, focus, cached rectangles, status line,
/// lit keys and input mode. The shells of the panes are held by the
/// caller, which follows the returned `Command`s.
pub struct AppState {
    layout: PaneLayout,
    focused: PaneId,
    next_pane_id: usize,
    show_system_panel: bool,
    should_quit: bool,
    last_rects: HashMap<usize, Rect>,
    last_area: Option<Rect>,
    status: String,
    animation_tick: u64,
    active_keys: KeyTracker,
    input_state: InputState,
}

impl View for AppState {
    type V = AppView;

    closed spec fn view(&self) -> AppView {
        AppView {
            layout: self.layout@,
            focused: self.focused,
            next_pane_id: self.next_pane_id,
            show_system_panel: self.show_system_panel,
            should_quit: self.should_quit,
            rects: self.last_rects@,
            last_area: self.last_area,
            status: self.status@,
            animation_tick: self.animation_tick,
            active_keys: self.active_keys@,
            input: self.input_state@,
        }
    }
}

impl AppState {
    /// The state is consistent (see `app_wf`).
    pub closed spec fn wf(&self) -> bool {
        app_wf(self@) && self.active_keys.wf()
    }

    /// The state right after start: pane 1 alone and focused, the system
    /// panel shown, status "normal".
    pub fn new() -> (app: AppState)
        ensures
            app.wf(),
            app@.layout == LayoutNode::Leaf(PaneId(1)),
            app@.focused == PaneId(1),
            app@.next_pane_id == 2,
            app@.show_system_panel,
            !app@.should_quit,
            app@.rects == Map::<usize, Rect>::empty(),
            app@.last_area is None,
            app@.status == "normal"@,
            app@.animation_tick == 0,
            app@.active_keys == Map::<Seq<char>, u64>::empty(),
            app@.input == (false, false),
    {
        let first_id = PaneId(1);
        let app = AppState {
            layout: PaneLayout::new(first_id),
            focused: first_id,
            next_pane_id: 2,
            show_system_panel: true,
            should_quit: false,
            last_rects: HashMap::new(),
            last_area: None,
            status: String::from_str("normal"),
            animation_tick: 0,
            active_keys: KeyTracker::new(),
            input_state: InputState::new(),
        };
        proof {
            assert(leaves_of(app@.layout)[0] == first_id);
        }
        app
    }

    /// Advances the animation one step and darkens the keys that expired.
    pub fn tick(&mut self)
        requires
            old(self).wf(),
        ensures
            final(self).wf(),
            final(self)@ == (AppView {
                animation_tick: if old(self)@.animation_tick == u64::MAX {
                    0
                } else {
                    (old(self)@.animation_tick + 1) as u64
                },
                active_keys: old(self)@.active_keys.restrict(
                    old(self)@.active_keys.dom().filter(
                        |k: Seq<char>| old(self)@.active_keys[k] > final(self)@.animation_tick,
                    ),
                ),
                ..old(self)@
            }),
    {
        self.animation_tick = if self.animation_tick == u64::MAX {
            0
        } else {
            self.animation_tick + 1
        };
        let now = self.animation_tick;
        self.active_keys.retain_after(now);
    }

    /// Routes a key event: lights (or darkens) its keyboard labels, then
    /// runs it through the prefix/scroll state machine.
    pub fn handle_key(&mut self, key: KeyEvent) -> (action: Option<InputAction>)
        requires
            old(self).wf(),
        ensures
            final(self).wf(),
            input_step(old(self)@.input, final(self)@.input, key, action),
            final(self)@ == (AppView {
                active_keys: keys_after(old(self)@.active_keys, old(self)@.animation_tick, key),
                input: final(self)@.input,
                ..old(self)@
            }),
    {
        self.record_key_event(key);
        self.input_state.handle(key)
    }

    fn record_key_event(&mut self, key: KeyEvent)
        requires
            old(self).wf(),
        ensures
            final(self).wf(),
            final(self)@ == (AppView {
                active_keys: keys_after(old(self)@.active_keys, old(self)@.animation_tick, key),
                ..old(self)@
            }),
    {
        let labels = key_labels(key);
        let ghost ls = key_label_seq(key);
        let ghost keys0 = self.active_keys@;
        let ghost v0 = self@;
        assert(labels@.map_values(|l: &str| l@).len() == labels@.len());
        if labels.len() == 0 {
            assert(ls.len() == 0);
            return;
        }
        match key.kind {
            KeyEventKind::Press | KeyEventKind::Repeat => {
                let expires_at = self.animation_tick.saturating_add(8);
                let mut i: usize = 0;
                while i < labels.len()
                    invariant
                        i <= labels@.len(),
                        self.active_keys.wf(),
                        app_wf(v0),
                        self@ == (AppView { active_keys: self.active_keys@, ..v0 }),
                        expires_at == v0.animation_tick.saturating_add(8),
                        labels@.map_values(|l: &str| l@) == ls,
                        self.active_keys@ == keys0.union_prefer_right(
                            Map::new(|l: Seq<char>| ls.take(i as int).contains(l), |l: Seq<char>| expires_at),
                        ),
                    decreases labels.len() - i,
                {
                    self.active_keys.set(labels[i], expires_at);
                    assert(ls[i as int] == labels@[i as int]@);
                    i += 1;
                    assert forall|l: Seq<char>| ls.take(i as int).contains(l) <==> (ls.take(i - 1).contains(l) || l == ls[i - 1]) by {
                        let a = ls.take(i as int);
                        let b = ls.take(i - 1);
                        if a.contains(l) {
                            let j = choose|j: int| 0 <= j < a.len() && a[j] == l;
                            if j < i - 1 {
                                assert(b[j] == l);
                            }
                        }
                        if b.contains(l) {
                            let j = choose|j: int| 0 <= j < b.len() && b[j] == l;
                            assert(a[j] == l);
                        }
                        if l == ls[i - 1] {
                            assert(a[i - 1] == l);
                        }
                    }
                    assert(self.active_keys@ =~= keys0.union_prefer_right(
                        Map::new(|l: Seq<char>| ls.take(i as int).contains(l), |l: Seq<char>| expires_at),
                    ));
                }
                assert(ls.take(labels.len() as int) =~= ls);
                assert(self.active_keys@ =~= keys_after(keys0, self.animation_tick, key));
            },
            KeyEventKind::Release => {
                let mut i: usize = 0;
                while i < labels.len()
                    invariant
                        i <= labels@.len(),
                        self.active_keys.wf(),
                        app_wf(v0),
                        self@ == (AppView { active_keys: self.active_keys@, ..v0 }),
                        labels@.map_values(|l: &str| l@) == ls,
                        self.active_keys@ == keys0.remove_keys(ls.take(i as int).to_set()),
                    decreases labels.len() - i,
                {
                    self.active_keys.remove(labels[i]);
                    assert(ls[i as int] == labels@[i as int]@);
                    i += 1;
                    assert(ls.take(i as int).to_set() =~= ls.take(i - 1).to_set().insert(ls[i - 1])) by {
                        assert forall|l: Seq<char>| ls.take(i as int).contains(l) <==> (ls.take(i - 1).contains(l) || l == ls[i - 1]) by {
                            let a = ls.take(i as int);
                            let b = ls.take(i - 1);
                            if a.contains(l) {
                                let j = choose|j: int| 0 <= j < a.len() && a[j] == l;
                                if j < i - 1 {
                                    assert(b[j] == l);
                                }
                            }
                            if b.contains(l) {
                                let j = choose|j: int| 0 <= j < b.len() && b[j] == l;
                                assert(a[j] == l);
                            }
                            if l == ls[i - 1] {
                                assert(a[i - 1] == l);
                            }
                        }
                    }
                    assert(self.active_keys@ =~= keys0.remove_keys(ls.take(i as int).to_set()));
                }
                assert(ls.take(labels.len() as int) =~= ls);
                assert(self.active_keys@ =~= keys_after(keys0, self.animation_tick, key));
            },
        }
    }

    /// Whether the application should exit.
    pub fn should_quit(&self) -> (r: bool)
        ensures
            r == self@.should_quit,
    {
        self.should_quit
    }

    /// Whether the system panel is shown.
    pub fn show_system_panel(&self) -> (r: bool)
        ensures
            r == self@.show_system_panel,
    {
        self.show_system_panel
    }

    /// The focused pane.
    pub fn focused(&self) -> (r: PaneId)
        ensures
            r == self@.focused,
    {
        self.focused
    }

    /// The number the next new pane gets.
    pub fn next_pane_id(&self) -> (r: usize)
        ensures
            r == self@.next_pane_id,
    {
        self.next_pane_id
    }

    /// The pane rectangles of the last layout pass, by pane number.
    pub fn cached_rects(&self) -> (r: &HashMap<usize, Rect>)
        ensures
            r@ == self@.rects,
    {
        &self.last_rects
    }

    /// The layout.
    pub fn layout(&self) -> (r: &PaneLayout)
        ensures
            r@ == self@.layout,
    {
        &self.layout
    }

    /// The panes in layout order.
    pub fn panes_in_layout_order(&self) -> (r: Vec<PaneId>)
        ensures
            r@ == leaves_of(self@.layout),
    {
        self.layout.leaves()
    }

    /// The status line.
    pub fn status(&self) -> (r: &str)
        ensures
            r@ == self@.status,
    {
        self.status.as_str()
    }

    /// The animation step.
    pub fn animation_tick(&self) -> (r: u64)
        ensures
            r == self@.animation_tick,
    {
        self.animation_tick
    }

    /// The number of panes.
    pub fn pane_count(&self) -> (r: usize)
        ensures
            r == leaves_of(self@.layout).len(),
    {
        self.layout.leaves().len()
    }

    /// Whether the keyboard label is lit.
    pub fn is_key_active(&self, label: &str) -> (r: bool)
        ensures
            r == self@.active_keys.contains_key(label@),
    {
        self.active_keys.contains(label)
    }

    /// Whether the prefix key is armed.
    pub fn prefix_armed(&self) -> (r: bool)
        ensures
            r == self@.input.0,
    {
        self.input_state.prefix_armed()
    }

    /// Whether scroll mode is on.
    pub fn scroll_mode(&self) -> (r: bool)
        ensures
            r == self@.input.1,
    {
        self.input_state.scroll_mode()
    }
}

/// Moving focus in `direction` takes the state from `v` to `w`: to a best
/// geometric neighbour when there is a candidate, otherwise to the pane
/// before or after in layout order (nothing changes when the focused pane
/// is not in the layout).
pub open spec fn focus_step(v: AppView, w: AppView, direction: FocusDirection) -> bool {
    if exists|k: usize| is_neighbor_candidate(v.rects, v.focused, k, direction) {
        &&& is_best_neighbor(v.rects, v.focused, w.focused.0, direction)
        &&& w == AppView { focused: w.focused, status: focused_status(w.focused), ..v }
    } else {
        match focus_fallback(v, direction) {
            Some(n) => w == AppView { focused: n, status: focused_status(n), ..v },
            None => w == v,
        }
    }
}

/// Closing the focused pane takes the state from `v` to `w` with command
/// `cmd`: the last pane is never closed; a shown focused pane leaves the
/// layout and focus goes to the first pane left.
pub open spec fn close_step(v: AppView, w: AppView, cmd: Command) -> bool {
    let leaves = leaves_of(v.layout);
    if leaves.len() <= 1 {
        &&& w == AppView { status: "cannot close the last pane"@, ..v }
        &&& cmd is Nothing
    } else if leaves.contains(v.focused) {
        let layout = remove_spec(v.layout, v.focused).unwrap();
        &&& w == AppView {
            layout,
            focused: leaves_of(layout)[0],
            last_area: None,
            status: "closed pane "@ + decimal(v.focused.0 as nat),
            ..v
        }
        &&& cmd matches Command::ClosePane(p) && p == v.focused
    } else {
        &&& w == v
        &&& cmd is Nothing
    }
}

/// Attaching pane `id` (split off the focused pane in `direction`) takes
/// the state from `v` to `w`: when the focused pane is shown, `id` joins
/// the layout right after it and takes focus; otherwise nothing changes.
pub open spec fn attach_step(v: AppView, w: AppView, id: PaneId, direction: SplitDirection) -> bool {
    if leaves_of(v.layout).contains(v.focused) {
        w == AppView {
            layout: split_spec(v.layout, v.focused, id, direction).0,
            focused: id,
            next_pane_id: (v.next_pane_id + 1) as usize,
            last_area: None,
            status: created_status(id, direction),
            ..v
        }
    } else {
        w == v
    }
}

/// The status line in scroll mode.
pub open spec fn scroll_mode_status(p: PaneId) -> Seq<char> {
    "scroll mode (pane "@ + decimal(p.0 as nat) + ") \u{2014} q/Esc to exit"@
}

/// The status line after scrolling to `offset`.
pub open spec fn scroll_offset_status(p: PaneId, offset: usize) -> Seq<char> {
    "scroll mode (pane "@ + decimal(p.0 as nat) + ", offset "@ + decimal(offset as nat) + ")"@
}

/// The status line after a pane was created.
pub open spec fn created_status(p: PaneId, direction: SplitDirection) -> Seq<char> {
    "created pane "@ + decimal(p.0 as nat) + match direction {
        SplitDirection::Vertical => " with vertical split"@,
        SplitDirection::Horizontal => " with horizontal split"@,
    }
}

/// What each action does to the state (`v` before, `w` after) and asks of
/// the caller (`cmd`).
pub open spec fn action_step(v: AppView, w: AppView, action: InputAction, cmd: Command) -> bool {
    match action {
        InputAction::Quit => w == AppView { should_quit: true, ..v } && cmd is Nothing,
        InputAction::Focus(d) => focus_step(v, w, d) && cmd is Nothing,
        InputAction::Split(d) => w == v && (cmd matches Command::SpawnPane { id, direction } && id
            == PaneId(v.next_pane_id) && direction == d),
        InputAction::NewPane => w == v && (cmd matches Command::SpawnPane { id, direction } && id
            == PaneId(v.next_pane_id) && direction == SplitDirection::Vertical),
        InputAction::ClosePane => close_step(v, w, cmd),
        InputAction::ToggleSystem => w == AppView {
            show_system_panel: !v.show_system_panel,
            last_area: None,
            status: if !v.show_system_panel {
                "system panel shown"@
            } else {
                "system panel hidden"@
            },
            ..v
        } && cmd is Nothing,
        InputAction::EnterScrollMode => w == AppView {
            input: (false, true),
            status: scroll_mode_status(v.focused),
            ..v
        } && cmd is Nothing,
        InputAction::ExitScrollMode => w == AppView {
            input: (v.input.0, false),
            status: "normal"@,
            ..v
        } && (cmd matches Command::SnapToLive(p) && p == v.focused),
        InputAction::Scroll(s) => w == v && (cmd matches Command::Scroll { pane, step } && pane
            == v.focused && step == scroll_step_of(s)),
        InputAction::Send(b) => w == v && (cmd matches Command::Write { pane, bytes } && pane
            == v.focused && bytes == b),
    }
}

fn numbered_status(prefix: &str, p: PaneId) -> (r: String)
    ensures
        r@ == prefix@ + decimal(p.0 as nat),
{
    let mut s = String::from_str(prefix);
    push_decimal(&mut s, p.0 as u64);
    s
}

fn pane_status(prefix: &str, p: PaneId, suffix: &str) -> (r: String)
    ensures
        r@ == prefix@ + decimal(p.0 as nat) + suffix@,
{
    let mut s = numbered_status(prefix, p);
    push_str(&mut s, suffix);
    s
}

impl AppState {
    /// Carries out an action; returns what the caller has to do with the
    /// pane shells (see `action_step`).
    pub fn handle_action(&mut self, action: InputAction) -> (cmd: Command)
        requires
            old(self).wf(),
        ensures
            final(self).wf(),
            action_step(old(self)@, final(self)@, action, cmd),
    {
        let ghost v0 = self@;
        let ghost delegated = action is Focus || action is ClosePane;
        let cmd = match action {
            InputAction::Quit => {
                self.should_quit = true;
                Command::Nothing
            },
            InputAction::Focus(direction) => {
                self.focus(direction);
                Command::Nothing
            },
            InputAction::Split(direction) => Command::SpawnPane {
                id: PaneId(self.next_pane_id),
                direction,
            },
            InputAction::NewPane => Command::SpawnPane {
                id: PaneId(self.next_pane_id),
                direction: SplitDirection::Vertical,
            },
            InputAction::ClosePane => self.close_focused(),
            InputAction::ToggleSystem => {
                self.show_system_panel = !self.show_system_panel;
                // The pane area changes with the panel.
                self.last_area = None;
                self.status = if self.show_system_panel {
                    String::from_str("system panel shown")
                } else {
                    String::from_str("system panel hidden")
                };
                Command::Nothing
            },
            InputAction::EnterScrollMode => {
                self.input_state.set_scroll_mode(true);
                self.status = pane_status("scroll mode (pane ", self.focused, ") \u{2014} q/Esc to exit");
                Command::Nothing
            },
            InputAction::ExitScrollMode => {
                self.input_state.set_scroll_mode(false);
                self.status = String::from_str("normal");
                Command::SnapToLive(self.focused)
            },
            InputAction::Scroll(scroll) => {
                let step = match scroll {
                    ScrollAction::LineUp => ScrollStep::By(1),
                    ScrollAction::LineDown => ScrollStep::By(-1),
                    ScrollAction::PageUp => ScrollStep::By(SCROLL_PAGE_LINES as isize),
                    ScrollAction::PageDown => ScrollStep::By(-(SCROLL_PAGE_LINES as isize)),
                    ScrollAction::Top => ScrollStep::ToTop,
                    ScrollAction::Bottom => ScrollStep::ToBottom,
                };
                Command::Scroll { pane: self.focused, step }
            },
            InputAction::Send(bytes) => Command::Write { pane: self.focused, bytes },
        };
        proof {
            if !delegated {
                lemma_wf_frame(v0, self@);
            }
        }
        cmd
    }

    /// Pastes `text` into the focused pane, bypassing the prefix and scroll
    /// modes: the shell gets its bytes with line feeds as carriage returns.
    pub fn handle_paste(&mut self, text: &str) -> (cmd: Command)
        requires
            old(self).wf(),
        ensures
            final(self).wf(),
            final(self)@ == old(self)@,
            cmd matches Command::Write { pane, bytes } && pane == old(self)@.focused && bytes@
                == encode_utf8(paste_chars(text@)),
    {
        let bytes = paste_bytes(text);
        self.handle_action(InputAction::Send(bytes))
    }

    /// Records the scrollback offset the focused pane reached.
    pub fn scrolled(&mut self, offset: usize)
        requires
            old(self).wf(),
        ensures
            final(self).wf(),
            final(self)@ == (AppView {
                status: scroll_offset_status(old(self)@.focused, offset),
                ..old(self)@
            }),
    {
        let mut s = pane_status("scroll mode (pane ", self.focused, ", offset ");
        push_decimal(&mut s, offset as u64);
        push_str(&mut s, ")");
        self.status = s;
    }

    fn focus(&mut self, direction: FocusDirection)
        requires
            old(self).wf(),
        ensures
            final(self).wf(),
            focus_step(old(self)@, final(self)@, direction),
    {
        match directional_neighbor(&self.last_rects, self.focused, direction) {
            Some(next) => {
                proof {
                    assert(self.last_rects@.dom().contains(next.0));
                    assert(is_neighbor_candidate(self.last_rects@, self.focused, next.0, direction));
                }
                self.focused = next;
                self.status = numbered_status("focused pane ", next);
                proof {
                    lemma_wf_frame(old(self)@, self@);
                }
            },
            None => {
                // Fallback: cycle through the panes in layout order.
                let fallback = match direction {
                    FocusDirection::Left | FocusDirection::Up => self.layout.previous_leaf(self.focused),
                    FocusDirection::Right | FocusDirection::Down => self.layout.next_leaf(self.focused),
                };
                if let Some(next) = fallback {
                    proof {
                        let l = leaves_of(self.layout@);
                        let k = choose|k: int| is_first_position(l, old(self).focused, k);
                        assert(l.contains(old(self).focused));
                        lemma_first_position_exists(l, old(self).focused);
                        assert(is_first_position(l, old(self).focused, k));
                        assert(l[(k + 1) % (l.len() as int)].0 < self.next_pane_id);
                        assert(l[if k == 0 { l.len() - 1 } else { k - 1 }].0 < self.next_pane_id);
                    }
                    self.focused = next;
                    self.status = numbered_status("focused pane ", next);
                    proof {
                        lemma_wf_frame(old(self)@, self@);
                    }
                }
            },
        }
    }

    fn close_focused(&mut self) -> (cmd: Command)
        requires
            old(self).wf(),
        ensures
            final(self).wf(),
            close_step(old(self)@, final(self)@, cmd),
    {
        if self.layout.leaves().len() <= 1 {
            self.status = String::from_str("cannot close the last pane");
            proof {
                lemma_wf_frame(old(self)@, self@);
            }
            return Command::Nothing;
        }
        let closing = self.focused;
        let ghost l = leaves_of(self.layout@);
        let ghost old_layout = self.layout@;
        proof {
            if l.contains(closing) {
                if l[0] == closing {
                    assert(l[1] != closing);
                    l.lemma_filter_contains(|p: PaneId| p != closing, 1);
                } else {
                    assert(l[0] != closing);
                    l.lemma_filter_contains(|p: PaneId| p != closing, 0);
                }
            }
        }
        if self.layout.remove(closing) {
            let first = self.layout.first_leaf();
            self.focused = match first {
                Some(p) => p,
                None => PaneId(1),
            };
            self.last_area = None;
            self.status = numbered_status("closed pane ", closing);
            proof {
                let f = l.filter(|p: PaneId| p != closing);
                lemma_filter_distinct(l, closing);
                assert forall|i: int| 0 <= i < f.len() implies (#[trigger] f[i]).0 < self.next_pane_id by {
                    l.lemma_filter_contains_rev(|p: PaneId| p != closing, f[i]);
                    assert(f.contains(f[i]));
                    let j = choose|j: int| 0 <= j < l.len() && l[j] == f[i];
                }
                assert(leaves_of(self.layout@) == f);
                assert(f.len() > 0);
                assert(self.focused == f[0]);
                assert(f[0].0 < self.next_pane_id);
                assert forall|k: usize| #[trigger] self@.rects.dom().contains(k) implies k < self@.next_pane_id by {
                    assert(old(self)@.rects.dom().contains(k));
                }
                assert(app_wf(self@));
            }
            Command::ClosePane(closing)
        } else {
            Command::Nothing
        }
    }

    /// Puts the new pane `id` next to the focused one (split in
    /// `direction`) and focuses it. Returns whether it was placed; when not
    /// (the focused pane is not in the layout), nothing changes and the
    /// caller drops the pane.
    pub fn attach_pane(&mut self, id: PaneId, direction: SplitDirection) -> (placed: bool)
        requires
            old(self).wf(),
            id.0 == old(self)@.next_pane_id,
            old(self)@.next_pane_id < usize::MAX,
        ensures
            final(self).wf(),
            placed == leaves_of(old(self)@.layout).contains(old(self)@.focused),
            attach_step(old(self)@, final(self)@, id, direction),
    {
        let ghost l = leaves_of(self.layout@);
        let placed = self.layout.split(self.focused, id, direction);
        if !placed {
            return false;
        }
        self.focused = id;
        self.next_pane_id = self.next_pane_id + 1;
        // The layout changed.
        self.last_area = None;
        self.status = match direction {
            SplitDirection::Vertical => pane_status("created pane ", id, " with vertical split"),
            SplitDirection::Horizontal => pane_status("created pane ", id, " with horizontal split"),
        };
        proof {
            let k = choose|k: int|
                is_first_position(l, old(self)@.focused, k) && leaves_of(self.layout@) == l.insert(
                    k + 1,
                    id,
                );
            let l2 = l.insert(k + 1, id);
            assert(!l.contains(id)) by {
                if l.contains(id) {
                    let j = choose|j: int| 0 <= j < l.len() && l[j] == id;
                    assert(l[j].0 < old(self)@.next_pane_id);
                }
            }
            assert forall|i: int, j: int|
                0 <= i < l2.len() && 0 <= j < l2.len() && i != j implies l2[i] != l2[j] by {
                if i != k + 1 && j != k + 1 {
                    let a = if i < k + 1 { i } else { i - 1 };
                    let b = if j < k + 1 { j } else { j - 1 };
                    assert(l2[i] == l[a]);
                    assert(l2[j] == l[b]);
                } else if i == k + 1 {
                    let b = if j < k + 1 { j } else { j - 1 };
                    assert(l2[j] == l[b]);
                } else {
                    let a = if i < k + 1 { i } else { i - 1 };
                    assert(l2[i] == l[a]);
                }
            }
            assert forall|i: int| 0 <= i < l2.len() implies (#[trigger] l2[i]).0 < self.next_pane_id by {
                if i != k + 1 {
                    let a = if i < k + 1 { i } else { i - 1 };
                    assert(l2[i] == l[a]);
                }
            }
            assert(leaves_of(self@.layout) == l2);
            assert forall|key: usize| #[trigger] self@.rects.dom().contains(key) implies key < self@.next_pane_id by {
                assert(old(self)@.rects.dom().contains(key));
            }
            assert(app_wf(self@));
        }
        true
    }

    /// Computes and caches the pane rectangles for `pane_area`. Returns the
    /// inner size (rows, columns) each pane's shell gets; empty when the
    /// area is the one cached already.
    pub fn resize_panes(&mut self, pane_area: Rect) -> (sizes: Vec<(PaneId, u16, u16)>)
        requires
            old(self).wf(),
        ensures
            final(self).wf(),
            final(self)@.last_area == Some(pane_area),
            final(self)@.rects == rects_spec(final(self)@.layout, pane_area),
            old(self)@.last_area == Some(pane_area) ==> final(self)@ == old(self)@ && sizes@.len()
                == 0,
            old(self)@.last_area != Some(pane_area) ==> {
                &&& final(self)@ == (AppView {
                    rects: rects_spec(old(self)@.layout, pane_area),
                    last_area: Some(pane_area),
                    ..old(self)@
                })
                &&& sizes@.len() == leaves_of(old(self)@.layout).len()
                &&& forall|i: int|
                    0 <= i < sizes@.len() ==> {
                        let p = leaves_of(old(self)@.layout)[i];
                        let r = rects_spec(old(self)@.layout, pane_area)[p.0];
                        #[trigger] sizes@[i] == (p, inner_size(r.height), inner_size(r.width))
                    }
            },
    {
        if let Some(area) = self.last_area {
            if area == pane_area {
                return Vec::new();
            }
        }
        self.last_rects = self.layout.rects(pane_area);
        self.last_area = Some(pane_area);
        proof {
            crate::layout::law_rects_cover_panes(self.layout, pane_area);
            let l = leaves_of(self.layout@);
            assert forall|k: usize| #[trigger] self.last_rects@.contains_key(k) implies k < self.next_pane_id by {
                let nums = l.map_values(|p: PaneId| p.0);
                assert(pane_numbers(l).contains(k));
                assert(nums.contains(k));
                let j = choose|j: int| 0 <= j < nums.len() && nums[j] == k;
                assert(l[j].0 < self.next_pane_id);
            }
        }
        let leaves = self.layout.leaves();
        let mut sizes: Vec<(PaneId, u16, u16)> = Vec::new();
        let mut i: usize = 0;
        while i < leaves.len()
            invariant
                i <= leaves@.len(),
                leaves@ == leaves_of(self.layout@),
                self.last_rects@ == rects_spec(self.layout@, pane_area),
                self.last_rects@.dom() == pane_numbers(leaves@),
                sizes@.len() == i,
                forall|j: int|
                    0 <= j < i ==> {
                        let p = leaves@[j];
                        let r = self.last_rects@[p.0];
                        #[trigger] sizes@[j] == (p, inner_size(r.height), inner_size(r.width))
                    },
            decreases leaves.len() - i,
        {
            let id = leaves[i];
            proof {
                let f = |p: PaneId| p.0;
                assert(leaves@.map_values(f)[i as int] == id.0);
                assert(pane_numbers(leaves@).contains(id.0));
            }
            let rect = match self.last_rects.get(&id.0) {
                Some(r) => *r,
                None => {
                    proof {
                        assert(false);
                    }
                    Rect { x: 0, y: 0, width: 0, height: 0 }
                },
            };
            let rows = if rect.height.saturating_sub(2) > 1 { rect.height.saturating_sub(2) } else { 1 };
            let cols = if rect.width.saturating_sub(2) > 1 { rect.width.saturating_sub(2) } else { 1 };
            sizes.push((id, rows, cols));
            i += 1;
        }
        sizes
    }
}

// ---------------------------------------------------------------------------
// Laws

/// With the rectangles of the current layout cached, moving focus from a
/// shown pane lands on a shown pane, and leaves the layout alone.
pub proof fn law_focus_stays_on_shown_pane(v: AppView, w: AppView, direction: FocusDirection)
    requires
        app_wf(v),
        v.last_area is Some,
        leaves_of(v.layout).contains(v.focused),
        focus_step(v, w, direction),
    ensures
        leaves_of(w.layout).contains(w.focused),
        w.layout == v.layout,
{
    let l = leaves_of(v.layout);
    if exists|k: usize| is_neighbor_candidate(v.rects, v.focused, k, direction) {
        let k = w.focused.0;
        assert(in_pool(v.rects, v.focused, k, direction));
        assert(v.rects.dom().contains(k));
        assert(pane_numbers(l).contains(k));
        let nums = l.map_values(|p: PaneId| p.0);
        assert(nums.contains(k));
        let j = choose|j: int| 0 <= j < nums.len() && nums[j] == k;
        assert(l[j].0 == k);
        assert(l[j] == w.focused);
    } else {
        lemma_first_position_exists(l, v.focused);
        let k = choose|k: int| is_first_position(l, v.focused, k);
        match direction {
            FocusDirection::Left | FocusDirection::Up => {
                let i = if k == 0 { l.len() - 1 } else { k - 1 };
                assert(l[i] == w.focused);
            },
            FocusDirection::Right | FocusDirection::Down => {
                let i = (k + 1) % (l.len() as int);
                assert(l[i] == w.focused);
            },
        }
    }
}

/// Closing never leaves the layout without a pane: with one pane shown
/// nothing changes, otherwise focus moves to a pane still shown.
pub proof fn law_close_keeps_a_pane(v: AppView, w: AppView, cmd: Command)
    requires
        app_wf(v),
        close_step(v, w, cmd),
    ensures
        leaves_of(w.layout).len() >= 1,
        leaves_of(v.layout).len() <= 1 ==> w.layout == v.layout,
        leaves_of(v.layout).len() > 1 && leaves_of(v.layout).contains(v.focused) ==> leaves_of(
            w.layout,
        ).contains(w.focused) && !leaves_of(w.layout).contains(v.focused) && leaves_of(w.layout)
            == leaves_of(v.layout).filter(|p: PaneId| p != v.focused) && (cmd matches Command::ClosePane(
            p,
        ) && p == v.focused),
{
    crate::layout::lemma_leaves_nonempty(w.layout);
    let l = leaves_of(v.layout);
    if l.len() > 1 && l.contains(v.focused) {
        let layout = remove_spec(v.layout, v.focused).unwrap();
        assert(leaves_of(w.layout)[0] == w.focused);
        crate::layout::lemma_remove_leaves(v.layout, v.focused);
        if l[0] == v.focused {
            assert(l[1] != v.focused);
            l.lemma_filter_contains(|p: PaneId| p != v.focused, 1);
        } else {
            l.lemma_filter_contains(|p: PaneId| p != v.focused, 0);
        }
        assert(remove_spec(v.layout, v.focused).is_some());
        assert(leaves_of(w.layout) == l.filter(|p: PaneId| p != v.focused));
        if leaves_of(w.layout).contains(v.focused) {
            l.lemma_filter_contains_rev(|p: PaneId| p != v.focused, v.focused);
        }
    }
}

/// Without a pane on that side, focus moves through the panes in layout
/// order: left and up to the one before the focused pane (the last after
/// the first), right and down to the one after it (the first after the
/// last).
pub proof fn law_focus_falls_back_to_layout_order(
    v: AppView,
    w: AppView,
    direction: FocusDirection,
    i: int,
)
    requires
        app_wf(v),
        focus_step(v, w, direction),
        forall|k: usize| !is_neighbor_candidate(v.rects, v.focused, k, direction),
        0 <= i < leaves_of(v.layout).len(),
        leaves_of(v.layout)[i] == v.focused,
    ensures
        direction is Left || direction is Up ==> w.focused == leaves_of(v.layout)[(i + leaves_of(
            v.layout,
        ).len() - 1) % (leaves_of(v.layout).len() as int)],
        direction is Right || direction is Down ==> w.focused == leaves_of(v.layout)[(i + 1) % (leaves_of(
            v.layout,
        ).len() as int)],
{
    let l = leaves_of(v.layout);
    assert(l.contains(v.focused));
    let k = choose|k: int| is_first_position(l, v.focused, k);
    assert(is_first_position(l, v.focused, i));
    assert(k == i);
    let n = l.len() as int;
    if i == 0 {
        assert((i + n - 1) % n == n - 1) by (nonlinear_arith)
            requires
                i == 0,
                n > 0,
        ;
    } else {
        assert((i + n - 1) % n == i - 1) by (nonlinear_arith)
            requires
                1 <= i < n,
        ;
    }
}

/// What the other actions do, told by their effect: Quit asks to stop; a
/// split asks for a shell for a pane not shown yet, to be split off in the
/// direction asked, and a new pane the same side by side; the system panel
/// is toggled; entering scroll mode turns it on and disarms the prefix;
/// leaving it turns it off and brings the focused pane back to its live
/// screen; sent bytes go unchanged to the focused pane. Only Quit stops the
/// application, and only closing and focus moves change the layout or the
/// focus.
pub proof fn law_action_effects(v: AppView, w: AppView, action: InputAction, cmd: Command)
    requires
        app_wf(v),
        action_step(v, w, action, cmd),
    ensures
        w.should_quit == (v.should_quit || action is Quit),
        !(action is ClosePane) ==> w.layout == v.layout,
        !(action is ClosePane) && !(action is Focus) ==> w.focused == v.focused,
        action matches InputAction::Split(d) ==> (cmd matches Command::SpawnPane { id, direction }
            && direction == d && !leaves_of(v.layout).contains(id)),
        action is NewPane ==> (cmd matches Command::SpawnPane { id, direction } && direction
            == SplitDirection::Vertical && !leaves_of(v.layout).contains(id)),
        action is ToggleSystem ==> w.show_system_panel == !v.show_system_panel,
        !(action is ToggleSystem) ==> w.show_system_panel == v.show_system_panel,
        action is EnterScrollMode ==> w.input == (false, true),
        action is ExitScrollMode ==> !w.input.1 && (cmd matches Command::SnapToLive(p) && p
            == v.focused),
        action matches InputAction::Send(b) ==> (cmd matches Command::Write { pane, bytes } && pane
            == v.focused && bytes@ == b@),
{
    if action is Split || action is NewPane {
        let id = PaneId(v.next_pane_id);
        if leaves_of(v.layout).contains(id) {
            let i = choose|i: int| 0 <= i < leaves_of(v.layout).len() && leaves_of(v.layout)[i] == id;
            assert(leaves_of(v.layout)[i].0 < v.next_pane_id);
        }
    }
}

/// Closing the pane just attached gives back the layout it was split from,
/// and asks the caller to stop that pane's shell.
pub proof fn law_close_undoes_attach(
    v: AppView,
    w: AppView,
    u: AppView,
    id: PaneId,
    direction: SplitDirection,
    cmd: Command,
)
    requires
        app_wf(v),
        leaves_of(v.layout).contains(v.focused),
        id.0 == v.next_pane_id,
        attach_step(v, w, id, direction),
        close_step(w, u, cmd),
    ensures
        u.layout == v.layout,
        cmd matches Command::ClosePane(p) && p == id,
{
    let l = leaves_of(v.layout);
    assert(!l.contains(id)) by {
        if l.contains(id) {
            let j = choose|j: int| 0 <= j < l.len() && l[j] == id;
            assert(l[j].0 < v.next_pane_id);
        }
    }
    crate::layout::lemma_split_not_found(v.layout, v.focused, id, direction);
    crate::layout::lemma_split_leaves(v.layout, v.focused, id, direction);
    crate::layout::lemma_split_then_remove(v.layout, v.focused, id, direction);
    let k = choose|k: int|
        is_first_position(l, v.focused, k) && leaves_of(split_spec(v.layout, v.focused, id, direction).0)
            == l.insert(k + 1, id);
    let l2 = l.insert(k + 1, id);
    assert(l2[k + 1] == id);
    assert(l2.len() > 1);
}

// ---------------------------------------------------------------------------
// Laws of focus moves and scrolling

/// The middle of `r` along the direction of travel: its middle column when
/// moving left or right, its middle row when moving up or down.
pub open spec fn centre_along(r: Rect, direction: FocusDirection) -> int {
    match direction {
        FocusDirection::Left | FocusDirection::Right => r.x + r.width / 2,
        FocusDirection::Up | FocusDirection::Down => r.y + r.height / 2,
    }
}

/// How far apart the middles of `from` and `to` are along the move.
pub open spec fn centre_gap(from: Rect, to: Rect, direction: FocusDirection) -> int {
    let d = centre_along(to, direction) - centre_along(from, direction);
    if d >= 0 {
        d
    } else {
        -d
    }
}

/// The rectangle's right and bottom edges stay within `u16`.
pub open spec fn fits_u16(r: Rect) -> bool {
    r.x + r.width <= u16::MAX && r.y + r.height <= u16::MAX
}

/// Focus moves to a nearest pane: no other pane it could move to (among
/// those sharing rows, or columns, with the focused pane when there are
/// any) has its middle closer along the move; and the pane lies past the
/// focused pane's edge on that side (one cell of overlap tolerated).
pub proof fn law_neighbor_is_nearest(
    rects: Map<usize, Rect>,
    focused: PaneId,
    chosen: usize,
    other: usize,
    direction: FocusDirection,
)
    requires
        is_best_neighbor(rects, focused, chosen, direction),
        in_pool(rects, focused, other, direction),
    ensures
        centre_gap(rects[focused.0], rects[chosen], direction) <= centre_gap(
            rects[focused.0],
            rects[other],
            direction,
        ),
        fits_u16(rects[focused.0]) && fits_u16(rects[chosen]) ==> match direction {
            FocusDirection::Right => rects[chosen].x + 1 >= rects[focused.0].x + rects[focused.0].width,
            FocusDirection::Left => rects[chosen].x + rects[chosen].width <= rects[focused.0].x + 1,
            FocusDirection::Down => rects[chosen].y + 1 >= rects[focused.0].y + rects[focused.0].height,
            FocusDirection::Up => rects[chosen].y + rects[chosen].height <= rects[focused.0].y + 1,
        },
{
    let c = rects[focused.0];
    assert(!ranks_before(c, rects[other], rects[chosen], direction));
    assert(primary_distance_spec(c, rects[chosen], direction) == centre_gap(c, rects[chosen], direction));
    assert(primary_distance_spec(c, rects[other], direction) == centre_gap(c, rects[other], direction));
}

/// How many rows (moving left or right) or columns (moving up or down) `a`
/// and `b` have in common.
pub open spec fn shared_span(a: Rect, b: Rect, direction: FocusDirection) -> int {
    let (a_lo, a_hi, b_lo, b_hi) = match direction {
        FocusDirection::Left | FocusDirection::Right => (
            a.y as int,
            a.y + a.height,
            b.y as int,
            b.y + b.height,
        ),
        FocusDirection::Up | FocusDirection::Down => (a.x as int, a.x + a.width, b.x as int, b.x + b.width),
    };
    let lo = if a_lo >= b_lo { a_lo } else { b_lo };
    let hi = if a_hi <= b_hi { a_hi } else { b_hi };
    if hi > lo {
        hi - lo
    } else {
        0
    }
}

/// How focus picks among the panes it could move to: a pane sharing rows
/// (moving left or right) or columns (moving up or down) with the focused
/// pane wins over any that shares none; among the panes in the running, the
/// middle nearest along the move wins, and at equal distance the pane
/// sharing more rows (or columns).
pub proof fn law_neighbor_prefers_shared_then_nearest(
    rects: Map<usize, Rect>,
    focused: PaneId,
    chosen: usize,
    other: usize,
    direction: FocusDirection,
)
    requires
        is_best_neighbor(rects, focused, chosen, direction),
        is_neighbor_candidate(rects, focused, other, direction),
        fits_u16(rects[focused.0]),
        fits_u16(rects[chosen]),
        fits_u16(rects[other]),
    ensures
        shared_span(rects[focused.0], rects[other], direction) > 0 ==> shared_span(
            rects[focused.0],
            rects[chosen],
            direction,
        ) > 0,
        shared_span(rects[focused.0], rects[other], direction) > 0 || shared_span(
            rects[focused.0],
            rects[chosen],
            direction,
        ) == 0 ==> {
            &&& centre_gap(rects[focused.0], rects[chosen], direction) <= centre_gap(
                rects[focused.0],
                rects[other],
                direction,
            )
            &&& centre_gap(rects[focused.0], rects[chosen], direction) == centre_gap(
                rects[focused.0],
                rects[other],
                direction,
            ) ==> shared_span(rects[focused.0], rects[chosen], direction) >= shared_span(
                rects[focused.0],
                rects[other],
                direction,
            )
        },
{
    let c = rects[focused.0];
    assert(axis_overlap_spec(c, rects[other], direction) == shared_span(c, rects[other], direction));
    assert(axis_overlap_spec(c, rects[chosen], direction) == shared_span(c, rects[chosen], direction));
    if shared_span(c, rects[other], direction) > 0 {
        assert(has_overlapping_candidate(rects, focused, direction));
    }
    if shared_span(c, rects[other], direction) > 0 || shared_span(c, rects[chosen], direction) == 0 {
        assert(in_pool(rects, focused, other, direction));
        law_neighbor_is_nearest(rects, focused, chosen, other, direction);
        assert(!ranks_before(c, rects[other], rects[chosen], direction));
        assert(primary_distance_spec(c, rects[chosen], direction) == centre_gap(c, rects[chosen], direction));
        assert(primary_distance_spec(c, rects[other], direction) == centre_gap(c, rects[other], direction));
    }
}

/// Scrolling asks the focused pane to move: a line up is one line further
/// back into the scrollback, a line down one line towards the live screen,
/// a page up or down `SCROLL_PAGE_LINES` lines, and the top and bottom go
/// to the oldest line and to the live screen; nothing else changes.
pub proof fn law_scroll_action_steps(v: AppView, w: AppView, s: ScrollAction, cmd: Command)
    requires
        action_step(v, w, InputAction::Scroll(s), cmd),
    ensures
        w == v,
        cmd matches Command::Scroll { pane, step } && pane == v.focused && match s {
            ScrollAction::LineUp => step == ScrollStep::By(1),
            ScrollAction::LineDown => step == ScrollStep::By(-1isize),
            ScrollAction::PageUp => step == ScrollStep::By(SCROLL_PAGE_LINES as isize),
            ScrollAction::PageDown => step == ScrollStep::By((0 - SCROLL_PAGE_LINES) as isize),
            ScrollAction::Top => step == ScrollStep::ToTop,
            ScrollAction::Bottom => step == ScrollStep::ToBottom,
        },
{
}

/// `action` scrolls, and a pane at scrollback offset `offset` is asked to
/// go to `target`.
pub open spec fn scrolls_to(action: Option<InputAction>, offset: usize, target: usize) -> bool {
    action matches Some(InputAction::Scroll(s)) && requested_offset(offset, scroll_step_of(s)) == target
}

/// In scroll mode, a key that reads upwards (Up, k, K; a page: Page Up, b,
/// B) moves a pane at scrollback offset `offset` further back into its
/// history, and one that reads downwards (Down, j, J; a page: Page Down, f,
/// F, space) as far towards the live screen; Home and g go to the oldest
/// line, End and G back to the live screen.
pub proof fn law_scroll_keys_move_through_history(
    before: (bool, bool),
    after: (bool, bool),
    key: KeyEvent,
    action: Option<InputAction>,
    offset: usize,
)
    requires
        before.1,
        is_press(key),
        input_step(before, after, key, action),
    ensures
        (key.code == KeyCode::Up || key.code == KeyCode::Char('k') || key.code == KeyCode::Char('K'))
            ==> scrolls_to(action, offset, offset.saturating_add(1)),
        (key.code == KeyCode::Down || key.code == KeyCode::Char('j') || key.code == KeyCode::Char('J'))
            ==> scrolls_to(action, offset, offset.saturating_sub(1)),
        (key.code == KeyCode::PageUp || key.code == KeyCode::Char('b') || key.code == KeyCode::Char('B'))
            ==> scrolls_to(action, offset, offset.saturating_add(SCROLL_PAGE_LINES)),
        (key.code == KeyCode::PageDown || key.code == KeyCode::Char('f') || key.code == KeyCode::Char('F')
            || key.code == KeyCode::Char(' ')) ==> scrolls_to(action, offset, offset.saturating_sub(SCROLL_PAGE_LINES)),
        (key.code == KeyCode::Home || key.code == KeyCode::Char('g')) ==> scrolls_to(action, offset, usize::MAX),
        (key.code == KeyCode::End || key.code == KeyCode::Char('G')) ==> scrolls_to(action, offset, 0),
{
}

/// Changing what `app_wf` does not look at keeps it.
proof fn lemma_wf_frame(v: AppView, w: AppView)
    requires
        app_wf(v),
        w.layout == v.layout,
        w.rects == v.rects,
        w.next_pane_id == v.next_pane_id,
        w.focused.0 < w.next_pane_id,
        w.last_area is Some ==> w.last_area == v.last_area,
    ensures
        app_wf(w),
{
    assert forall|k: usize| #[trigger] w.rects.dom().contains(k) implies k < w.next_pane_id by {
        assert(v.rects.dom().contains(k));
    }
}


} // verus!
