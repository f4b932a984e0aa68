//! What a panel does when it is drawn, scrolled or handed an event, as the sequence
//! of steps that the application carries out.
use vstd::prelude::*;
use crate::panel::{
    Panel, PanelView, found, horiz_scrollbar, lemma_slider_update_keeps_invariant, panel_wf,
    scrollbars_in_place, vert_scrollbar, with_slider,
};

verus! {

/// One step of drawing a panel.
#[derive(PartialEq, Eq, Structural, Clone, Copy, Debug)]
pub enum DrawStep {
    /// Clip all further drawing to the panel's visible part.
    EnableClipping,
    /// Mark the panel's visible part as covering the screen.
    MarkVisibleCovered,
    /// Mark the panel's whole area as covering the screen.
    MarkAreaCovered,
    /// Go back to drawing in screen coordinates.
    Unfork,
    /// Draw the widgets.
    DrawWidgets,
    /// Stop clipping.
    DisableClipping,
    /// Draw the horizontal scrollbar.
    DrawHorizScrollbar,
    /// Draw the vertical scrollbar.
    DrawVertScrollbar,
}

/// One step of scrolling a panel or handing it an event.
#[derive(PartialEq, Eq, Structural, Clone, Copy, Debug)]
pub enum PanelStep {
    /// Move the horizontal scrollbar to the requested horizontal offset: to the
    /// start when the contents fit, else to the offset kept within the room there
    /// is to scroll, as a share of that room.
    SetHorizScrollbar,
    /// The same for the vertical scrollbar and the vertical offset.
    SetVertScrollbar,
    /// Compute the panel's layout again, and the widgets' backgrounds too if
    /// `recompute_bg`.
    Relayout { recompute_bg: bool },
    /// Hand the event to the widgets.
    RunWidgets,
    /// Hand the panel a no-op event: the steps of `Panel::event` with the mouse
    /// wheel still and the window unchanged, which the widgets must make nothing of.
    NoOpEvent,
}

/// The steps of drawing a panel that is clipped or not and scrolls along the given
/// axes: the scrollbars are drawn after clipping is disabled, because they lie
/// just outside the visible part.
pub open spec fn draw_steps(clipped: bool, scrollable_x: bool, scrollable_y: bool) -> Seq<DrawStep> {
    let start = if clipped {
        seq![DrawStep::EnableClipping, DrawStep::MarkVisibleCovered]
    } else {
        seq![DrawStep::MarkAreaCovered]
    };
    let bars = if scrollable_x || scrollable_y {
        seq![DrawStep::DisableClipping] + (if scrollable_x {
            seq![DrawStep::DrawHorizScrollbar]
        } else {
            Seq::empty()
        }) + (if scrollable_y {
            seq![DrawStep::DrawVertScrollbar]
        } else {
            Seq::empty()
        })
    } else {
        Seq::empty()
    };
    start + seq![DrawStep::Unfork, DrawStep::DrawWidgets] + bars
}

/// The steps of moving a panel to a scroll offset: each scrollbar of the panel is
/// set, and the layout is computed again if there was one.
pub open spec fn scroll_steps(scrollable_x: bool, scrollable_y: bool) -> Seq<PanelStep> {
    (if scrollable_x {
        seq![PanelStep::SetHorizScrollbar]
    } else {
        Seq::empty()
    }) + (if scrollable_y {
        seq![PanelStep::SetVertScrollbar]
    } else {
        Seq::empty()
    }) + (if scrollable_x || scrollable_y {
        seq![PanelStep::Relayout { recompute_bg: false }]
    } else {
        Seq::empty()
    })
}

/// The steps of handing a panel an event, up to and including the widgets' turn.
/// A turn of the mouse wheel scrolls a panel that scrolls when the cursor is over
/// it; a resized window makes the panel compute its layout again.
pub open spec fn event_steps(
    scrollable_x: bool,
    scrollable_y: bool,
    cursor_inside: bool,
    wheel_turned: bool,
    window_resized: bool,
) -> Seq<PanelStep> {
    (if (scrollable_x || scrollable_y) && cursor_inside && wheel_turned {
        scroll_steps(scrollable_x, scrollable_y)
    } else {
        Seq::empty()
    }) + (if window_resized {
        seq![PanelStep::Relayout { recompute_bg: false }]
    } else {
        Seq::empty()
    }) + seq![PanelStep::RunWidgets]
}

/// Drawing a well-formed panel never leaves clipping on: whenever it enables
/// clipping, it draws the widgets and then disables clipping again; each scrollbar
/// is drawn, once clipping is off, exactly when the panel scrolls along its axis.
pub proof fn lemma_draw_steps<S, D>(p: PanelView<S, D>)
    requires
        p.clipped == (p.scrollable_x || p.scrollable_y),
    ensures
        ({
            let s = draw_steps(p.clipped, p.scrollable_x, p.scrollable_y);
            &&& forall|i: int|
                0 <= i < s.len() && s[i] == DrawStep::EnableClipping ==> exists|j: int, k: int|
                    i < k < j < s.len() && #[trigger] s[k] == DrawStep::DrawWidgets && #[trigger] s[j]
                        == DrawStep::DisableClipping
            &&& forall|i: int|
                0 <= i < s.len() && (#[trigger] s[i] == DrawStep::DrawHorizScrollbar || s[i]
                    == DrawStep::DrawVertScrollbar) ==> exists|j: int|
                    0 <= j < i && #[trigger] s[j] == DrawStep::DisableClipping
            &&& s.contains(DrawStep::DrawHorizScrollbar) == p.scrollable_x
            &&& s.contains(DrawStep::DrawVertScrollbar) == p.scrollable_y
            &&& s.contains(DrawStep::DrawWidgets)
        }),
{
    let s = draw_steps(p.clipped, p.scrollable_x, p.scrollable_y);
    let sx = p.scrollable_x;
    let sy = p.scrollable_y;
    if p.clipped {
        assert(s[0] == DrawStep::EnableClipping);
        assert(s[3] == DrawStep::DrawWidgets);
        assert(s[4] == DrawStep::DisableClipping);
        if sx && sy {
            assert(s =~= seq![
                DrawStep::EnableClipping,
                DrawStep::MarkVisibleCovered,
                DrawStep::Unfork,
                DrawStep::DrawWidgets,
                DrawStep::DisableClipping,
                DrawStep::DrawHorizScrollbar,
                DrawStep::DrawVertScrollbar,
            ]);
        } else if sx {
            assert(s =~= seq![
                DrawStep::EnableClipping,
                DrawStep::MarkVisibleCovered,
                DrawStep::Unfork,
                DrawStep::DrawWidgets,
                DrawStep::DisableClipping,
                DrawStep::DrawHorizScrollbar,
            ]);
            assert(!s.contains(DrawStep::DrawVertScrollbar));
        } else {
            assert(s =~= seq![
                DrawStep::EnableClipping,
                DrawStep::MarkVisibleCovered,
                DrawStep::Unfork,
                DrawStep::DrawWidgets,
                DrawStep::DisableClipping,
                DrawStep::DrawVertScrollbar,
            ]);
            assert(!s.contains(DrawStep::DrawHorizScrollbar));
        }
    } else {
        assert(s =~= seq![DrawStep::MarkAreaCovered, DrawStep::Unfork, DrawStep::DrawWidgets]);
        assert(!s.contains(DrawStep::DrawHorizScrollbar));
        assert(!s.contains(DrawStep::DrawVertScrollbar));
    }
    assert(s.contains(DrawStep::DrawWidgets));
}

/// Moving a panel to a scroll offset sets exactly the scrollbars along which it
/// scrolls, and computes the layout again after them exactly when it set one.
pub proof fn lemma_scroll_steps(scrollable_x: bool, scrollable_y: bool)
    ensures
        ({
            let s = scroll_steps(scrollable_x, scrollable_y);
            &&& s.contains(PanelStep::SetHorizScrollbar) == scrollable_x
            &&& s.contains(PanelStep::SetVertScrollbar) == scrollable_y
            &&& (scrollable_x || scrollable_y) == (s.len() > 0)
            &&& s.len() > 0 ==> s.last() == (PanelStep::Relayout { recompute_bg: false })
            &&& !s.contains(PanelStep::RunWidgets)
            &&& s.len() == (if scrollable_x { 1int } else { 0 }) + (if scrollable_y { 1int } else { 0 })
                + (if scrollable_x || scrollable_y { 1int } else { 0 })
            &&& scrollable_x ==> s[0] == PanelStep::SetHorizScrollbar
            &&& scrollable_y ==> s[if scrollable_x { 1int } else { 0 }] == PanelStep::SetVertScrollbar
        }),
{
    let s = scroll_steps(scrollable_x, scrollable_y);
    let r = PanelStep::Relayout { recompute_bg: false };
    if scrollable_x && scrollable_y {
        assert(s =~= seq![PanelStep::SetHorizScrollbar, PanelStep::SetVertScrollbar, r]);
    } else if scrollable_x {
        assert(s =~= seq![PanelStep::SetHorizScrollbar, r]);
    } else if scrollable_y {
        assert(s =~= seq![PanelStep::SetVertScrollbar, r]);
    } else {
        assert(s =~= Seq::<PanelStep>::empty());
    }
    assert(s.contains(PanelStep::SetHorizScrollbar) == scrollable_x);
    assert(s.contains(PanelStep::SetVertScrollbar) == scrollable_y);
    assert(!s.contains(PanelStep::RunWidgets));
}

/// Handing a panel an event ends with the widgets' turn, which comes exactly once;
/// it moves a scrollbar only when the panel scrolls along that axis, the cursor is
/// over the panel and the mouse wheel turned.
pub proof fn lemma_event_steps(
    scrollable_x: bool,
    scrollable_y: bool,
    cursor_inside: bool,
    wheel_turned: bool,
    window_resized: bool,
)
    ensures
        ({
            let s = event_steps(
                scrollable_x,
                scrollable_y,
                cursor_inside,
                wheel_turned,
                window_resized,
            );
            &&& s.len() > 0 && s.last() == PanelStep::RunWidgets
            &&& forall|i: int| 0 <= i < s.len() - 1 ==> #[trigger] s[i] != PanelStep::RunWidgets
            &&& s.contains(PanelStep::SetHorizScrollbar) == (scrollable_x && cursor_inside
                && wheel_turned)
            &&& s.contains(PanelStep::SetVertScrollbar) == (scrollable_y && cursor_inside
                && wheel_turned)
        }),
{
    let s = event_steps(scrollable_x, scrollable_y, cursor_inside, wheel_turned, window_resized);
    let scrolled = (scrollable_x || scrollable_y) && cursor_inside && wheel_turned;
    let a = if scrolled {
        scroll_steps(scrollable_x, scrollable_y)
    } else {
        Seq::empty()
    };
    let b = if window_resized {
        seq![PanelStep::Relayout { recompute_bg: false }]
    } else {
        Seq::<PanelStep>::empty()
    };
    lemma_scroll_steps(scrollable_x, scrollable_y);
    assert(s == a + b + seq![PanelStep::RunWidgets]);
    assert forall|i: int| 0 <= i < s.len() - 1 implies #[trigger] s[i] != PanelStep::RunWidgets by {
        if i < a.len() {
            assert(s[i] == a[i]);
        } else {
            assert(s[i] == b[i - a.len()]);
        }
    }
    assert forall|x: PanelStep| x != PanelStep::RunWidgets && !(#[trigger] a.contains(x)) && x
        != (PanelStep::Relayout { recompute_bg: false }) implies !s.contains(x) by {
        if s.contains(x) {
            let i = choose|i: int| 0 <= i < s.len() && s[i] == x;
            if i < a.len() {
                assert(a[i] == x);
            } else if i < a.len() + b.len() {
                assert(b[i - a.len()] == x);
            }
        }
    }
    if scrolled {
        if scrollable_x {
            let i = choose|i: int| 0 <= i < a.len() && a[i] == PanelStep::SetHorizScrollbar;
            assert(s[i] == a[i]);
        }
        if scrollable_y {
            let i = choose|i: int| 0 <= i < a.len() && a[i] == PanelStep::SetVertScrollbar;
            assert(s[i] == a[i]);
        }
    }
    assert(!a.contains(PanelStep::SetHorizScrollbar) ==> !s.contains(PanelStep::SetHorizScrollbar));
    assert(!a.contains(PanelStep::SetVertScrollbar) ==> !s.contains(PanelStep::SetVertScrollbar));
}

/// A no-op event is just the widgets' turn.
pub proof fn lemma_no_op_event(scrollable_x: bool, scrollable_y: bool, cursor_inside: bool)
    ensures
        event_steps(scrollable_x, scrollable_y, cursor_inside, false, false) == seq![
            PanelStep::RunWidgets,
        ],
{
    assert(event_steps(scrollable_x, scrollable_y, cursor_inside, false, false) =~= seq![
        PanelStep::RunWidgets,
    ]);
}

/// Handing a panel an event keeps its invariant: each scrollbar that the event moves
/// is found as a slider, and moving the scrollbars it moves, to any states, leaves the
/// panel well formed, clipped exactly when it scrolls, and with each scrollbar still
/// found as a slider.
pub proof fn lemma_event_keeps_invariant<S, D>(
    p: PanelView<S, D>,
    cursor_inside: bool,
    wheel_turned: bool,
    window_resized: bool,
    horiz_state: D,
    vert_state: D,
)
    requires
        panel_wf(p),
        scrollbars_in_place(p),
    ensures
        ({
            let s = event_steps(
                p.scrollable_x,
                p.scrollable_y,
                cursor_inside,
                wheel_turned,
                window_resized,
            );
            let h = if s.contains(PanelStep::SetHorizScrollbar) {
                with_slider(p, horiz_scrollbar(), horiz_state)
            } else {
                p
            };
            let v = if s.contains(PanelStep::SetVertScrollbar) {
                with_slider(h, vert_scrollbar(), vert_state)
            } else {
                h
            };
            &&& s.contains(PanelStep::SetHorizScrollbar) ==> (found(p.top_level, horiz_scrollbar())
                matches Some(n) && n.kind is Slider)
            &&& s.contains(PanelStep::SetVertScrollbar) ==> (found(h.top_level, vert_scrollbar())
                matches Some(n) && n.kind is Slider)
            &&& panel_wf(h) && scrollbars_in_place(h)
            &&& panel_wf(v) && scrollbars_in_place(v)
            &&& h.scrollable_x == p.scrollable_x && h.scrollable_y == p.scrollable_y
        }),
{
    let s = event_steps(p.scrollable_x, p.scrollable_y, cursor_inside, wheel_turned, window_resized);
    lemma_event_steps(p.scrollable_x, p.scrollable_y, cursor_inside, wheel_turned, window_resized);
    if s.contains(PanelStep::SetHorizScrollbar) {
        lemma_slider_update_keeps_invariant(p, horiz_scrollbar(), horiz_state);
    }
    let h = if s.contains(PanelStep::SetHorizScrollbar) {
        with_slider(p, horiz_scrollbar(), horiz_state)
    } else {
        p
    };
    if s.contains(PanelStep::SetVertScrollbar) {
        lemma_slider_update_keeps_invariant(h, vert_scrollbar(), vert_state);
    }
}

/// Drawing is clipped exactly when the panel is: a clipped panel first clips all
/// drawing to its visible part and marks that part as covering the screen; a panel
/// that is not clipped marks its whole area instead; and a panel that scrolls along
/// some axis is clipped, so its contents never spill out of the visible part.
pub proof fn lemma_draw_clips_visible_part<S, D>(p: PanelView<S, D>)
    ensures
        ({
            let s = draw_steps(p.clipped, p.scrollable_x, p.scrollable_y);
            &&& s.len() >= 3
            &&& p.clipped ==> s[0] == DrawStep::EnableClipping && s[1]
                == DrawStep::MarkVisibleCovered
            &&& !p.clipped ==> s[0] == DrawStep::MarkAreaCovered
            &&& s.contains(DrawStep::EnableClipping) == p.clipped
            &&& s.contains(DrawStep::MarkVisibleCovered) == p.clipped
            &&& s.contains(DrawStep::MarkAreaCovered) == !p.clipped
            &&& panel_wf(p) && (p.scrollable_x || p.scrollable_y) ==> s[0]
                == DrawStep::EnableClipping
        }),
        ({
            let s = draw_steps(p.clipped, p.scrollable_x, p.scrollable_y);
            let k: int = if p.clipped { 2 } else { 1 };
            let bars: int = if p.scrollable_x || p.scrollable_y {
                1 + (if p.scrollable_x { 1int } else { 0 }) + (if p.scrollable_y { 1int } else { 0 })
            } else {
                0
            };
            &&& s.len() == k + 2 + bars
            &&& s[k] == DrawStep::Unfork
            &&& s[k + 1] == DrawStep::DrawWidgets
            &&& (p.scrollable_x || p.scrollable_y) ==> s[k + 2] == DrawStep::DisableClipping
            &&& p.scrollable_x ==> s[k + 3] == DrawStep::DrawHorizScrollbar
            &&& p.scrollable_y ==> s[s.len() - 1] == DrawStep::DrawVertScrollbar
        }),
{
    let s = draw_steps(p.clipped, p.scrollable_x, p.scrollable_y);
    let start = if p.clipped {
        seq![DrawStep::EnableClipping, DrawStep::MarkVisibleCovered]
    } else {
        seq![DrawStep::MarkAreaCovered]
    };
    let bars = if p.scrollable_x || p.scrollable_y {
        seq![DrawStep::DisableClipping] + (if p.scrollable_x {
            seq![DrawStep::DrawHorizScrollbar]
        } else {
            Seq::empty()
        }) + (if p.scrollable_y {
            seq![DrawStep::DrawVertScrollbar]
        } else {
            Seq::empty()
        })
    } else {
        Seq::empty()
    };
    let mid = seq![DrawStep::Unfork, DrawStep::DrawWidgets];
    assert(s == start + mid + bars);
    let k: int = start.len() as int;
    assert(s[k] == mid[0]);
    assert(s[k + 1] == mid[1]);
    if p.scrollable_x || p.scrollable_y {
        assert(s[k + 2] == bars[0]);
        if p.scrollable_x {
            assert(s[k + 3] == bars[1]);
        }
        if p.scrollable_y {
            assert(s[s.len() - 1] == bars[bars.len() - 1]);
        }
    }
    assert forall|x: DrawStep|
        x == DrawStep::EnableClipping || x == DrawStep::MarkVisibleCovered || x
            == DrawStep::MarkAreaCovered implies !(#[trigger] bars.contains(x)) && !mid.contains(x) by {
        if bars.contains(x) {
            let i = choose|i: int| 0 <= i < bars.len() && bars[i] == x;
            if p.scrollable_x && p.scrollable_y {
                assert(bars =~= seq![DrawStep::DisableClipping, DrawStep::DrawHorizScrollbar, DrawStep::DrawVertScrollbar]);
            } else if p.scrollable_x {
                assert(bars =~= seq![DrawStep::DisableClipping, DrawStep::DrawHorizScrollbar]);
            } else if p.scrollable_y {
                assert(bars =~= seq![DrawStep::DisableClipping, DrawStep::DrawVertScrollbar]);
            }
        }
        if mid.contains(x) {
            let i = choose|i: int| 0 <= i < mid.len() && mid[i] == x;
        }
    }
    assert forall|x: DrawStep| #[trigger] s.contains(x) == (start.contains(x) || mid.contains(x) || bars.contains(x)) by {
        if s.contains(x) {
            let i = choose|i: int| 0 <= i < s.len() && s[i] == x;
            if i < start.len() {
                assert(start[i] == x);
            } else if i < start.len() + mid.len() {
                assert(mid[i - start.len()] == x);
            } else {
                assert(bars[i - start.len() - mid.len()] == x);
            }
        }
        if start.contains(x) {
            let i = choose|i: int| 0 <= i < start.len() && start[i] == x;
            assert(s[i] == x);
        }
        if mid.contains(x) {
            let i = choose|i: int| 0 <= i < mid.len() && mid[i] == x;
            assert(s[start.len() + i] == x);
        }
        if bars.contains(x) {
            let i = choose|i: int| 0 <= i < bars.len() && bars[i] == x;
            assert(s[start.len() + mid.len() + i] == x);
        }
    }
    if p.clipped {
        assert(start[0] == DrawStep::EnableClipping);
        assert(start[1] == DrawStep::MarkVisibleCovered);
        assert(!start.contains(DrawStep::MarkAreaCovered)) by {
            if start.contains(DrawStep::MarkAreaCovered) {
                let i = choose|i: int| 0 <= i < start.len() && start[i] == DrawStep::MarkAreaCovered;
            }
        }
    } else {
        assert(start[0] == DrawStep::MarkAreaCovered);
        assert(!start.contains(DrawStep::EnableClipping)) by {
            if start.contains(DrawStep::EnableClipping) {
                let i = choose|i: int| 0 <= i < start.len() && start[i] == DrawStep::EnableClipping;
            }
        }
        assert(!start.contains(DrawStep::MarkVisibleCovered)) by {
            if start.contains(DrawStep::MarkVisibleCovered) {
                let i = choose|i: int| 0 <= i < start.len() && start[i] == DrawStep::MarkVisibleCovered;
            }
        }
    }
}

/// The order of an event's steps: the widgets' turn comes last; a resized window
/// has the layout computed again just before it; when the mouse wheel turns over a
/// panel that scrolls, the event starts with exactly the steps of moving the panel
/// to a scroll offset, so every scrollbar it moves is followed by a new layout before
/// the widgets' turn; and otherwise no scrollbar moves.
pub proof fn lemma_event_order(
    scrollable_x: bool,
    scrollable_y: bool,
    cursor_inside: bool,
    wheel_turned: bool,
    window_resized: bool,
)
    ensures
        ({
            let s = event_steps(
                scrollable_x,
                scrollable_y,
                cursor_inside,
                wheel_turned,
                window_resized,
            );
            let n = s.len();
            let scrolled = (scrollable_x || scrollable_y) && cursor_inside && wheel_turned;
            let moved = scroll_steps(scrollable_x, scrollable_y);
            &&& n >= 1 && s[n - 1] == PanelStep::RunWidgets
            &&& window_resized ==> n >= 2 && s[n - 2] == (PanelStep::Relayout {
                recompute_bg: false,
            })
            &&& scrolled ==> moved.len() <= n && s.take(moved.len() as int) == moved
            &&& forall|i: int|
                0 <= i < n && (#[trigger] s[i] == PanelStep::SetHorizScrollbar || s[i]
                    == PanelStep::SetVertScrollbar) ==> exists|j: int|
                    i < j < n - 1 && #[trigger] s[j] == (PanelStep::Relayout {
                        recompute_bg: false,
                    })
            &&& !scrolled ==> !s.contains(PanelStep::SetHorizScrollbar) && !s.contains(
                PanelStep::SetVertScrollbar,
            )
            &&& !scrolled && !window_resized ==> s == seq![PanelStep::RunWidgets]
        }),
{
    let s = event_steps(scrollable_x, scrollable_y, cursor_inside, wheel_turned, window_resized);
    let scrolled = (scrollable_x || scrollable_y) && cursor_inside && wheel_turned;
    let moved = scroll_steps(scrollable_x, scrollable_y);
    let rel = PanelStep::Relayout { recompute_bg: false };
    let a = if scrolled {
        moved
    } else {
        Seq::empty()
    };
    let b = if window_resized {
        seq![rel]
    } else {
        Seq::<PanelStep>::empty()
    };
    lemma_scroll_steps(scrollable_x, scrollable_y);
    assert(s == a + b + seq![PanelStep::RunWidgets]);
    let n = s.len();
    assert(s[n - 1] == PanelStep::RunWidgets);
    if window_resized {
        assert(s[n - 2] == b[0]);
    }
    if scrolled {
        assert(s.take(moved.len() as int) =~= moved);
    }
    assert forall|i: int|
        0 <= i < n && (#[trigger] s[i] == PanelStep::SetHorizScrollbar || s[i]
            == PanelStep::SetVertScrollbar) implies exists|j: int|
            i < j < n - 1 && #[trigger] s[j] == rel by {
        if i >= a.len() {
            if i < a.len() + b.len() {
                assert(s[i] == b[i - a.len()]);
            }
        } else {
            let j = a.len() - 1;
            assert(a.len() > 0);
            assert(s[i] == a[i]);
            assert(s[j] == a[j]);
            assert(a[j] == rel);
        }
    }
    if !scrolled {
        assert(!s.contains(PanelStep::SetHorizScrollbar)) by {
            if s.contains(PanelStep::SetHorizScrollbar) {
                let i = choose|i: int| 0 <= i < s.len() && s[i] == PanelStep::SetHorizScrollbar;
                if i < b.len() {
                    assert(s[i] == b[i]);
                }
            }
        }
        assert(!s.contains(PanelStep::SetVertScrollbar)) by {
            if s.contains(PanelStep::SetVertScrollbar) {
                let i = choose|i: int| 0 <= i < s.len() && s[i] == PanelStep::SetVertScrollbar;
                if i < b.len() {
                    assert(s[i] == b[i]);
                }
            }
        }
        if !window_resized {
            assert(s =~= seq![PanelStep::RunWidgets]);
        }
    }
}

/// Appends `s` to `v`.
fn push_all<T: Copy>(v: &mut Vec<T>, s: &[T])
    ensures
        final(v)@ == old(v)@ + s@,
{
    let n = s.len();
    let mut k: usize = 0;
    while k < n
        invariant
            n == s@.len(),
            k <= n,
            v@ == old(v)@ + s@.take(k as int),
        decreases n - k,
    {
        v.push(s[k]);
        assert(s@.take(k + 1) =~= s@.take(k as int).push(s@[k as int]));
        k = k + 1;
    }
    assert(s@.take(n as int) =~= s@);
}

impl<S, D> Panel<S, D> {
    /// The steps of drawing the panel.
    pub fn draw(&self) -> (r: Vec<DrawStep>)
        ensures
            r@ == draw_steps(self@.clipped, self@.scrollable_x, self@.scrollable_y),
    {
        let mut r: Vec<DrawStep> = Vec::new();
        if self.is_clipped() {
            r.push(DrawStep::EnableClipping);
            r.push(DrawStep::MarkVisibleCovered);
        } else {
            r.push(DrawStep::MarkAreaCovered);
        }
        r.push(DrawStep::Unfork);
        r.push(DrawStep::DrawWidgets);
        let sx = self.scrollable_x();
        let sy = self.scrollable_y();
        if sx || sy {
            r.push(DrawStep::DisableClipping);
            if sx {
                r.push(DrawStep::DrawHorizScrollbar);
            }
            if sy {
                r.push(DrawStep::DrawVertScrollbar);
            }
        }
        assert(r@ =~= draw_steps(self@.clipped, sx, sy));
        r
    }

    /// The steps of moving the panel to a scroll offset.
    pub fn set_scroll_offset(&self) -> (r: Vec<PanelStep>)
        ensures
            r@ == scroll_steps(self@.scrollable_x, self@.scrollable_y),
    {
        let sx = self.scrollable_x();
        let sy = self.scrollable_y();
        let mut r: Vec<PanelStep> = Vec::new();
        if sx {
            r.push(PanelStep::SetHorizScrollbar);
        }
        if sy {
            r.push(PanelStep::SetVertScrollbar);
        }
        if sx || sy {
            r.push(PanelStep::Relayout { recompute_bg: false });
        }
        assert(r@ =~= scroll_steps(sx, sy));
        r
    }

    /// The steps of handing the panel an event, up to and including the widgets'
    /// turn, given whether the cursor is over the panel, whether the mouse wheel
    /// turned and whether the window was resized.
    pub fn event(&self, cursor_inside: bool, wheel_turned: bool, window_resized: bool) -> (r: Vec<
        PanelStep,
    >)
        ensures
            r@ == event_steps(
                self@.scrollable_x,
                self@.scrollable_y,
                cursor_inside,
                wheel_turned,
                window_resized,
            ),
    {
        let sx = self.scrollable_x();
        let sy = self.scrollable_y();
        let mut r: Vec<PanelStep> = Vec::new();
        if (sx || sy) && cursor_inside && wheel_turned {
            let steps = self.set_scroll_offset();
            push_all(&mut r, steps.as_slice());
        }
        if window_resized {
            r.push(PanelStep::Relayout { recompute_bg: false });
        }
        r.push(PanelStep::RunWidgets);
        assert(r@ =~= event_steps(sx, sy, cursor_inside, wheel_turned, window_resized));
        r
    }
}

/// What is left to do once the widgets had the event: compute the layout again,
/// backgrounds included, when the scroll offset changed meanwhile or a widget asked
/// for it.
pub fn after_widgets(offset_changed: bool, redo_layout: bool) -> (r: Option<PanelStep>)
    ensures
        r == (if offset_changed || redo_layout {
            Some(PanelStep::Relayout { recompute_bg: true })
        } else {
            None
        }),
{
    if offset_changed || redo_layout {
        Some(PanelStep::Relayout { recompute_bg: true })
    } else {
        None
    }
}

} // verus!
