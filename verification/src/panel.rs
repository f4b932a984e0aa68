//! A panel: a tree of widgets, how much of the window it may take, and whether it
//! scrolls; and the builder that configures one.
use vstd::prelude::*;
use crate::plan::PanelStep;
use crate::widget::{
    Node, Widget, WidgetKind, click_actions, holds_state, state_of, with_state, find_index, is_named, lemma_click_actions_append,
    lemma_click_actions_same_kinds, lemma_click_actions_shifted, lemma_find_first, lemma_find_from, lemma_find_none, members_nodes, replaced, shifted, well_formed,
};

verus! {

/// How much of the window a panel may take, in whole percents of the window's
/// width and height.
#[derive(PartialEq, Eq, Structural, Clone, Copy, Debug)]
pub enum Dims {
    /// The panel is as large as its contents, up to these percents; beyond them it
    /// scrolls.
    MaxPercent(usize, usize),
    /// The panel is exactly this large; contents that do not fit scroll.
    ExactPercent(usize, usize),
}

/// The scrollbar that a panel gets along one axis when its contents do not fit:
/// the slider, and the style of the container that puts it beside the contents.
pub struct Scrollbar<S, D> {
    pub container_style: S,
    pub slider: Widget<S, D>,
}

/// A panel being configured.
pub struct PanelBuilder<S, D> {
    top_level: Widget<S, D>,
    dims: Dims,
}

/// What a builder holds.
pub struct PanelBuilderView<S, D> {
    pub top_level: Seq<Node<S, D>>,
    pub dims: Dims,
}

impl<S, D> View for PanelBuilder<S, D> {
    type V = PanelBuilderView<S, D>;

    closed spec fn view(&self) -> PanelBuilderView<S, D> {
        PanelBuilderView { top_level: self.top_level@, dims: self.dims }
    }
}

/// A built panel.
pub struct Panel<S, D> {
    top_level: Widget<S, D>,
    dims: Dims,
    scrollable_x: bool,
    scrollable_y: bool,
    clipped: bool,
}

/// What a panel holds: its widgets, its size limits, the axes along which it
/// scrolls, and whether its drawing is clipped to its visible part.
pub struct PanelView<S, D> {
    pub top_level: Seq<Node<S, D>>,
    pub dims: Dims,
    pub scrollable_x: bool,
    pub scrollable_y: bool,
    pub clipped: bool,
}

impl<S, D> View for Panel<S, D> {
    type V = PanelView<S, D>;

    closed spec fn view(&self) -> PanelView<S, D> {
        PanelView {
            top_level: self.top_level@,
            dims: self.dims,
            scrollable_x: self.scrollable_x,
            scrollable_y: self.scrollable_y,
            clipped: self.clipped,
        }
    }
}

/// The name of the slider that scrolls a panel horizontally.
pub open spec fn horiz_scrollbar() -> Seq<char> {
    "horiz scrollbar"@
}

/// The name of the slider that scrolls a panel vertically.
pub open spec fn vert_scrollbar() -> Seq<char> {
    "vert scrollbar"@
}

/// The tree `inner` put in a container, beside the slider `slider` named `name`.
pub open spec fn beside<S, D>(
    container_style: S,
    inner: Seq<Node<S, D>>,
    slider: Seq<Node<S, D>>,
) -> Seq<Node<S, D>> {
    seq![Node { id: None, style: container_style, kind: WidgetKind::<D>::Container, depth: 0 }]
        + shifted(inner, 1) + shifted(slider, 1)
}

/// The widget that a lookup of `name` in `t` finds: the first in pre-order.
pub open spec fn found<S, D>(t: Seq<Node<S, D>>, name: Seq<char>) -> Option<Node<S, D>> {
    match find_index(t, name) {
        Some(i) => Some(t[i]),
        None => None,
    }
}

/// `t` is `inner` put in a container of style `container_style`, beside the
/// widgets of `slider`, whose top widget is renamed `name`.
pub open spec fn is_beside<S, D>(
    t: Seq<Node<S, D>>,
    container_style: S,
    inner: Seq<Node<S, D>>,
    slider: Seq<Node<S, D>>,
    name: Seq<char>,
) -> bool {
    let k: int = 1 + inner.len() as int;
    &&& t.len() == k + slider.len()
    &&& t[0] == Node { id: None, style: container_style, kind: WidgetKind::<D>::Container, depth: 0 }
    &&& t.subrange(1, k) == shifted(inner, 1)
    &&& t.subrange(k, t.len() as int) == shifted(slider, 1).update(0, Node { id: t[k].id, ..shifted(slider, 1)[0] })
    &&& is_named(t[k], name)
}

/// `t` is `inner` with the scrollbar `bar`, if there is one, put beside it under
/// the name `name`.
pub open spec fn with_scrollbar<S, D>(
    t: Seq<Node<S, D>>,
    inner: Seq<Node<S, D>>,
    bar: Option<Scrollbar<S, D>>,
    name: Seq<char>,
) -> bool {
    match bar {
        Some(b) => is_beside(t, b.container_style, inner, b.slider@, name),
        None => t == inner,
    }
}

/// A scrollbar can be put beside a panel's contents: its slider is a single
/// slider widget.
pub open spec fn scrollbar_ok<S, D>(bar: Option<Scrollbar<S, D>>) -> bool {
    bar matches Some(b) ==> {
        &&& b.slider@.len() == 1
        &&& b.slider@[0].depth == 0
        &&& b.slider@[0].kind is Slider
    }
}

/// What a lookup finds in a tree put beside a scrollbar: the widgets of the
/// contents first, then the scrollbar under its new name.
proof fn lemma_find_beside<S, D>(
    t: Seq<Node<S, D>>,
    container_style: S,
    inner: Seq<Node<S, D>>,
    slider: Seq<Node<S, D>>,
    name: Seq<char>,
    q: Seq<char>,
)
    requires
        is_beside(t, container_style, inner, slider, name),
        slider.len() == 1,
    ensures
        find_index(inner, q) matches Some(j) ==> find_index(t, q) == Some(1 + j) && t[1 + j].kind
            == inner[j].kind,
        find_index(inner, q) is None && q == name ==> find_index(t, q) == Some(1 + inner.len() as int)
            && t[1 + inner.len() as int].kind == slider[0].kind,
        find_index(inner, q) is None && q != name ==> find_index(t, q) is None,
{
    let k: int = 1 + inner.len() as int;
    lemma_find_from(inner, q, 0);
    assert forall|j: int| 0 <= j < inner.len() implies #[trigger] t[1 + j] == shifted(inner, 1)[j] by {
        assert(t.subrange(1, k)[j] == t[1 + j]);
    }
    assert(t[k] == t.subrange(k, t.len() as int)[0]);
    assert(!is_named(t[0], q));
    match find_index(inner, q) {
        Some(j) => {
            assert forall|m: int| 0 <= m < 1 + j implies !is_named(#[trigger] t[m], q) by {
                if m > 0 {
                    assert(t[1 + (m - 1)] == shifted(inner, 1)[m - 1]);
                }
            }
            lemma_find_first(t, q, 1 + j);
        },
        None => {
            assert forall|m: int| 0 <= m < k implies !is_named(#[trigger] t[m], q) by {
                if m > 0 {
                    assert(t[1 + (m - 1)] == shifted(inner, 1)[m - 1]);
                }
            }
            if q == name {
                lemma_find_first(t, q, k);
            } else {
                assert forall|m: int| 0 <= m < t.len() implies !is_named(#[trigger] t[m], q) by {
                    if m >= k {
                        assert(m == k);
                    }
                }
                lemma_find_none(t, q);
            }
        },
    }
}

/// A container beside a single slider has the button actions of its contents.
proof fn lemma_click_actions_beside<S, D>(
    container_style: S,
    inner: Seq<Node<S, D>>,
    slider: Seq<Node<S, D>>,
)
    requires
        slider.len() == 1,
        slider[0].kind is Slider,
    ensures
        click_actions(beside(container_style, inner, slider)) == click_actions(inner),
{
    let root = seq![Node { id: None, style: container_style, kind: WidgetKind::<D>::Container, depth: 0 }];
    lemma_click_actions_append(root + shifted(inner, 1), shifted(slider, 1));
    lemma_click_actions_append(root, shifted(inner, 1));
    lemma_click_actions_shifted(inner, 1);
    lemma_click_actions_shifted(slider, 1);
    reveal_with_fuel(click_actions, 2);
    assert(root.drop_last() =~= Seq::<Node<S, D>>::empty());
    assert(click_actions(root) =~= Seq::<Seq<char>>::empty());
    assert(slider.drop_last() =~= Seq::<Node<S, D>>::empty());
    assert(click_actions(slider) =~= Seq::<Seq<char>>::empty());
    assert(click_actions(root) + click_actions(inner) + Seq::<Seq<char>>::empty() =~= click_actions(inner));
}

/// A panel is well formed: its widgets form a tree, and it is clipped exactly when
/// it scrolls.
pub open spec fn panel_wf<S, D>(p: PanelView<S, D>) -> bool {
    &&& well_formed(p.top_level)
    &&& p.clipped == (p.scrollable_x || p.scrollable_y)
}

/// Along each axis that the panel scrolls, a lookup of that axis's scrollbar finds
/// a slider.
pub open spec fn scrollbars_in_place<S, D>(p: PanelView<S, D>) -> bool {
    &&& p.scrollable_x ==> (found(p.top_level, horiz_scrollbar()) matches Some(n)
        && n.kind is Slider)
    &&& p.scrollable_y ==> (found(p.top_level, vert_scrollbar()) matches Some(n)
        && n.kind is Slider)
}

/// The panel `p` with the slider named `name` holding the state `d`.
pub open spec fn with_slider<S, D>(p: PanelView<S, D>, name: Seq<char>, d: D) -> PanelView<S, D> {
    PanelView {
        top_level: p.top_level.update(
            find_index(p.top_level, name)->0,
            Node { kind: WidgetKind::Slider(d), ..found(p.top_level, name)->0 },
        ),
        ..p
    }
}

/// `p` is the panel built from the builder `b` given the scrollbars `horiz` and
/// `vert`, and `then` is what remains to be done once it is built: the contents are
/// put beside the horizontal scrollbar, the result beside the vertical one; the panel
/// scrolls along the axes that got a scrollbar and is clipped exactly when it scrolls;
/// its buttons are those of the contents; each scrollbar is found under its name
/// where the contents used neither name; and the panel is then handed a no-op event.
pub open spec fn built<S, D>(
    b: PanelBuilderView<S, D>,
    horiz: Option<Scrollbar<S, D>>,
    vert: Option<Scrollbar<S, D>>,
    p: PanelView<S, D>,
    then: Seq<PanelStep>,
) -> bool {
    &&& panel_wf(p)
    &&& p.dims == b.dims
    &&& p.scrollable_x == horiz is Some
    &&& p.scrollable_y == vert is Some
    &&& exists|mid: Seq<Node<S, D>>|
        with_scrollbar(mid, b.top_level, horiz, horiz_scrollbar()) && with_scrollbar(
            p.top_level,
            mid,
            vert,
            vert_scrollbar(),
        )
    &&& click_actions(p.top_level) == click_actions(b.top_level)
    &&& found(b.top_level, horiz_scrollbar()) is None && found(b.top_level, vert_scrollbar())
        is None ==> scrollbars_in_place(p)
    &&& then == seq![PanelStep::NoOpEvent]
}

/// Two optional names read the same.
pub open spec fn same_name(x: Option<String>, y: Option<String>) -> bool {
    match (x, y) {
        (None, None) => true,
        (Some(a), Some(b)) => a@ == b@,
        _ => false,
    }
}

/// Two trees are the same but for how their names are held: the same widgets, with
/// the same styles, kinds and depths, and names that read the same.
pub open spec fn same_tree<S, D>(a: Seq<Node<S, D>>, b: Seq<Node<S, D>>) -> bool {
    &&& a.len() == b.len()
    &&& forall|k: int|
        0 <= k < a.len() ==> {
            &&& (#[trigger] a[k]).style == b[k].style
            &&& a[k].kind == b[k].kind
            &&& a[k].depth == b[k].depth
            &&& same_name(a[k].id, b[k].id)
        }
}

/// Two panels are the same but for how the names of their widgets are held.
pub open spec fn same_panel<S, D>(p: PanelView<S, D>, q: PanelView<S, D>) -> bool {
    &&& same_tree(p.top_level, q.top_level)
    &&& p.dims == q.dims
    &&& p.scrollable_x == q.scrollable_x
    &&& p.scrollable_y == q.scrollable_y
    &&& p.clipped == q.clipped
}

/// Putting the same contents beside the same scrollbar gives the same tree.
proof fn lemma_with_scrollbar_unique<S, D>(
    t1: Seq<Node<S, D>>,
    t2: Seq<Node<S, D>>,
    i1: Seq<Node<S, D>>,
    i2: Seq<Node<S, D>>,
    bar: Option<Scrollbar<S, D>>,
    name: Seq<char>,
)
    requires
        with_scrollbar(t1, i1, bar, name),
        with_scrollbar(t2, i2, bar, name),
        same_tree(i1, i2),
        scrollbar_ok(bar),
    ensures
        same_tree(t1, t2),
{
    if let Some(b) = bar {
        let k: int = 1 + i1.len() as int;
        assert forall|j: int| 0 <= j < t1.len() implies {
            &&& (#[trigger] t1[j]).style == t2[j].style
            &&& t1[j].kind == t2[j].kind
            &&& t1[j].depth == t2[j].depth
            &&& same_name(t1[j].id, t2[j].id)
        } by {
            if 1 <= j < k {
                assert(t1[j] == t1.subrange(1, k)[j - 1]);
                assert(t2[j] == t2.subrange(1, k)[j - 1]);
                assert(t1[j] == shifted(i1, 1)[j - 1]);
                assert(t2[j] == shifted(i2, 1)[j - 1]);
                assert(i1[j - 1].style == i2[j - 1].style);
            } else if j == k {
                assert(t1[j] == t1.subrange(k, t1.len() as int)[0]);
                assert(t2[j] == t2.subrange(k, t2.len() as int)[0]);
            }
        }
    }
}

/// The panel that building gives is determined, but for how the names of its widgets
/// are held, by the builder and the scrollbars; so `build` gives the panel that
/// `build_custom` gives on the builder restyled with the panel's style, as both are
/// `built` from that builder, and what remains to be done is the same.
pub proof fn lemma_built_unique<S, D>(
    b: PanelBuilderView<S, D>,
    horiz: Option<Scrollbar<S, D>>,
    vert: Option<Scrollbar<S, D>>,
    p: PanelView<S, D>,
    then_p: Seq<PanelStep>,
    q: PanelView<S, D>,
    then_q: Seq<PanelStep>,
)
    requires
        scrollbar_ok(horiz),
        scrollbar_ok(vert),
        built(b, horiz, vert, p, then_p),
        built(b, horiz, vert, q, then_q),
    ensures
        same_panel(p, q),
        then_p == then_q,
{
    let mp = choose|mid: Seq<Node<S, D>>|
        with_scrollbar(mid, b.top_level, horiz, horiz_scrollbar()) && with_scrollbar(
            p.top_level,
            mid,
            vert,
            vert_scrollbar(),
        );
    let mq = choose|mid: Seq<Node<S, D>>|
        with_scrollbar(mid, b.top_level, horiz, horiz_scrollbar()) && with_scrollbar(
            q.top_level,
            mid,
            vert,
            vert_scrollbar(),
        );
    assert(same_tree(b.top_level, b.top_level));
    lemma_with_scrollbar_unique(mp, mq, b.top_level, b.top_level, horiz, horiz_scrollbar());
    lemma_with_scrollbar_unique(p.top_level, q.top_level, mp, mq, vert, vert_scrollbar());
}

/// Lookups go by names alone: two trees with the same names in the same places find
/// the same positions.
proof fn lemma_find_same_names<S, D>(a: Seq<Node<S, D>>, b: Seq<Node<S, D>>, name: Seq<char>)
    requires
        a.len() == b.len(),
        forall|k: int| 0 <= k < a.len() ==> #[trigger] a[k].id == b[k].id,
    ensures
        find_index(a, name) == find_index(b, name),
{
    lemma_find_from(a, name, 0);
    lemma_find_from(b, name, 0);
    match find_index(a, name) {
        Some(i) => {
            assert forall|j: int| 0 <= j < i implies !is_named(#[trigger] b[j], name) by {
                assert(a[j].id == b[j].id);
                assert(!is_named(a[j], name));
            }
            assert(a[i].id == b[i].id);
            lemma_find_first(b, name, i);
        },
        None => {
            assert forall|j: int| 0 <= j < b.len() implies !is_named(#[trigger] b[j], name) by {
                assert(a[j].id == b[j].id);
                assert(!is_named(a[j], name));
            }
            lemma_find_none(b, name);
        },
    }
}

/// Changing the kind of one widget keeps a panel's invariant, as long as a slider
/// stays a slider: the panel stays well formed and clipped exactly when it scrolls,
/// and the scrollbar of each axis it scrolls along is still found as a slider.
pub proof fn lemma_kind_update_keeps_invariant<S, D>(p: PanelView<S, D>, i: int, k: WidgetKind<D>)
    requires
        panel_wf(p),
        scrollbars_in_place(p),
        0 <= i < p.top_level.len(),
        p.top_level[i].kind is Slider ==> k is Slider,
    ensures
        ({
            let q = PanelView {
                top_level: p.top_level.update(i, Node { kind: k, ..p.top_level[i] }),
                ..p
            };
            panel_wf(q) && scrollbars_in_place(q)
        }),
{
    let q = PanelView { top_level: p.top_level.update(i, Node { kind: k, ..p.top_level[i] }), ..p };
    assert forall|j: int| 0 <= j < p.top_level.len() implies #[trigger] q.top_level[j].id
        == p.top_level[j].id && q.top_level[j].depth == p.top_level[j].depth by {}
    lemma_find_same_names(p.top_level, q.top_level, horiz_scrollbar());
    lemma_find_same_names(p.top_level, q.top_level, vert_scrollbar());
    lemma_find_from(p.top_level, horiz_scrollbar(), 0);
    lemma_find_from(p.top_level, vert_scrollbar(), 0);
    assert(well_formed(q.top_level)) by {
        assert forall|j: int| 1 <= j < q.top_level.len() implies 1 <= #[trigger] q.top_level[j].depth
            <= q.top_level[j - 1].depth + 1 by {
            assert(q.top_level[j - 1].depth == p.top_level[j - 1].depth);
        }
    }
}

/// Moving a slider keeps a panel's invariant: the panel stays well formed and
/// clipped exactly when it scrolls, and the scrollbar of each axis it scrolls along
/// is still found as a slider.
pub proof fn lemma_slider_update_keeps_invariant<S, D>(p: PanelView<S, D>, name: Seq<char>, d: D)
    requires
        panel_wf(p),
        scrollbars_in_place(p),
        found(p.top_level, name) matches Some(n) && n.kind is Slider,
    ensures
        panel_wf(with_slider(p, name, d)),
        scrollbars_in_place(with_slider(p, name, d)),
{
    lemma_find_from(p.top_level, name, 0);
    lemma_kind_update_keeps_invariant(p, find_index(p.top_level, name)->0, WidgetKind::Slider(d));
}

/// Puts `inner` beside the scrollbar `bar`, if there is one, naming its slider `name`.
fn attach_scrollbar<S, D>(inner: Widget<S, D>, bar: Option<Scrollbar<S, D>>, name: &str) -> (w:
    Widget<S, D>)
    requires
        inner.wf(),
        scrollbar_ok(bar),
    ensures
        w.wf(),
        with_scrollbar(w@, inner@, bar, name@),
        click_actions(w@) == click_actions(inner@),
{
    match bar {
        Some(b) => {
            let slider = b.slider.named(name);
            let ghost sv = slider@;
            let ghost iv = inner@;
            let mut members: Vec<Widget<S, D>> = Vec::new();
            members.push(inner);
            members.push(slider);
            let w = Widget::container(b.container_style, members);
            proof {
                let ms = members@.map_values(|m: Widget<S, D>| m@);
                assert(ms =~= seq![iv, sv]);
                assert(ms.drop_last() =~= seq![iv]);
                assert(ms.drop_last().drop_last() =~= Seq::<Seq<Node<S, D>>>::empty());
                assert(members_nodes(seq![iv]) =~= shifted(iv, 1)) by {
                    reveal_with_fuel(members_nodes, 2);
                    assert(seq![iv].drop_last() =~= Seq::<Seq<Node<S, D>>>::empty());
                }
                let k: int = 1 + iv.len() as int;
                assert(w@.subrange(1, k) =~= shifted(iv, 1));
                assert(w@.subrange(k, w@.len() as int) =~= shifted(sv, 1));
                assert(shifted(sv, 1) =~= shifted(b.slider@, 1).update(0, Node { id: w@[k].id, ..shifted(b.slider@, 1)[0] }));
                assert(w@ =~= beside(b.container_style, iv, sv));
                assert(sv[0].kind == b.slider@[0].kind);
                lemma_click_actions_beside(b.container_style, iv, sv);
            }
            w
        },
        None => inner,
    }
}

impl<S, D> PanelBuilder<S, D> {
    /// The builder is well formed.
    pub open spec fn wf(&self) -> bool {
        well_formed(self@.top_level)
    }

    /// Lets the panel take at most `width` and `height` percent of the window.
    /// Asking for the whole window is refused: that is already the default.
    pub fn max_size(self, width: usize, height: usize) -> (b: Self)
        requires
            self.wf(),
            !(width == 100 && height == 100),
        ensures
            b.wf(),
            b@ == (PanelBuilderView { dims: Dims::MaxPercent(width, height), ..self@ }),
    {
        PanelBuilder { top_level: self.top_level, dims: Dims::MaxPercent(width, height) }
    }

    /// Makes the panel exactly `pct_width` and `pct_height` percent of the window.
    pub fn exact_size_percent(self, pct_width: usize, pct_height: usize) -> (b: Self)
        requires
            self.wf(),
        ensures
            b.wf(),
            b@ == (PanelBuilderView { dims: Dims::ExactPercent(pct_width, pct_height), ..self@ }),
    {
        PanelBuilder { top_level: self.top_level, dims: Dims::ExactPercent(pct_width, pct_height) }
    }

    /// Gives the top widget of the panel being built the style `style`.
    pub fn with_top_style(self, style: S) -> (b: Self)
        requires
            self.wf(),
        ensures
            b.wf(),
            b@ == (PanelBuilderView {
                top_level: self@.top_level.update(0, Node { style, ..self@.top_level[0] }),
                ..self@
            }),
            click_actions(b@.top_level) == click_actions(self@.top_level),
    {
        let ghost t = self@.top_level;
        let top_level = self.top_level.with_top_style(style);
        proof {
            let u = top_level@;
            assert forall|k: int| 0 <= k < u.len() implies #[trigger] u[k].kind == t[k].kind by {}
            lemma_click_actions_same_kinds(t, u);
        }
        PanelBuilder { top_level, dims: self.dims }
    }

    /// Builds the panel with the panel's own style (its padding and background) on
    /// its contents: the same as `build_custom` on the builder restyled so.
    pub fn build(self, style: S, horiz: Option<Scrollbar<S, D>>, vert: Option<Scrollbar<S, D>>) -> (r: (
        Panel<S, D>,
        Vec<PanelStep>,
    ))
        requires
            self.wf(),
            scrollbar_ok(horiz),
            scrollbar_ok(vert),
            click_actions(self@.top_level).no_duplicates(),
        ensures
            built(
                PanelBuilderView {
                    top_level: self@.top_level.update(0, Node { style, ..self@.top_level[0] }),
                    ..self@
                },
                horiz,
                vert,
                r.0@,
                r.1@,
            ),
    {
        self.with_top_style(style).build_custom(horiz, vert)
    }

    /// Builds the panel, given the scrollbars that its contents need along each
    /// axis, and says what remains to be done: handing it a no-op event. The
    /// contents are put beside the horizontal scrollbar, then the result beside the
    /// vertical one; a panel that scrolls is clipped to its visible part. Two buttons
    /// of a panel may not share an action.
    pub fn build_custom(self, horiz: Option<Scrollbar<S, D>>, vert: Option<Scrollbar<S, D>>) -> (r: (
        Panel<S, D>,
        Vec<PanelStep>,
    ))
        requires
            self.wf(),
            scrollbar_ok(horiz),
            scrollbar_ok(vert),
            click_actions(self@.top_level).no_duplicates(),
        ensures
            built(self@, horiz, vert, r.0@, r.1@),
    {
        let scrollable_x = horiz.is_some();
        let scrollable_y = vert.is_some();
        let top = self.top_level;
        let ghost t0 = top@;
        let ghost hz = horiz;
        let ghost vt = vert;
        let top = attach_scrollbar(top, horiz, "horiz scrollbar");
        let ghost t1 = top@;
        let top = attach_scrollbar(top, vert, "vert scrollbar");
        let p = Panel {
            top_level: top,
            dims: self.dims,
            scrollable_x,
            scrollable_y,
            clipped: scrollable_x || scrollable_y,
        };
        proof {
            let t2 = top@;
            reveal_strlit("horiz scrollbar");
            reveal_strlit("vert scrollbar");
            assert(horiz_scrollbar() != vert_scrollbar()) by {
                assert(horiz_scrollbar().len() != vert_scrollbar().len());
            }
            let h = horiz_scrollbar();
            let v = vert_scrollbar();
            if let Some(b) = hz {
                lemma_find_beside(t1, b.container_style, t0, b.slider@, h, h);
                lemma_find_beside(t1, b.container_style, t0, b.slider@, h, v);
            }
            if let Some(b) = vt {
                lemma_find_beside(t2, b.container_style, t1, b.slider@, v, h);
                lemma_find_beside(t2, b.container_style, t1, b.slider@, v, v);
            }
        }
        let mut then: Vec<PanelStep> = Vec::new();
        then.push(PanelStep::NoOpEvent);
        assert(then@ =~= seq![PanelStep::NoOpEvent]);
        (p, then)
    }

    /// The size limits chosen so far.
    pub fn dims(&self) -> (d: Dims)
        ensures
            d == self@.dims,
    {
        self.dims
    }

    /// The widgets of the panel being built.
    pub fn top_level(&self) -> (w: &Widget<S, D>)
        ensures
            w@ == self@.top_level,
    {
        &self.top_level
    }
}

impl<S, D> Panel<S, D> {
    /// Starts configuring a panel holding `top_level`, which may take the whole
    /// window.
    pub fn new(top_level: Widget<S, D>) -> (b: PanelBuilder<S, D>)
        requires
            top_level.wf(),
        ensures
            b.wf(),
            b@ == (PanelBuilderView { top_level: top_level@, dims: Dims::MaxPercent(100, 100) }),
    {
        PanelBuilder { top_level, dims: Dims::MaxPercent(100, 100) }
    }

    /// The panel is well formed: its widgets form a tree, and it is clipped
    /// exactly when it scrolls.
    pub open spec fn wf(&self) -> bool {
        panel_wf(self@)
    }

    /// Whether the panel scrolls horizontally.
    pub fn scrollable_x(&self) -> (b: bool)
        ensures
            b == self@.scrollable_x,
    {
        self.scrollable_x
    }

    /// Whether the panel scrolls vertically.
    pub fn scrollable_y(&self) -> (b: bool)
        ensures
            b == self@.scrollable_y,
    {
        self.scrollable_y
    }

    /// Whether the panel's drawing is clipped to its visible part.
    pub fn is_clipped(&self) -> (b: bool)
        ensures
            b == self@.clipped,
    {
        self.clipped
    }

    /// The size limits the panel was built with.
    pub fn dims(&self) -> (d: Dims)
        ensures
            d == self@.dims,
    {
        self.dims
    }

    /// The panel's widgets.
    pub fn top_level(&self) -> (w: &Widget<S, D>)
        ensures
            w@ == self@.top_level,
    {
        &self.top_level
    }

    /// Whether some widget of the panel is named `name`.
    pub fn has_widget(&self, name: &str) -> (b: bool)
        ensures
            b == found(self@.top_level, name@) is Some,
    {
        self.top_level.has_widget(name)
    }

    /// The first widget in pre-order named `name`, if there is one.
    pub fn lookup(&self, name: &str) -> (r: Option<&Node<S, D>>)
        ensures
            r matches Some(n) ==> found(self@.top_level, name@) == Some(*n),
            r is None ==> found(self@.top_level, name@) is None,
    {
        match self.top_level.find(name) {
            Some(i) => {
                proof {
                    lemma_find_from(self@.top_level, name@, 0);
                }
                Some(self.top_level.node(i))
            },
            None => None,
        }
    }

    /// The widget named `name`, which must exist.
    pub fn find(&self, name: &str) -> (n: &Node<S, D>)
        requires
            found(self@.top_level, name@) is Some,
        ensures
            found(self@.top_level, name@) == Some(*n),
    {
        self.lookup(name).unwrap()
    }

    /// The state of the slider named `name`.
    pub fn slider(&self, name: &str) -> (d: &D)
        requires
            found(self@.top_level, name@) matches Some(n) && n.kind is Slider,
        ensures
            found(self@.top_level, name@)->0.kind == WidgetKind::Slider(*d),
    {
        match &self.find(name).kind {
            WidgetKind::Slider(d) => d,
            _ => unreached(),
        }
    }
    /// The state of the widget named `name`, which must be one that holds state
    /// only the application interprets, to change it in place; the widget stays of
    /// its kind.
    pub fn find_mut(&mut self, name: &str) -> (d: &mut D)
        requires
            found(old(self)@.top_level, name@) matches Some(n) && holds_state(n.kind),
        ensures
            *d == state_of(found(old(self)@.top_level, name@)->0.kind),
            old(self).wf() ==> final(self).wf(),
            old(self).wf() && scrollbars_in_place(old(self)@) ==> scrollbars_in_place(final(self)@),
            final(self)@ == (PanelView {
                top_level: old(self)@.top_level.update(
                    find_index(old(self)@.top_level, name@)->0,
                    Node {
                        kind: with_state(found(old(self)@.top_level, name@)->0.kind, *final(d)),
                        ..found(old(self)@.top_level, name@)->0
                    },
                ),
                ..old(self)@
            }),
    {
        let i = self.top_level.find(name).unwrap();
        proof {
            lemma_find_from(old(self)@.top_level, name@, 0);
        }
        let d = self.top_level.state_mut(i);
        proof {
            let k = old(self)@.top_level[i as int].kind;
            if old(self).wf() && scrollbars_in_place(old(self)@) {
                lemma_kind_update_keeps_invariant(old(self)@, i as int, with_state(k, *final(d)));
            }
        }
        d
    }

    /// The state of the slider named `name`, to change it in place.
    pub fn slider_mut(&mut self, name: &str) -> (d: &mut D)
        requires
            found(old(self)@.top_level, name@) matches Some(n) && n.kind is Slider,
        ensures
            found(old(self)@.top_level, name@)->0.kind == WidgetKind::Slider(*d),
            old(self).wf() ==> final(self).wf(),
            old(self).wf() && scrollbars_in_place(old(self)@) ==> scrollbars_in_place(final(self)@),
            final(self)@ == with_slider(old(self)@, name@, *final(d)),
    {
        let i = self.top_level.find(name).unwrap();
        proof {
            lemma_find_from(old(self)@.top_level, name@, 0);
        }
        let d = self.top_level.slider_mut(i);
        proof {
            if old(self).wf() && scrollbars_in_place(old(self)@) {
                lemma_slider_update_keeps_invariant(old(self)@, name@, *final(d));
            }
        }
        d
    }

    /// The state of the area slider named `name`.
    pub fn area_slider(&self, name: &str) -> (d: &D)
        requires
            found(self@.top_level, name@) matches Some(n) && n.kind is AreaSlider,
        ensures
            found(self@.top_level, name@)->0.kind == WidgetKind::AreaSlider(*d),
    {
        match &self.find(name).kind {
            WidgetKind::AreaSlider(d) => d,
            _ => unreached(),
        }
    }

    /// Whether the checkbox named `name` is checked.
    pub fn is_checked(&self, name: &str) -> (b: bool)
        requires
            found(self@.top_level, name@) matches Some(n) && n.kind is Checkbox,
        ensures
            found(self@.top_level, name@)->0.kind == (WidgetKind::<D>::Checkbox { enabled: b }),
    {
        match &self.find(name).kind {
            WidgetKind::Checkbox { enabled } => *enabled,
            _ => unreached(),
        }
    }

    /// Whether the checkbox named `name` is checked, or `None` when no widget has
    /// that name.
    pub fn maybe_is_checked(&self, name: &str) -> (r: Option<bool>)
        requires
            found(self@.top_level, name@) matches Some(n) ==> n.kind is Checkbox,
        ensures
            r is None <==> found(self@.top_level, name@) is None,
            r matches Some(b) ==> found(self@.top_level, name@)->0.kind == (WidgetKind::<
                D,
            >::Checkbox { enabled: b }),
    {
        if self.has_widget(name) {
            Some(self.is_checked(name))
        } else {
            None
        }
    }

    /// The line typed into the text box named `name`.
    pub fn text_box(&self, name: &str) -> (line: String)
        requires
            found(self@.top_level, name@) matches Some(n) && n.kind is TextBox,
        ensures
            found(self@.top_level, name@)->0.kind->line@ == line@,
    {
        match &self.find(name).kind {
            WidgetKind::TextBox { line } => line.clone(),
            _ => unreached(),
        }
    }

    /// The current value of the spinner named `name`.
    pub fn spinner(&self, name: &str) -> (v: isize)
        requires
            found(self@.top_level, name@) matches Some(n) && n.kind is Spinner,
        ensures
            found(self@.top_level, name@)->0.kind == (WidgetKind::<D>::Spinner { current: v }),
    {
        match &self.find(name).kind {
            WidgetKind::Spinner { current } => *current,
            _ => unreached(),
        }
    }

    /// The state of the dropdown named `name`, which holds its current value.
    pub fn dropdown_value(&self, name: &str) -> (d: &D)
        requires
            found(self@.top_level, name@) matches Some(n) && n.kind is Dropdown,
        ensures
            found(self@.top_level, name@)->0.kind == WidgetKind::Dropdown(*d),
    {
        match &self.find(name).kind {
            WidgetKind::Dropdown(d) => d,
            _ => unreached(),
        }
    }

    /// The state of the persistent split button named `name`, which holds its
    /// current value.
    pub fn persistent_split_value(&self, name: &str) -> (d: &D)
        requires
            found(self@.top_level, name@) matches Some(n) && n.kind is PersistentSplit,
        ensures
            found(self@.top_level, name@)->0.kind == WidgetKind::PersistentSplit(*d),
    {
        match &self.find(name).kind {
            WidgetKind::PersistentSplit(d) => d,
            _ => unreached(),
        }
    }

    /// The state of the autocomplete box named `name`, which holds what was chosen
    /// in it, if anything.
    pub fn autocomplete_done(&self, name: &str) -> (d: &D)
        requires
            found(self@.top_level, name@) matches Some(n) && n.kind is Autocomplete,
        ensures
            found(self@.top_level, name@)->0.kind == WidgetKind::Autocomplete(*d),
    {
        match &self.find(name).kind {
            WidgetKind::Autocomplete(d) => d,
            _ => unreached(),
        }
    }

    /// Replaces the widget named `id` by `new`, which keeps the style of the widget
    /// it replaces (its margins, padding and so on).
    pub fn replace(&mut self, id: &str, new: Widget<S, D>)
        requires
            old(self).wf(),
            new.wf(),
            found(old(self)@.top_level, id@) is Some,
            old(self)@.top_level.len() + new@.len() <= usize::MAX,
        ensures
            final(self).wf(),
            final(self)@ == (PanelView {
                top_level: replaced(
                    old(self)@.top_level,
                    find_index(old(self)@.top_level, id@)->0,
                    new@,
                ),
                ..old(self)@
            }),
    {
        self.top_level.replace(id, new);
    }

    /// The actions of all the panel's buttons; no two buttons of a panel share an
    /// action.
    pub fn get_all_click_actions(&self) -> (r: Vec<String>)
        requires
            click_actions(self@.top_level).no_duplicates(),
        ensures
            r@.map_values(|a: String| a@) == click_actions(self@.top_level),
    {
        self.top_level.click_actions()
    }
}

} // verus!
