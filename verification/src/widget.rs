//! The tree of widgets that a panel holds, stored in pre-order.
//!
//! A tree is kept as the sequence of its nodes in pre-order, each node carrying its
//! depth: the root has depth 0, and the members of a container follow it with the
//! container's depth plus one. The widgets below a node are exactly the nodes after
//! it that are deeper than it, up to the first one that is not.
use vstd::prelude::*;

verus! {

/// What a widget is, with the plain values that the panel reads from it.
///
/// `D` is the state of a widget that only the application interprets
/// (the position of a slider, the choices of a menu, ...).
pub enum WidgetKind<D> {
    Container,
    Button { action: String },
    Checkbox { enabled: bool },
    Spinner { current: isize },
    TextBox { line: String },
    Slider(D),
    AreaSlider(D),
    Menu(D),
    Dropdown(D),
    PersistentSplit(D),
    Autocomplete(D),
    Other(D),
}

/// One widget of a tree: its optional name, its flexbox style `S`, its kind and
/// its depth in the tree.
pub struct Node<S, D> {
    pub id: Option<String>,
    pub style: S,
    pub kind: WidgetKind<D>,
    pub depth: usize,
}

/// Whether a widget of kind `k` holds state that only the application interprets.
pub open spec fn holds_state<D>(k: WidgetKind<D>) -> bool {
    match k {
        WidgetKind::Slider(_) | WidgetKind::AreaSlider(_) | WidgetKind::Menu(_)
        | WidgetKind::Dropdown(_) | WidgetKind::PersistentSplit(_) | WidgetKind::Autocomplete(_)
        | WidgetKind::Other(_) => true,
        _ => false,
    }
}

/// The state held by a widget of kind `k`.
pub open spec fn state_of<D>(k: WidgetKind<D>) -> D
    recommends
        holds_state(k),
{
    match k {
        WidgetKind::Slider(d) => d,
        WidgetKind::AreaSlider(d) => d,
        WidgetKind::Menu(d) => d,
        WidgetKind::Dropdown(d) => d,
        WidgetKind::PersistentSplit(d) => d,
        WidgetKind::Autocomplete(d) => d,
        WidgetKind::Other(d) => d,
        _ => arbitrary(),
    }
}

/// A widget of kind `k` holding the state `d` instead: still of the same kind.
pub open spec fn with_state<D>(k: WidgetKind<D>, d: D) -> WidgetKind<D> {
    match k {
        WidgetKind::Slider(_) => WidgetKind::Slider(d),
        WidgetKind::AreaSlider(_) => WidgetKind::AreaSlider(d),
        WidgetKind::Menu(_) => WidgetKind::Menu(d),
        WidgetKind::Dropdown(_) => WidgetKind::Dropdown(d),
        WidgetKind::PersistentSplit(_) => WidgetKind::PersistentSplit(d),
        WidgetKind::Autocomplete(_) => WidgetKind::Autocomplete(d),
        WidgetKind::Other(_) => WidgetKind::Other(d),
        _ => k,
    }
}

/// Whether the node `n` carries the name `name`.
pub open spec fn is_named<S, D>(n: Node<S, D>, name: Seq<char>) -> bool {
    n.id matches Some(id) && id@ == name
}

/// A sequence of nodes is a tree in pre-order: one root at depth 0, and every
/// other node at least one level below the root and at most one level below the
/// node before it.
pub open spec fn well_formed<S, D>(s: Seq<Node<S, D>>) -> bool {
    &&& s.len() >= 1
    &&& s[0].depth == 0
    &&& forall|i: int| 1 <= i < s.len() ==> 1 <= #[trigger] s[i].depth <= s[i - 1].depth + 1
}

/// The index of the first node at or after `i` that carries `name`.
pub open spec fn find_from<S, D>(s: Seq<Node<S, D>>, name: Seq<char>, i: int) -> Option<int>
    decreases s.len() - i,
{
    if i < 0 || i >= s.len() {
        None
    } else if is_named(s[i], name) {
        Some(i)
    } else {
        find_from(s, name, i + 1)
    }
}

/// The index of the first node in pre-order that carries `name`.
pub open spec fn find_index<S, D>(s: Seq<Node<S, D>>, name: Seq<char>) -> Option<int> {
    find_from(s, name, 0)
}

/// What `find_from` returns is the first named node at or after `i`, and it finds
/// none exactly when no node from `i` on carries the name.
pub proof fn lemma_find_from<S, D>(s: Seq<Node<S, D>>, name: Seq<char>, i: int)
    requires
        0 <= i,
    ensures
        match find_from(s, name, i) {
            Some(k) => i <= k < s.len() && is_named(s[k], name) && forall|j: int|
                i <= j < k ==> !is_named(#[trigger] s[j], name),
            None => forall|j: int| i <= j < s.len() ==> !is_named(#[trigger] s[j], name),
        },
    decreases s.len() - i,
{
    if i < s.len() && !is_named(s[i], name) {
        lemma_find_from(s, name, i + 1);
    }
}

/// The position just after the widgets below node `i`, looking from position `j` on.
pub open spec fn subtree_end_from<S, D>(s: Seq<Node<S, D>>, i: int, j: int) -> int
    decreases s.len() - j,
{
    if j < 0 || j >= s.len() {
        s.len() as int
    } else if s[j].depth <= s[i].depth {
        j
    } else {
        subtree_end_from(s, i, j + 1)
    }
}

/// The position just after the last widget below node `i`: node `i` and its
/// members are the nodes from `i` up to it.
pub open spec fn subtree_end<S, D>(s: Seq<Node<S, D>>, i: int) -> int {
    subtree_end_from(s, i, i + 1)
}

/// The nodes `s` moved `d` levels down.
pub open spec fn shifted<S, D>(s: Seq<Node<S, D>>, d: int) -> Seq<Node<S, D>> {
    s.map_values(|n: Node<S, D>| Node { depth: (n.depth + d) as usize, ..n })
}

/// The nodes of a container's members, one member after the other, each one level
/// below the container.
pub open spec fn members_nodes<S, D>(ws: Seq<Seq<Node<S, D>>>) -> Seq<Node<S, D>>
    decreases ws.len(),
{
    if ws.len() == 0 {
        Seq::empty()
    } else {
        members_nodes(ws.drop_last()) + shifted(ws.last(), 1)
    }
}

/// The tree `s` with node `i` and everything below it replaced by the tree `new`,
/// whose top widget takes over the style of node `i`.
pub open spec fn replaced<S, D>(s: Seq<Node<S, D>>, i: int, new: Seq<Node<S, D>>) -> Seq<Node<
    S,
    D,
>> {
    let top = new.update(0, Node { style: s[i].style, ..new[0] });
    s.subrange(0, i) + shifted(top, s[i].depth as int) + s.subrange(
        subtree_end(s, i),
        s.len() as int,
    )
}

/// The button actions of the tree, in pre-order.
pub open spec fn click_actions<S, D>(s: Seq<Node<S, D>>) -> Seq<Seq<char>>
    decreases s.len(),
{
    if s.len() == 0 {
        Seq::empty()
    } else {
        let rest = click_actions(s.drop_last());
        match s.last().kind {
            WidgetKind::Button { action } => rest.push(action@),
            _ => rest,
        }
    }
}

/// The button actions of two trees one after the other are those of the first,
/// then those of the second.
pub proof fn lemma_click_actions_append<S, D>(a: Seq<Node<S, D>>, b: Seq<Node<S, D>>)
    ensures
        click_actions(a + b) == click_actions(a) + click_actions(b),
    decreases b.len(),
{
    if b.len() == 0 {
        assert(a + b =~= a);
        assert(click_actions(a) + click_actions(b) =~= click_actions(a));
    } else {
        lemma_click_actions_append(a, b.drop_last());
        assert((a + b).drop_last() =~= a + b.drop_last());
        assert((a + b).last() == b.last());
        let ca = click_actions(a);
        let cb = click_actions(b.drop_last());
        match b.last().kind {
            WidgetKind::Button { action } => {
                assert(ca + cb.push(action@) =~= (ca + cb).push(action@));
            },
            _ => {},
        }
    }
}

/// Trees whose nodes have the same kinds have the same button actions.
pub proof fn lemma_click_actions_same_kinds<S, D>(a: Seq<Node<S, D>>, b: Seq<Node<S, D>>)
    requires
        a.len() == b.len(),
        forall|k: int| 0 <= k < a.len() ==> #[trigger] a[k].kind == b[k].kind,
    ensures
        click_actions(a) == click_actions(b),
    decreases a.len(),
{
    if a.len() > 0 {
        lemma_click_actions_same_kinds(a.drop_last(), b.drop_last());
        assert(a.last().kind == b.last().kind);
    }
}

/// Moving widgets down the tree does not change their button actions.
pub proof fn lemma_click_actions_shifted<S, D>(s: Seq<Node<S, D>>, d: int)
    ensures
        click_actions(shifted(s, d)) == click_actions(s),
    decreases s.len(),
{
    if s.len() > 0 {
        lemma_click_actions_shifted(s.drop_last(), d);
        assert(shifted(s, d).drop_last() =~= shifted(s.drop_last(), d));
    }
}

/// Node `j`, looked at from `j0 <= j` on, stops the scan for the end of the
/// widgets below node `i` only where it is no deeper than `i`.
pub proof fn lemma_subtree_end<S, D>(s: Seq<Node<S, D>>, i: int, j: int)
    requires
        0 <= i < j,
    ensures
        j <= subtree_end_from(s, i, j) <= s.len() || (j > s.len() && subtree_end_from(s, i, j)
            == s.len()),
        forall|k: int| j <= k < subtree_end_from(s, i, j) ==> #[trigger] s[k].depth > s[i].depth,
        subtree_end_from(s, i, j) < s.len() ==> s[subtree_end_from(s, i, j)].depth <= s[i].depth,
    decreases s.len() - j,
{
    if j < s.len() && s[j].depth > s[i].depth {
        lemma_subtree_end(s, i, j + 1);
    }
}

/// In a tree, no node is deeper than its position.
pub proof fn lemma_depth_bound<S, D>(s: Seq<Node<S, D>>)
    requires
        well_formed(s),
    ensures
        forall|i: int| 0 <= i < s.len() ==> #[trigger] s[i].depth <= i,
{
    assert forall|i: int| 0 <= i < s.len() implies #[trigger] s[i].depth <= i by {
        lemma_depth_bound_at(s, i);
    }
}

proof fn lemma_depth_bound_at<S, D>(s: Seq<Node<S, D>>, i: int)
    requires
        well_formed(s),
        0 <= i < s.len(),
    ensures
        s[i].depth <= i,
    decreases i,
{
    if i > 0 {
        lemma_depth_bound_at(s, i - 1);
    }
}

/// A tree followed by a member one level down is still a tree.
proof fn lemma_append_member<S, D>(prefix: Seq<Node<S, D>>, m: Seq<Node<S, D>>)
    requires
        well_formed(prefix),
        well_formed(m),
        m.len() <= usize::MAX,
    ensures
        well_formed(prefix + shifted(m, 1)),
{
    let r = prefix + shifted(m, 1);
    lemma_depth_bound(m);
    assert forall|k: int| 1 <= k < r.len() implies 1 <= #[trigger] r[k].depth <= r[k - 1].depth
        + 1 by {
        if k > prefix.len() {
            assert(r[k] == shifted(m, 1)[k - prefix.len()]);
            assert(r[k - 1] == shifted(m, 1)[k - 1 - prefix.len()]);
            assert(1 <= m[k - prefix.len()].depth <= m[k - 1 - prefix.len()].depth + 1);
        } else if k == prefix.len() {
            assert(r[k] == shifted(m, 1)[0]);
        } else {
            assert(r[k] == prefix[k]);
            assert(r[k - 1] == prefix[k - 1]);
        }
    }
}

/// Replacing a widget of a tree by a tree gives a tree.
proof fn lemma_replaced_wf<S, D>(s: Seq<Node<S, D>>, i: int, new: Seq<Node<S, D>>)
    requires
        well_formed(s),
        well_formed(new),
        0 <= i < s.len(),
        forall|k: int| 0 <= k < new.len() ==> new[k].depth + s[i].depth <= usize::MAX,
    ensures
        well_formed(replaced(s, i, new)),
{
    let top = new.update(0, Node { style: s[i].style, ..new[0] });
    let b = shifted(top, s[i].depth as int);
    let e = subtree_end(s, i);
    lemma_subtree_end(s, i, i + 1);
    let r = replaced(s, i, new);
    let nb = b.len() as int;
    assert(r.len() == i + nb + (s.len() - e));
    assert forall|k: int| 0 <= k < nb implies #[trigger] r[i + k] == b[k] by {}
    assert forall|k: int| 0 <= k < i implies #[trigger] r[k] == s[k] by {}
    assert forall|k: int| i + nb <= k < r.len() implies #[trigger] r[k] == s[e + k - i - nb] by {}
    assert(r[0].depth == 0) by {
        if i == 0 {
            assert(r[0] == b[0]);
        } else {
            assert(r[0] == s[0]);
        }
    }
    assert forall|k: int| 1 <= k < r.len() implies 1 <= #[trigger] r[k].depth <= r[k - 1].depth
        + 1 by {
        if k < i {
            assert(r[k] == s[k]);
            assert(r[k - 1] == s[k - 1]);
        } else if k == i {
            assert(r[k] == b[0]);
            assert(r[k - 1] == s[k - 1]);
            assert(s[k].depth <= s[k - 1].depth + 1);
        } else if k < i + nb {
            assert(r[k] == b[k - i]);
            assert(r[k - 1] == b[k - 1 - i]);
            assert(1 <= top[k - i].depth <= top[k - 1 - i].depth + 1);
        } else if k == i + nb {
            assert(r[k] == s[e]);
            assert(r[k - 1] == b[nb - 1]);
            assert(s[e].depth >= 1);
        } else {
            assert(r[k] == s[e + k - i - nb]);
            assert(r[k - 1] == s[e + k - 1 - i - nb]);
            assert(s[e + k - i - nb].depth <= s[e + k - i - nb - 1].depth + 1);
        }
    }
}

/// The end of the widgets below node `i` is the first node after `i` that is no
/// deeper than `i`.
pub proof fn lemma_subtree_end_at<S, D>(s: Seq<Node<S, D>>, i: int, e: int)
    requires
        0 <= i < e <= s.len(),
        forall|k: int| i < k < e ==> #[trigger] s[k].depth > s[i].depth,
        e < s.len() ==> s[e].depth <= s[i].depth,
    ensures
        subtree_end(s, i) == e,
{
    lemma_subtree_end_from_at(s, i, i + 1, e);
}

proof fn lemma_subtree_end_from_at<S, D>(s: Seq<Node<S, D>>, i: int, j: int, e: int)
    requires
        0 <= i < j <= e <= s.len(),
        forall|k: int| i < k < e ==> #[trigger] s[k].depth > s[i].depth,
        e < s.len() ==> s[e].depth <= s[i].depth,
    ensures
        subtree_end_from(s, i, j) == e,
    decreases e - j,
{
    if j < e {
        lemma_subtree_end_from_at(s, i, j + 1, e);
    }
}

/// Replacing a widget by a tree keeps everything before it and everything after
/// the widgets below it; in its place stands the new tree, moved to its depth, whose
/// top widget has the style of the widget it replaces and the name and kind of the
/// new tree's top; and the widgets below it are exactly the new tree's.
pub proof fn lemma_replaced<S, D>(s: Seq<Node<S, D>>, i: int, new: Seq<Node<S, D>>)
    requires
        well_formed(s),
        well_formed(new),
        0 <= i < s.len(),
        s.len() + new.len() <= usize::MAX,
    ensures
        ({
            let r = replaced(s, i, new);
            let e = subtree_end(s, i);
            &&& r.len() == s.len() - (e - i) + new.len()
            &&& forall|k: int| 0 <= k < i ==> #[trigger] r[k] == s[k]
            &&& r[i].style == s[i].style
            &&& r[i].id == new[0].id
            &&& r[i].kind == new[0].kind
            &&& r[i].depth == s[i].depth
            &&& forall|k: int| 0 < k < new.len() ==> (#[trigger] r[i + k]).id == new[k].id
                && r[i + k].kind == new[k].kind && r[i + k].style == new[k].style
            &&& forall|k: int| e <= k < s.len() ==> #[trigger] r[k - e + i + new.len()] == s[k]
            &&& subtree_end(r, i) == i + new.len()
        }),
{
    let r = replaced(s, i, new);
    let e = subtree_end(s, i);
    let top = new.update(0, Node { style: s[i].style, ..new[0] });
    let b = shifted(top, s[i].depth as int);
    lemma_subtree_end(s, i, i + 1);
    lemma_depth_bound(s);
    lemma_depth_bound(new);
    assert forall|k: int| 0 <= k < new.len() implies #[trigger] b[k].depth == new[k].depth
        + s[i].depth by {
        assert(new[k].depth <= k);
        assert(s[i].depth <= i);
    }
    assert forall|k: int| e <= k < s.len() implies #[trigger] r[k - e + i + new.len()] == s[k] by {}
    assert(r[i] == b[0]);
    assert forall|k: int| 0 < k < new.len() implies (#[trigger] r[i + k]).id == new[k].id
        && r[i + k].kind == new[k].kind && r[i + k].style == new[k].style by {
        assert(r[i + k] == b[k]);
    }
    assert forall|k: int| i < k < i + new.len() implies #[trigger] r[k].depth > r[i].depth by {
        assert(r[k] == b[k - i]);
        assert(b[k - i].depth == new[k - i].depth + s[i].depth);
        assert(new[k - i].depth >= 1);
    }
    if i + new.len() < r.len() {
        assert(r[i + new.len()] == s[e]);
    }
    lemma_subtree_end_at(r, i, i + new.len());
}

/// Replacing the first widget named `name` by a tree whose top widget carries the
/// same name leaves that name finding the same position.
pub proof fn lemma_replace_keeps_name<S, D>(s: Seq<Node<S, D>>, name: Seq<char>, new: Seq<Node<S, D>>)
    requires
        well_formed(s),
        well_formed(new),
        find_index(s, name) is Some,
        is_named(new[0], name),
        s.len() + new.len() <= usize::MAX,
    ensures
        find_index(replaced(s, find_index(s, name)->0, new), name) == find_index(s, name),
{
    let i = find_index(s, name)->0;
    lemma_find_from(s, name, 0);
    lemma_replaced(s, i, new);
    let r = replaced(s, i, new);
    assert forall|j: int| 0 <= j < i implies !is_named(#[trigger] r[j], name) by {
        assert(r[j] == s[j]);
    }
    assert(is_named(r[i], name));
    lemma_find_first(r, name, i);
}

/// Moves every node of `nodes` `d` levels down.
fn shift_depths<S, D>(nodes: &mut Vec<Node<S, D>>, d: usize)
    requires
        forall|k: int| 0 <= k < old(nodes)@.len() ==> old(nodes)@[k].depth + d <= usize::MAX,
    ensures
        final(nodes)@ == shifted(old(nodes)@, d as int),
{
    let n = nodes.len();
    let mut k: usize = 0;
    while k < n
        invariant
            n == nodes@.len(),
            n == old(nodes)@.len(),
            k <= n,
            forall|j: int| 0 <= j < n ==> old(nodes)@[j].depth + d <= usize::MAX,
            forall|j: int|
                0 <= j < k ==> #[trigger] nodes@[j] == (Node { depth: (old(nodes)@[j].depth + d) as usize, ..old(nodes)@[j] }),
            forall|j: int| k <= j < n ==> #[trigger] nodes@[j] == old(nodes)@[j],
        decreases n - k,
    {
        let depth = nodes[k].depth + d;
        nodes[k].depth = depth;
        k = k + 1;
    }
    assert(nodes@ =~= shifted(old(nodes)@, d as int));
}

/// The first node carrying `name` is the one found.
pub proof fn lemma_find_first<S, D>(s: Seq<Node<S, D>>, name: Seq<char>, i: int)
    requires
        0 <= i < s.len(),
        is_named(s[i], name),
        forall|j: int| 0 <= j < i ==> !is_named(#[trigger] s[j], name),
    ensures
        find_index(s, name) == Some(i),
{
    lemma_find_from(s, name, 0);
}

/// Where no node carries `name`, none is found.
pub proof fn lemma_find_none<S, D>(s: Seq<Node<S, D>>, name: Seq<char>)
    requires
        forall|j: int| 0 <= j < s.len() ==> !is_named(#[trigger] s[j], name),
    ensures
        find_index(s, name) is None,
{
    lemma_find_from(s, name, 0);
}

/// A tree of widgets.
pub struct Widget<S, D> {
    nodes: Vec<Node<S, D>>,
}

impl<S, D> View for Widget<S, D> {
    type V = Seq<Node<S, D>>;

    closed spec fn view(&self) -> Seq<Node<S, D>> {
        self.nodes@
    }
}

impl<S, D> Widget<S, D> {
    /// The tree is well formed.
    pub open spec fn wf(&self) -> bool {
        well_formed(self@)
    }

    /// A widget with no members and no name.
    pub fn new(kind: WidgetKind<D>, style: S) -> (w: Self)
        ensures
            w.wf(),
            w@ == seq![Node { id: None, style, kind, depth: 0 }],
    {
        let mut nodes = Vec::new();
        nodes.push(Node { id: None, style, kind, depth: 0 });
        let w = Widget { nodes };
        assert(w@ == seq![Node { id: None, style, kind, depth: 0 }]) by {
            assert(w.nodes@ =~= seq![Node { id: None, style, kind, depth: 0 }]);
        }
        w
    }

    /// Gives the top widget of the tree the name `id`.
    pub fn named(self, id: &str) -> (w: Self)
        requires
            self.wf(),
        ensures
            w.wf(),
            w@ == self@.update(0, Node { id: w@[0].id, ..self@[0] }),
            is_named(w@[0], id@),
    {
        let mut nodes = self.nodes;
        nodes[0].id = Some(id.to_owned());
        let w = Widget { nodes };
        assert(w@ =~= self@.update(0, Node { id: w@[0].id, ..self@[0] }));
        w
    }

    /// A container holding `members` in order, with no name.
    pub fn container(style: S, members: Vec<Widget<S, D>>) -> (w: Self)
        requires
            forall|k: int| 0 <= k < members@.len() ==> (#[trigger] members@[k]).wf(),
        ensures
            w.wf(),
            w@ == seq![Node { id: None, style, kind: WidgetKind::<D>::Container, depth: 0 }]
                + members_nodes(members@.map_values(|m: Widget<S, D>| m@)),
    {
        let ghost all = members@.map_values(|m: Widget<S, D>| m@);
        let ghost root = seq![Node { id: None, style, kind: WidgetKind::<D>::Container, depth: 0 }];
        let mut nodes: Vec<Node<S, D>> = Vec::new();
        nodes.push(Node { id: None, style, kind: WidgetKind::Container, depth: 0 });
        assert(nodes@ =~= root + members_nodes(all.take(0)));
        let mut rest = members;
        let n = rest.len();
        let mut k: usize = 0;
        while k < n
            invariant
                n == members@.len(),
                k <= n,
                all == members@.map_values(|m: Widget<S, D>| m@),
                rest@ == members@.subrange(k as int, n as int),
                forall|j: int| 0 <= j < members@.len() ==> (#[trigger] members@[j]).wf(),
                nodes@ == root + members_nodes(all.take(k as int)),
                well_formed(nodes@),
            decreases n - k,
        {
            let m = rest.remove(0);
            assert(m == members@[k as int]);
            let mut fresh = m.nodes;
            proof {
                lemma_depth_bound(fresh@);
                assert(fresh@.len() == fresh.len());
            }
            shift_depths(&mut fresh, 1);
            proof {
                lemma_append_member(nodes@, m@);
            }
            nodes.append(&mut fresh);
            proof {
                assert(all.take(k + 1).drop_last() =~= all.take(k as int));
                assert(all.take(k + 1).last() == m@);
                assert(nodes@ =~= root + members_nodes(all.take(k + 1)));
            }
            assert(rest@ =~= members@.subrange(k + 1, n as int));
            k = k + 1;
        }
        assert(all.take(n as int) =~= all);
        Widget { nodes }
    }

    /// The position just after the last widget below the widget at position `i`.
    pub fn subtree_end(&self, i: usize) -> (e: usize)
        requires
            i < self@.len(),
        ensures
            e == subtree_end(self@, i as int),
    {
        let n = self.nodes.len();
        let depth = self.nodes[i].depth;
        let mut j = i + 1;
        while j < n && self.nodes[j].depth > depth
            invariant
                n == self@.len(),
                i < j <= n,
                depth == self@[i as int].depth,
                subtree_end(self@, i as int) == subtree_end_from(self@, i as int, j as int),
            decreases n - j,
        {
            j = j + 1;
        }
        j
    }

    /// Replaces the first widget named `id`, and everything below it, by `new`;
    /// the new top widget keeps the style of the widget it replaces.
    pub fn replace(&mut self, id: &str, new: Widget<S, D>)
        requires
            old(self).wf(),
            new.wf(),
            find_index(old(self)@, id@) is Some,
            old(self)@.len() + new@.len() <= usize::MAX,
        ensures
            final(self).wf(),
            final(self)@ == replaced(old(self)@, find_index(old(self)@, id@)->0, new@),
    {
        let i = self.find(id).unwrap();
        proof {
            lemma_find_from(old(self)@, id@, 0);
        }
        let e = self.subtree_end(i);
        let d = self.nodes[i].depth;
        proof {
            lemma_depth_bound(old(self)@);
            lemma_depth_bound(new@);
            lemma_subtree_end(old(self)@, i as int, i + 1);
            lemma_replaced_wf(old(self)@, i as int, new@);
        }
        let mut fresh = new.nodes;
        std::mem::swap(&mut fresh[0].style, &mut self.nodes[i].style);
        let ghost top = fresh@;
        assert(top == new@.update(0, Node { style: old(self)@[i as int].style, ..new@[0] }));
        shift_depths(&mut fresh, d);
        let mut tail = self.nodes.split_off(e);
        self.nodes.truncate(i);
        self.nodes.append(&mut fresh);
        self.nodes.append(&mut tail);
        assert(self@ =~= replaced(old(self)@, i as int, new@));
    }

    /// The actions of the tree's buttons, in pre-order; an action used by two
    /// buttons occurs twice.
    pub fn click_actions(&self) -> (r: Vec<String>)
        ensures
            r@.map_values(|a: String| a@) == click_actions(self@),
    {
        let n = self.nodes.len();
        let mut r: Vec<String> = Vec::new();
        let mut k: usize = 0;
        while k < n
            invariant
                n == self@.len(),
                k <= n,
                r@.map_values(|a: String| a@) == click_actions(self@.take(k as int)),
            decreases n - k,
        {
            match &self.nodes[k].kind {
                WidgetKind::Button { action } => {
                    r.push(action.clone());
                },
                _ => {},
            }
            proof {
                assert(self@.take(k + 1).drop_last() =~= self@.take(k as int));
                assert(self@.take(k + 1).last() == self@[k as int]);
                assert(r@.map_values(|a: String| a@) =~= click_actions(self@.take(k + 1)));
            }
            k = k + 1;
        }
        assert(self@.take(n as int) =~= self@);
        r
    }

    /// Whether two buttons of the tree share an action.
    pub fn has_duplicate_click_action(&self) -> (b: bool)
        ensures
            b == !click_actions(self@).no_duplicates(),
    {
        let actions = self.click_actions();
        let ghost v = actions@.map_values(|a: String| a@);
        let n = actions.len();
        let mut i: usize = 0;
        while i < n
            invariant
                n == actions@.len(),
                v == actions@.map_values(|a: String| a@),
                v == click_actions(self@),
                i <= n,
                forall|p: int, q: int| 0 <= p < q < i ==> v[p] != v[q],
            decreases n - i,
        {
            let mut j: usize = 0;
            while j < i
                invariant
                    n == actions@.len(),
                    v == actions@.map_values(|a: String| a@),
                    v == click_actions(self@),
                    j <= i < n,
                    forall|p: int| 0 <= p < j ==> v[p] != v[i as int],
                decreases i - j,
            {
                if actions[j] == actions[i] {
                    assert(v[j as int] == actions@[j as int]@);
                    assert(v[i as int] == actions@[i as int]@);
                    assert(!v.no_duplicates());
                    return true;
                }
                j = j + 1;
            }
            i = i + 1;
        }
        assert(v.no_duplicates());
        false
    }

    /// The state of the slider at position `i`, to change it in place.
    pub fn slider_mut(&mut self, i: usize) -> (d: &mut D)
        requires
            i < old(self)@.len(),
            old(self)@[i as int].kind is Slider,
        ensures
            old(self)@[i as int].kind == WidgetKind::Slider(*d),
            old(self).wf() ==> final(self).wf(),
            final(self)@ == old(self)@.update(
                i as int,
                Node { kind: WidgetKind::Slider(*final(d)), ..old(self)@[i as int] },
            ),
    {
        match &mut self.nodes[i].kind {
            WidgetKind::Slider(d) => d,
            _ => unreached(),
        }
    }

    /// The state of the widget at position `i`, which is one that holds state only
    /// the application interprets, to change it in place; the widget stays of its
    /// kind.
    pub fn state_mut(&mut self, i: usize) -> (d: &mut D)
        requires
            i < old(self)@.len(),
            holds_state(old(self)@[i as int].kind),
        ensures
            *d == state_of(old(self)@[i as int].kind),
            old(self).wf() ==> final(self).wf(),
            final(self)@ == old(self)@.update(
                i as int,
                Node { kind: with_state(old(self)@[i as int].kind, *final(d)), ..old(self)@[i as int] },
            ),
    {
        match &mut self.nodes[i].kind {
            WidgetKind::Slider(d) => d,
            WidgetKind::AreaSlider(d) => d,
            WidgetKind::Menu(d) => d,
            WidgetKind::Dropdown(d) => d,
            WidgetKind::PersistentSplit(d) => d,
            WidgetKind::Autocomplete(d) => d,
            WidgetKind::Other(d) => d,
            _ => unreached(),
        }
    }

    /// Gives the top widget of the tree the style `style`.
    pub fn with_top_style(self, style: S) -> (w: Self)
        requires
            self.wf(),
        ensures
            w.wf(),
            w@ == self@.update(0, Node { style, ..self@[0] }),
    {
        let mut nodes = self.nodes;
        nodes[0].style = style;
        let w = Widget { nodes };
        assert(w@ =~= self@.update(0, Node { style, ..self@[0] }));
        w
    }

    /// The number of widgets in the tree.
    pub fn len(&self) -> (n: usize)
        ensures
            n == self@.len(),
    {
        self.nodes.len()
    }

    /// The widget at position `i` in pre-order.
    pub fn node(&self, i: usize) -> (n: &Node<S, D>)
        requires
            i < self@.len(),
        ensures
            *n == self@[i as int],
    {
        &self.nodes[i]
    }

    /// The position of the first widget in pre-order named `name`, if there is one.
    pub fn find(&self, name: &str) -> (r: Option<usize>)
        ensures
            r matches Some(i) ==> find_index(self@, name@) == Some(i as int),
            r is None ==> find_index(self@, name@) is None,
    {
        let key = name.to_owned();
        let n = self.nodes.len();
        let mut i: usize = 0;
        while i < n
            invariant
                n == self@.len(),
                i <= n,
                key@ == name@,
                find_index(self@, name@) == find_from(self@, name@, i as int),
            decreases n - i,
        {
            let hit = match &self.nodes[i].id {
                Some(id) => *id == key,
                None => false,
            };
            if hit {
                return Some(i);
            }
            i = i + 1;
        }
        None
    }

    /// Whether some widget of the tree is named `name`.
    pub fn has_widget(&self, name: &str) -> (b: bool)
        ensures
            b == find_index(self@, name@) is Some,
    {
        self.find(name).is_some()
    }
}

} // verus!
