//! How links are drawn, and what else refers to a link by its name.

use vstd::prelude::*;
use vstd::string::*;

use crate::text::same;

verus! {

/// How meshes are drawn.
#[derive(Clone, Copy, PartialEq, Eq, Structural, Debug)]
pub enum DisplayMode {
    Off,
    Solid,
    Wireframe,
    Transparent,
    FlatShading,
    Points,
}

/// Which meshes of a link.
#[derive(Clone, Copy, PartialEq, Eq, Structural, Debug)]
pub enum MeshKind {
    Visual,
    Collision,
}

/// A link that is drawn otherwise than the rest.
pub struct ModeEntry {
    pub link: String,
    pub kind: MeshKind,
    pub mode: DisplayMode,
}

/// The links that are drawn otherwise than the rest.
pub struct DisplayModes {
    pub entries: Vec<ModeEntry>,
}

/// Whose meshes an entry speaks of.
pub open spec fn key(e: ModeEntry) -> (Seq<char>, MeshKind) {
    (e.link@, e.kind)
}

/// Entry `i` speaks of `k`.
pub open spec fn keyed(entries: Seq<ModeEntry>, k: (Seq<char>, MeshKind), i: int) -> bool {
    0 <= i < entries.len() && key(entries[i]) == k
}

impl View for DisplayModes {
    type V = Map<(Seq<char>, MeshKind), DisplayMode>;

    open spec fn view(&self) -> Map<(Seq<char>, MeshKind), DisplayMode> {
        Map::new(
            |k: (Seq<char>, MeshKind)| exists|i: int| keyed(self.entries@, k, i),
            |k: (Seq<char>, MeshKind)|
                self.entries@[choose|i: int| keyed(self.entries@, k, i)].mode,
        )
    }
}

/// How the meshes `k` are drawn where the rest is drawn as `global`.
pub open spec fn shown(
    m: Map<(Seq<char>, MeshKind), DisplayMode>,
    k: (Seq<char>, MeshKind),
    global: DisplayMode,
) -> DisplayMode {
    if m.dom().contains(k) {
        m[k]
    } else {
        global
    }
}

/// The modes after the user picked one for the meshes `k`. Where it is how the
/// rest is drawn they need none of their own.
pub open spec fn picked(
    m: Map<(Seq<char>, MeshKind), DisplayMode>,
    k: (Seq<char>, MeshKind),
    mode: DisplayMode,
    global: DisplayMode,
) -> Map<(Seq<char>, MeshKind), DisplayMode> {
    if mode == shown(m, k, global) {
        m
    } else if mode == global {
        m.remove(k)
    } else {
        m.insert(k, mode)
    }
}

/// Where the meshes `k` stand after the link `from` has been renamed `to`.
pub open spec fn moved(
    m: Map<(Seq<char>, MeshKind), DisplayMode>,
    from: Seq<char>,
    to: Seq<char>,
    kind: MeshKind,
) -> Map<(Seq<char>, MeshKind), DisplayMode> {
    if m.dom().contains((from, kind)) {
        m.remove((from, kind)).insert((to, kind), m[(from, kind)])
    } else {
        m
    }
}

/// The modes after the link `from` has been renamed `to`.
pub open spec fn renamed(
    m: Map<(Seq<char>, MeshKind), DisplayMode>,
    from: Seq<char>,
    to: Seq<char>,
) -> Map<(Seq<char>, MeshKind), DisplayMode> {
    moved(moved(m, from, to, MeshKind::Visual), from, to, MeshKind::Collision)
}

impl DisplayModes {
    /// No meshes have two entries.
    pub open spec fn valid(&self) -> bool {
        forall|i: int, j: int|
            0 <= i < j < self.entries@.len() ==> key(#[trigger] self.entries@[i]) != key(
                #[trigger] self.entries@[j],
            )
    }

    proof fn lemma_entry(&self, i: int)
        requires
            self.valid(),
            0 <= i < self.entries@.len(),
        ensures
            self@.dom().contains(key(self.entries@[i])),
            self@[key(self.entries@[i])] == self.entries@[i].mode,
    {
        let k = key(self.entries@[i]);
        assert(keyed(self.entries@, k, i));
        let j = choose|j: int| keyed(self.entries@, k, j);
        assert(j == i);
    }

    pub fn new() -> (r: DisplayModes)
        ensures
            r.valid(),
            r@ == Map::<(Seq<char>, MeshKind), DisplayMode>::empty(),
    {
        let r = DisplayModes { entries: Vec::new() };
        proof {
            assert(r@ =~= Map::<(Seq<char>, MeshKind), DisplayMode>::empty());
        }
        r
    }

    fn find(&self, link: &str, kind: MeshKind) -> (r: Option<usize>)
        requires
            self.valid(),
        ensures
            match r {
                Some(i) => {
                    &&& keyed(self.entries@, (link@, kind), i as int)
                    &&& self@.dom().contains((link@, kind))
                    &&& self@[(link@, kind)] == self.entries@[i as int].mode
                },
                None => {
                    &&& !self@.dom().contains((link@, kind))
                    &&& forall|j: int| !keyed(self.entries@, (link@, kind), j)
                },
            },
    {
        let mut i: usize = 0;
        while i < self.entries.len()
            invariant
                self.valid(),
                i <= self.entries.len(),
                forall|j: int| 0 <= j < i ==> !keyed(self.entries@, (link@, kind), j),
            decreases self.entries.len() - i,
        {
            if self.entries[i].kind == kind && same(self.entries[i].link.as_str(), link) {
                proof {
                    self.lemma_entry(i as int);
                }
                return Some(i);
            }
            i += 1;
        }
        None
    }

    /// The mode of a link's meshes, if it has one of its own.
    pub fn get(&self, link: &str, kind: MeshKind) -> (r: Option<DisplayMode>)
        requires
            self.valid(),
        ensures
            r == (if self@.dom().contains((link@, kind)) {
                Some(self@[(link@, kind)])
            } else {
                None
            }),
    {
        match self.find(link, kind) {
            Some(i) => Some(self.entries[i].mode),
            None => None,
        }
    }

    /// How a link's meshes are drawn where the rest is drawn as `global`.
    pub fn effective(&self, link: &str, kind: MeshKind, global: DisplayMode) -> (r: DisplayMode)
        requires
            self.valid(),
        ensures
            r == shown(self@, (link@, kind), global),
    {
        match self.get(link, kind) {
            Some(m) => m,
            None => global,
        }
    }

    /// Gives a link's meshes a mode of their own.
    pub fn set(&mut self, link: &str, kind: MeshKind, mode: DisplayMode)
        requires
            old(self).valid(),
        ensures
            final(self).valid(),
            final(self)@ == old(self)@.insert((link@, kind), mode),
    {
        let ghost was = *self;
        match self.find(link, kind) {
            Some(i) => {
                self.entries[i].mode = mode;
                proof {
                    let k = (link@, kind);
                    assert forall|a: int, b: int|
                        0 <= a < b < self.entries@.len() implies key(#[trigger] self.entries@[a])
                        != key(#[trigger] self.entries@[b]) by {
                        assert(key(self.entries@[a]) == key(was.entries@[a]));
                        assert(key(self.entries@[b]) == key(was.entries@[b]));
                    }
                    assert forall|q: (Seq<char>, MeshKind)| #[trigger]
                        self@.dom().contains(q) == was@.insert(k, mode).dom().contains(q) by {
                        if exists|j: int| keyed(self.entries@, q, j) {
                            let j = choose|j: int| keyed(self.entries@, q, j);
                            assert(keyed(was.entries@, q, j));
                        }
                        if exists|j: int| keyed(was.entries@, q, j) {
                            let j = choose|j: int| keyed(was.entries@, q, j);
                            assert(keyed(self.entries@, q, j));
                        }
                    }
                    assert forall|q: (Seq<char>, MeshKind)|
                        self@.dom().contains(q) implies #[trigger] self@[q] == was@.insert(k, mode)[q] by {
                        let j = choose|j: int| keyed(self.entries@, q, j);
                        self.lemma_entry(j);
                        was.lemma_entry(j);
                    }
                    assert(self@ =~= was@.insert(k, mode));
                }
            },
            None => {
                self.entries.push(ModeEntry { link: link.to_owned(), kind, mode });
                proof {
                    let k = (link@, kind);
                    let n = was.entries@.len() as int;
                    assert forall|a: int, b: int|
                        0 <= a < b < self.entries@.len() implies key(#[trigger] self.entries@[a])
                        != key(#[trigger] self.entries@[b]) by {
                        assert(key(self.entries@[a]) == key(was.entries@[a]));
                        if b == n {
                            assert(!keyed(was.entries@, k, a));
                        }
                    }
                    assert forall|q: (Seq<char>, MeshKind)| #[trigger]
                        self@.dom().contains(q) == was@.insert(k, mode).dom().contains(q) by {
                        if exists|j: int| keyed(self.entries@, q, j) {
                            let j = choose|j: int| keyed(self.entries@, q, j);
                            if j < n {
                                assert(keyed(was.entries@, q, j));
                            }
                        }
                        if exists|j: int| keyed(was.entries@, q, j) {
                            let j = choose|j: int| keyed(was.entries@, q, j);
                            assert(keyed(self.entries@, q, j));
                        }
                        if q == k {
                            assert(keyed(self.entries@, q, n));
                        }
                    }
                    assert forall|q: (Seq<char>, MeshKind)|
                        self@.dom().contains(q) implies #[trigger] self@[q] == was@.insert(k, mode)[q] by {
                        let j = choose|j: int| keyed(self.entries@, q, j);
                        self.lemma_entry(j);
                        if j < n {
                            was.lemma_entry(j);
                        }
                    }
                    assert(self@ =~= was@.insert(k, mode));
                }
            },
        }
    }

    /// Lets a link's meshes be drawn like the rest again.
    pub fn remove(&mut self, link: &str, kind: MeshKind) -> (r: Option<DisplayMode>)
        requires
            old(self).valid(),
        ensures
            final(self).valid(),
            final(self)@ == old(self)@.remove((link@, kind)),
            r == (if old(self)@.dom().contains((link@, kind)) {
                Some(old(self)@[(link@, kind)])
            } else {
                None
            }),
    {
        let ghost was = *self;
        match self.find(link, kind) {
            Some(i) => {
                let gone: ModeEntry = self.entries.remove(i);
                proof {
                    let k = (link@, kind);
                    assert forall|a: int| 0 <= a < self.entries@.len() implies (
                    #[trigger] self.entries@[a]) == was.entries@[if a < i {
                        a
                    } else {
                        a + 1
                    }] by {}
                    assert forall|q: (Seq<char>, MeshKind)| #[trigger]
                        self@.dom().contains(q) == was@.remove(k).dom().contains(q) by {
                        if exists|j: int| keyed(self.entries@, q, j) {
                            let j = choose|j: int| keyed(self.entries@, q, j);
                            let o = if j < i {
                                j
                            } else {
                                j + 1
                            };
                            assert(self.entries@[j] == was.entries@[o]);
                            assert(keyed(was.entries@, q, o));
                        }
                        if q != k && exists|j: int| keyed(was.entries@, q, j) {
                            let j = choose|j: int| keyed(was.entries@, q, j);
                            let o = if j < i {
                                j
                            } else {
                                j - 1
                            };
                            assert(self.entries@[o] == was.entries@[j]);
                            assert(keyed(self.entries@, q, o));
                        }
                    }
                    assert forall|q: (Seq<char>, MeshKind)|
                        self@.dom().contains(q) implies #[trigger] self@[q] == was@.remove(k)[q] by {
                        let j = choose|j: int| keyed(self.entries@, q, j);
                        self.lemma_entry(j);
                        let o = if j < i {
                            j
                        } else {
                            j + 1
                        };
                        assert(self.entries@[j] == was.entries@[o]);
                        was.lemma_entry(o);
                    }
                    assert(self@ =~= was@.remove(k));
                }
                Some(gone.mode)
            },
            None => {
                proof {
                    assert(self@ =~= was@.remove((link@, kind)));
                }
                None
            },
        }
    }

    /// The user picked a mode for a link's meshes.
    pub fn pick(&mut self, link: &str, kind: MeshKind, mode: DisplayMode, global: DisplayMode)
        requires
            old(self).valid(),
        ensures
            final(self).valid(),
            final(self)@ == picked(old(self)@, (link@, kind), mode, global),
    {
        let shown: DisplayMode = self.effective(link, kind, global);
        if mode != shown {
            if mode == global {
                let _before = self.remove(link, kind);
            } else {
                self.set(link, kind, mode);
            }
        }
    }

    fn rename_kind(&mut self, from: &str, to: &str, kind: MeshKind)
        requires
            old(self).valid(),
        ensures
            final(self).valid(),
            final(self)@ == moved(old(self)@, from@, to@, kind),
    {
        let ghost was = self@;
        match self.remove(from, kind) {
            Some(mode) => self.set(to, kind, mode),
            None => {
                proof {
                    assert(self@ =~= was);
                }
            },
        }
    }

    /// A link was renamed.
    pub fn rename(&mut self, from: &str, to: &str)
        requires
            old(self).valid(),
        ensures
            final(self).valid(),
            final(self)@ == renamed(old(self)@, from@, to@),
    {
        self.rename_kind(from, to, MeshKind::Visual);
        self.rename_kind(from, to, MeshKind::Collision);
    }
}

/// What was picked for a link's meshes is how they are drawn, and others are not
/// touched.
pub proof fn law_picked_mode_is_shown(
    m: Map<(Seq<char>, MeshKind), DisplayMode>,
    k: (Seq<char>, MeshKind),
    other: (Seq<char>, MeshKind),
    mode: DisplayMode,
    global: DisplayMode,
)
    requires
        other != k,
    ensures
        shown(picked(m, k, mode, global), k, global) == mode,
        shown(picked(m, k, mode, global), other, global) == shown(m, other, global),
{
}

/// What constrains a pinned link.
#[derive(Clone, Copy, PartialEq, Eq, Structural, Debug)]
pub enum PinDof {
    Position,
    Pose,
}

/// A link that is held while others are dragged. `P` is where.
pub struct PinnedLink<P> {
    pub link_name: String,
    pub target: P,
    pub dof: PinDof,
}

/// Everything of the editor that refers to a link by its name.
pub struct LinkRefs<P> {
    pub pinned_links: Vec<PinnedLink<P>>,
    pub link_display_modes: DisplayModes,
    pub ik_root_link: Option<String>,
    pub dynamics_ee_link: Option<String>,
}

/// An optional name as a value of contracts.
pub open spec fn name_view(n: Option<String>) -> Option<Seq<char>> {
    match n {
        Some(s) => Some(s@),
        None => None,
    }
}

/// A name after `from` has been renamed `to`.
pub open spec fn now_called(name: Seq<char>, from: Seq<char>, to: Seq<char>) -> Seq<char> {
    if name == from {
        to
    } else {
        name
    }
}

fn rename_option(name: &mut Option<String>, from: &str, to: &str)
    ensures
        name_view(*final(name)) == match name_view(*old(name)) {
            Some(n) => Some(now_called(n, from@, to@)),
            None => None,
        },
{
    let hit: bool = match name {
        Some(n) => same(n.as_str(), from),
        None => false,
    };
    if hit {
        *name = Some(to.to_owned());
    }
}

impl<P> LinkRefs<P> {
    pub open spec fn valid(&self) -> bool {
        self.link_display_modes.valid()
    }

    /// A link was renamed: every reference to it follows.
    pub fn update_link_name_refs(&mut self, from: &str, to: &str)
        requires
            old(self).valid(),
        ensures
            final(self).valid(),
            final(self).pinned_links@.len() == old(self).pinned_links@.len(),
            forall|i: int|
                0 <= i < final(self).pinned_links@.len() ==> {
                    let now = #[trigger] final(self).pinned_links@[i];
                    let was = old(self).pinned_links@[i];
                    &&& now.link_name@ == now_called(was.link_name@, from@, to@)
                    &&& now.target == was.target
                    &&& now.dof == was.dof
                },
            final(self).link_display_modes@ == renamed(
                old(self).link_display_modes@,
                from@,
                to@,
            ),
            name_view(final(self).ik_root_link) == match name_view(old(self).ik_root_link) {
                Some(n) => Some(now_called(n, from@, to@)),
                None => None,
            },
            name_view(final(self).dynamics_ee_link) == match name_view(
                old(self).dynamics_ee_link,
            ) {
                Some(n) => Some(now_called(n, from@, to@)),
                None => None,
            },
    {
        let ghost was = self.pinned_links@;
        let mut i: usize = 0;
        while i < self.pinned_links.len()
            invariant
                i <= self.pinned_links.len(),
                self.pinned_links@.len() == was.len(),
                *self == (LinkRefs { pinned_links: self.pinned_links, ..*old(self) }),
                forall|j: int|
                    0 <= j < i ==> {
                        let now = #[trigger] self.pinned_links@[j];
                        &&& now.link_name@ == now_called(was[j].link_name@, from@, to@)
                        &&& now.target == was[j].target
                        &&& now.dof == was[j].dof
                    },
                forall|j: int| i <= j < was.len() ==> #[trigger] self.pinned_links@[j] == was[j],
            decreases self.pinned_links.len() - i,
        {
            if same(self.pinned_links[i].link_name.as_str(), from) {
                self.pinned_links[i].link_name = to.to_owned();
            }
            i += 1;
        }
        self.link_display_modes.rename(from, to);
        rename_option(&mut self.ik_root_link, from, to);
        rename_option(&mut self.dynamics_ee_link, from, to);
    }
}

/// After a rename nothing refers to the old name any more.
pub proof fn law_rename_leaves_no_old_name(
    m: Map<(Seq<char>, MeshKind), DisplayMode>,
    name: Seq<char>,
    from: Seq<char>,
    to: Seq<char>,
    kind: MeshKind,
)
    requires
        from != to,
    ensures
        !renamed(m, from, to).dom().contains((from, kind)),
        now_called(name, from, to) != from,
{
}

/// A rename carries a link's modes over and leaves those of other links alone.
pub proof fn law_rename_carries_modes(
    m: Map<(Seq<char>, MeshKind), DisplayMode>,
    other: Seq<char>,
    from: Seq<char>,
    to: Seq<char>,
    kind: MeshKind,
)
    requires
        other != from,
        other != to,
    ensures
        m.dom().contains((from, kind)) ==> renamed(m, from, to).dom().contains((to, kind))
            && renamed(m, from, to)[(to, kind)] == m[(from, kind)],
        renamed(m, from, to).dom().contains((other, kind)) == m.dom().contains((other, kind)),
        m.dom().contains((other, kind)) ==> renamed(m, from, to)[(other, kind)] == m[(other, kind)],
{
}

} // verus!
