use vstd::prelude::*;
use crate::handler::HandlerWrapper;

verus! {

/// The cached bounds of a widget, in pixels.
#[derive(Clone, Copy, PartialEq, Eq, Structural, Debug)]
pub struct Bounds {
    pub left: i64,
    pub top: i64,
    pub right: i64,
    pub bottom: i64,
}

/// One widget in the graph: a weak parent back-reference (an id, never
/// ownership), the ordered child ids it owns, its event handlers and its
/// cached bounds.
pub struct Widget {
    pub parent: Option<usize>,
    pub children: Vec<usize>,
    pub handlers: Vec<HandlerWrapper>,
    pub bounds: Bounds,
}

/// Field-wise equality of widgets, over the views of their vectors.
pub open spec fn widget_eq(a: Widget, b: Widget) -> bool {
    &&& a.parent == b.parent
    &&& a.children@ == b.children@
    &&& a.handlers@ == b.handlers@
    &&& a.bounds == b.bounds
}

/// One node of a detached widget tree under construction. `rel_parent`
/// is an index into the builder's own node list.
pub struct BuilderNode {
    pub rel_parent: Option<usize>,
    pub width: i64,
    pub height: i64,
    pub handlers: Vec<HandlerWrapper>,
}

/// A fully formed, detached widget together with its already-linked
/// subtree, laid out as a small arena: node 0 is the subtree root, and
/// every other node names an earlier node as its parent. The graph takes
/// ownership of the whole subtree on insertion.
pub struct WidgetBuilder {
    pub nodes: Vec<BuilderNode>,
}

impl WidgetBuilder {
    pub open spec fn wf(self) -> bool {
        &&& self.nodes@.len() >= 1
        &&& self.nodes@[0].rel_parent is None
        &&& forall|k: int|
            1 <= k < self.nodes@.len() ==> ((#[trigger] self.nodes@[k].rel_parent) matches Some(j)
                && j < k)
    }

    /// A detached single widget with no handlers and zero size.
    pub fn new() -> (b: WidgetBuilder)
        ensures
            b.wf(),
            b.nodes@.len() == 1,
            b.nodes@[0].rel_parent is None,
            b.nodes@[0].width == 0 && b.nodes@[0].height == 0,
            b.nodes@[0].handlers@.len() == 0,
    {
        let mut nodes: Vec<BuilderNode> = Vec::new();
        nodes.push(BuilderNode { rel_parent: None, width: 0, height: 0, handlers: Vec::new() });
        WidgetBuilder { nodes }
    }

    /// Adds an event handler to the root widget of this builder.
    pub fn add_handler(&mut self, h: HandlerWrapper)
        requires
            old(self).wf(),
        ensures
            final(self).wf(),
            final(self).nodes@.len() == old(self).nodes@.len(),
            final(self).nodes@[0].handlers@ == old(self).nodes@[0].handlers@.push(h),
            final(self).nodes@[0].rel_parent == old(self).nodes@[0].rel_parent,
            final(self).nodes@[0].width == old(self).nodes@[0].width,
            final(self).nodes@[0].height == old(self).nodes@[0].height,
            forall|k: int|
                1 <= k < old(self).nodes@.len() ==> #[trigger] final(self).nodes@[k] == old(
                    self,
                ).nodes@[k],
    {
        let n = &mut self.nodes[0];
        n.handlers.push(h);
    }

    /// Requests a size for the root widget of this builder.
    pub fn dimensions(&mut self, width: i64, height: i64)
        requires
            old(self).wf(),
        ensures
            final(self).wf(),
            final(self).nodes@.len() == old(self).nodes@.len(),
            final(self).nodes@[0].width == width,
            final(self).nodes@[0].height == height,
            final(self).nodes@[0].rel_parent == old(self).nodes@[0].rel_parent,
            final(self).nodes@[0].handlers@ == old(self).nodes@[0].handlers@,
            forall|k: int|
                1 <= k < old(self).nodes@.len() ==> #[trigger] final(self).nodes@[k] == old(
                    self,
                ).nodes@[k],
    {
        let n = &mut self.nodes[0];
        n.width = width;
        n.height = height;
    }

    /// Attaches another detached subtree as the last child of this
    /// builder's root widget, consuming it.
    pub fn add_child(&mut self, child: WidgetBuilder)
        requires
            old(self).wf(),
            child.wf(),
            old(self).nodes@.len() + child.nodes@.len() <= usize::MAX,
        ensures
            final(self).wf(),
            final(self).nodes@.len() == old(self).nodes@.len() + child.nodes@.len(),
            forall|k: int|
                0 <= k < old(self).nodes@.len() ==> #[trigger] final(self).nodes@[k] == old(
                    self,
                ).nodes@[k],
            forall|k: int|
                #![trigger child.nodes@[k]]
                0 <= k < child.nodes@.len() ==> {
                    let m = old(self).nodes@.len() + k;
                    &&& final(self).nodes@[m].rel_parent == (if k == 0 {
                        Some(0usize)
                    } else {
                        Some((old(self).nodes@.len() + child.nodes@[k].rel_parent.unwrap()) as usize)
                    })
                    &&& final(self).nodes@[m].width == child.nodes@[k].width
                    &&& final(self).nodes@[m].height == child.nodes@[k].height
                    &&& final(self).nodes@[m].handlers@ == child.nodes@[k].handlers@
                },
    {
        let offset = self.nodes.len();
        let mut rest = child.nodes;
        let ghost orig = rest@;
        let ghost base = self.nodes@;
        let mut k: usize = 0;
        while rest.len() > 0
            invariant
                orig.len() >= 1,
                k + rest.len() == orig.len(),
                rest@ == orig.skip(k as int),
                offset == base.len(),
                offset + orig.len() <= usize::MAX,
                self.nodes@.len() == offset + k,
                forall|j: int| 0 <= j < base.len() ==> #[trigger] self.nodes@[j] == base[j],
                orig[0].rel_parent is None,
                forall|j: int|
                    1 <= j < orig.len() ==> ((#[trigger] orig[j].rel_parent) matches Some(p) && p
                        < j),
                forall|j: int|
                    #![trigger orig[j]]
                    0 <= j < k ==> {
                        let m = offset + j;
                        &&& self.nodes@[m].rel_parent == (if j == 0 {
                            Some(0usize)
                        } else {
                            Some((offset + orig[j].rel_parent.unwrap()) as usize)
                        })
                        &&& self.nodes@[m].width == orig[j].width
                        &&& self.nodes@[m].height == orig[j].height
                        &&& self.nodes@[m].handlers@ == orig[j].handlers@
                    },
            decreases rest.len(),
        {
            let n = rest.remove(0);
            proof {
                assert(rest@ =~= orig.skip(k + 1int));
            }
            let rel_parent = if k == 0 {
                Some(0usize)
            } else {
                match n.rel_parent {
                    Some(p) => Some(offset + p),
                    None => Some(0usize),  // unreachable for a well-formed subtree
                }
            };
            self.nodes.push(
                BuilderNode { rel_parent, width: n.width, height: n.height, handlers: n.handlers },
            );
            k = k + 1;
        }
        proof {
            let fin = self.nodes@;
            assert forall|k2: int| 1 <= k2 < fin.len() implies ((#[trigger] fin[k2].rel_parent)
                matches Some(j) && j < k2) by {
                if k2 >= base.len() {
                    let j = k2 - base.len();
                    if j != 0 {
                        assert(orig[j].rel_parent is Some && orig[j].rel_parent.unwrap() < j);
                    }
                }
            }
        }
    }
}

/// Whether all elements of a sequence are distinct.
pub open spec fn distinct_seq(s: Seq<usize>) -> bool {
    forall|i: int, j: int| 0 <= i < j < s.len() ==> s[i] != s[j]
}

/// An arena-owned tree of widgets. Ids are slot indexes, assigned
/// monotonically and never reused; a removed widget leaves a dead slot
/// behind, so a dangling id simply resolves to nothing.
pub struct WidgetGraph {
    nodes: Vec<Widget>,
    live: Vec<bool>,
    root: Option<usize>,
    dirty: bool,
}

impl WidgetGraph {
    /// How many ids have ever been assigned (dead slots included).
    pub closed spec fn len(self) -> nat {
        self.live@.len()
    }

    /// Whether `id` names a widget currently in the graph.
    pub closed spec fn alive(self, id: usize) -> bool {
        id < self.live@.len() && self.live@[id as int]
    }

    /// The widget stored at `id` (meaningful only while `alive(id)`).
    pub closed spec fn node(self, id: usize) -> Widget {
        self.nodes@[id as int]
    }

    /// The root id, if a root has been set and not removed.
    pub closed spec fn root_id(self) -> Option<usize> {
        self.root
    }

    /// Whether the whole graph has been marked for re-paint.
    pub closed spec fn dirty_spec(self) -> bool {
        self.dirty
    }

    /// The structural invariant: the graph is a tree. Every non-root
    /// widget has exactly one parent, parent ids precede child ids (so
    /// there are no cycles), parent and child lists agree, and child
    /// lists never repeat an id.
    pub closed spec fn wf(self) -> bool {
        &&& self.nodes@.len() == self.live@.len()
        &&& (self.root matches Some(r) ==> self.alive(r) && self.node(r).parent is None)
        &&& (self.root is None ==> forall|i: usize| !self.alive(i))
        &&& forall|i: usize|
            #[trigger] self.alive(i) ==> (self.node(i).parent is None <==> self.root == Some(i))
        &&& forall|i: usize|
            #[trigger] self.alive(i) && self.node(i).parent is Some ==> {
                let p = self.node(i).parent.unwrap();
                &&& self.alive(p)
                &&& p < i
                &&& self.node(p).children@.contains(i)
            }
        &&& forall|i: usize, k: int|
            #[trigger] self.alive(i) && 0 <= k < self.node(i).children@.len() ==> {
                let c = #[trigger] self.node(i).children@[k];
                &&& self.alive(c)
                &&& i < c
                &&& self.node(c).parent == Some(i)
            }
        &&& forall|i: usize| #[trigger] self.alive(i) ==> distinct_seq(self.node(i).children@)
    }

    /// Whether `x` lies in the subtree rooted at `a` (inclusive),
    /// following parent links upward.
    pub open spec fn is_desc(self, x: usize, a: usize) -> bool
        decreases x,
    {
        x == a || (self.alive(x) && (self.node(x).parent matches Some(p) && p < x
            && self.is_desc(p, a)))
    }

    /// An empty graph with no root.
    pub fn new() -> (g: WidgetGraph)
        ensures
            g.wf(),
            g.len() == 0,
            g.root_id() is None,
            !g.dirty_spec(),
            forall|i: usize| !(#[trigger] g.alive(i)),
    {
        WidgetGraph { nodes: Vec::new(), live: Vec::new(), root: None, dirty: false }
    }

    /// Inserts one fresh widget, either as the graph's root (when
    /// `parent` is `None`, allowed only while no root exists) or as the
    /// last child of `parent`.
    fn new_node(&mut self, parent: Option<usize>, handlers: Vec<HandlerWrapper>, width: i64, height: i64) -> (id: usize)
        requires
            old(self).wf(),
            old(self).len() < usize::MAX,
            match parent {
                Some(p) => old(self).alive(p),
                None => old(self).root_id() is None,
            },
        ensures
            final(self).wf(),
            id == old(self).len(),
            final(self).len() == old(self).len() + 1,
            final(self).alive(id),
            !old(self).alive(id),
            final(self).node(id).parent == parent,
            final(self).node(id).children@.len() == 0,
            final(self).node(id).handlers@ == handlers@,
            final(self).node(id).bounds == (Bounds { left: 0, top: 0, right: width, bottom: height }),
            forall|x: usize| #[trigger] final(self).alive(x) <==> (old(self).alive(x) || x == id),
            forall|x: usize|
                #[trigger] old(self).alive(x) && Some(x) != parent ==> widget_eq(
                    final(self).node(x),
                    old(self).node(x),
                ),
            parent matches Some(p) ==> {
                &&& final(self).node(p).children@ == old(self).node(p).children@.push(id)
                &&& final(self).node(p).parent == old(self).node(p).parent
                &&& final(self).node(p).handlers@ == old(self).node(p).handlers@
                &&& final(self).node(p).bounds == old(self).node(p).bounds
            },
            final(self).root_id() == (if parent is None { Some(id) } else { old(self).root_id() }),
            final(self).dirty_spec() == old(self).dirty_spec(),
    {
        let id = self.live.len();
        self.nodes.push(
            Widget {
                parent,
                children: Vec::new(),
                handlers,
                bounds: Bounds { left: 0, top: 0, right: width, bottom: height },
            },
        );
        self.live.push(true);
        match parent {
            Some(p) => {
                let w = &mut self.nodes[p];
                w.children.push(id);
            },
            None => {
                self.root = Some(id);
            },
        }
        proof {
            let fin = *self;
            let oldg = *old(self);
            assert(fin.nodes@.len() == fin.live@.len());
            assert forall|x: usize| #[trigger] fin.alive(x) implies (oldg.alive(x) || x == id) by {}
            match parent {
                None => {
                    assert(fin.root_id() == Some(id));
                },
                Some(p) => {
                    assert(oldg.alive(p));
                    if oldg.root_id() is None {
                        assert(!oldg.alive(p));
                        assert(false);
                    }
                    let r = oldg.root_id().unwrap();
                    assert(oldg.alive(r));
                    assert(fin.alive(r));
                    if r == p {
                        assert(fin.node(r).parent == oldg.node(r).parent);
                    } else {
                        assert(widget_eq(fin.node(r), oldg.node(r)));
                    }
                    assert(fin.node(r).parent is None);
                },
            }
            assert forall|i: usize| #[trigger] fin.alive(i) implies (fin.node(i).parent is None
                <==> fin.root_id() == Some(i)) by {
                if i == id {
                    match parent {
                        None => {},
                        Some(p) => {
                            let r = oldg.root_id().unwrap();
                            assert(oldg.alive(r));
                            assert(r != id);
                        },
                    }
                } else {
                    assert(oldg.alive(i));
                    if Some(i) == parent {
                        assert(fin.node(i).parent == oldg.node(i).parent);
                    } else {
                        assert(widget_eq(fin.node(i), oldg.node(i)));
                    }
                    match parent {
                        None => {
                            assert(oldg.root_id() is None);
                            assert(oldg.node(i).parent is Some);
                        },
                        Some(p) => {},
                    }
                }
            }
            assert forall|i: usize|
                #[trigger] fin.alive(i) && fin.node(i).parent is Some implies {
                let p = fin.node(i).parent.unwrap();
                &&& fin.alive(p)
                &&& p < i
                &&& fin.node(p).children@.contains(i)
            } by {
                if i != id {
                    assert(old(self).alive(i));
                    let p = fin.node(i).parent.unwrap();
                    if Some(p) == parent {
                        assert(old(self).node(p).children@.contains(i));
                        let k = choose|k: int|
                            0 <= k < old(self).node(p).children@.len() && old(self).node(
                                p,
                            ).children@[k] == i;
                        assert(fin.node(p).children@[k] == i);
                    }
                } else {
                    let p = parent.unwrap();
                    let c = fin.node(p).children@;
                    assert(c[c.len() - 1] == id);
                }
            }
            assert forall|i: usize, k: int|
                #[trigger] fin.alive(i) && 0 <= k < fin.node(i).children@.len() implies {
                let c = #[trigger] fin.node(i).children@[k];
                &&& fin.alive(c)
                &&& i < c
                &&& fin.node(c).parent == Some(i)
            } by {
                if Some(i) == parent && k == fin.node(i).children@.len() - 1 {
                } else {
                    assert(old(self).alive(i));
                    assert(fin.node(i).children@[k] == old(self).node(i).children@[k]);
                }
            }
            assert forall|i: usize| #[trigger] fin.alive(i) implies distinct_seq(
                fin.node(i).children@,
            ) by {
                if Some(i) == parent {
                    let oldc = old(self).node(i).children@;
                    let newc = fin.node(i).children@;
                    assert forall|a: int, b: int| 0 <= a < b < newc.len() implies newc[a]
                        != newc[b] by {
                        if b == newc.len() - 1 {
                            assert(newc[a] == oldc[a]);
                            assert(old(self).alive(oldc[a]));
                        }
                    }
                } else if old(self).alive(i) {
                    assert(fin.node(i).children@ == old(self).node(i).children@);
                }
            }
        }
        id
    }

    /// Consumes a detached widget (with its already-attached subtree) as
    /// the graph's root. At most one root may ever be set.
    pub fn set_root(&mut self, builder: WidgetBuilder) -> (id: usize)
        requires
            old(self).wf(),
            old(self).root_id() is None,
            builder.wf(),
            old(self).len() + builder.nodes@.len() <= usize::MAX,
        ensures
            final(self).wf(),
            final(self).root_id() == Some(id),
            final(self).alive(id),
            id == old(self).len(),
            final(self).len() == old(self).len() + builder.nodes@.len(),
            inserted_subtree(*old(self), *final(self), *final(self), id, builder),
            final(self).dirty_spec() == old(self).dirty_spec(),
            forall|x: usize| #[trigger] final(self).alive(x) <==> (old(self).alive(x) || (id <= x < id + builder.nodes@.len())),
    {
        self.insert_subtree(None, builder)
    }

    /// Inserts a detached widget (with its subtree) as the last child of
    /// `parent_id`, and returns the id of the inserted subtree's root.
    pub fn add_child(&mut self, parent_id: usize, builder: WidgetBuilder) -> (id: usize)
        requires
            old(self).wf(),
            old(self).alive(parent_id),
            builder.wf(),
            old(self).len() + builder.nodes@.len() <= usize::MAX,
        ensures
            final(self).wf(),
            final(self).alive(id),
            id == old(self).len(),
            final(self).len() == old(self).len() + builder.nodes@.len(),
            final(self).node(id).parent == Some(parent_id),
            final(self).node(parent_id).children@ == old(self).node(parent_id).children@.push(id),
            inserted_subtree(*old(self), *final(self), *final(self), id, builder),
            final(self).root_id() == old(self).root_id(),
            final(self).dirty_spec() == old(self).dirty_spec(),
            forall|x: usize| #[trigger] final(self).alive(x) <==> (old(self).alive(x) || (id <= x < id + builder.nodes@.len())),
            forall|x: usize|
                #[trigger] old(self).alive(x) && x != parent_id ==> widget_eq(
                    final(self).node(x),
                    old(self).node(x),
                ),
    {
        self.insert_subtree(Some(parent_id), builder)
    }

    /// Inserts every node of `builder`, mapping builder-relative parent
    /// indexes to graph ids starting at the current length.
    fn insert_subtree(&mut self, parent: Option<usize>, builder: WidgetBuilder) -> (id: usize)
        requires
            old(self).wf(),
            builder.wf(),
            old(self).len() + builder.nodes@.len() <= usize::MAX,
            match parent {
                Some(p) => old(self).alive(p),
                None => old(self).root_id() is None,
            },
        ensures
            final(self).wf(),
            final(self).alive(id),
            id == old(self).len(),
            final(self).len() == old(self).len() + builder.nodes@.len(),
            final(self).node(id).parent == parent,
            inserted_subtree(*old(self), *final(self), *final(self), id, builder),
            final(self).root_id() == (if parent is None { Some(id) } else { old(self).root_id() }),
            final(self).dirty_spec() == old(self).dirty_spec(),
            forall|x: usize| #[trigger] final(self).alive(x) <==> (old(self).alive(x) || (id <= x < id + builder.nodes@.len())),
            forall|x: usize|
                #[trigger] old(self).alive(x) && Some(x) != parent ==> widget_eq(
                    final(self).node(x),
                    old(self).node(x),
                ),
            parent matches Some(p) ==> {
                &&& final(self).node(p).children@ == old(self).node(p).children@.push(id)
                &&& final(self).node(p).parent == old(self).node(p).parent
                &&& final(self).node(p).handlers@ == old(self).node(p).handlers@
                &&& final(self).node(p).bounds == old(self).node(p).bounds
            },
    {
        let ghost g0 = *self;
        let base = self.live.len();
        let mut rest = builder.nodes;
        let ghost orig = rest@;
        let mut k: usize = 0;
        while rest.len() > 0
            invariant
                self.wf(),
                orig.len() >= 1,
                k + rest.len() == orig.len(),
                1 <= k || rest.len() == orig.len(),
                rest@ == orig.skip(k as int),
                base == g0.len(),
                g0.wf(),
                base + orig.len() <= usize::MAX,
                self.len() == base + k,
                orig[0].rel_parent is None,
                forall|j: int|
                    1 <= j < orig.len() ==> ((#[trigger] orig[j].rel_parent) matches Some(p) && p
                        < j),
                match parent {
                    Some(p) => g0.alive(p),
                    None => g0.root_id() is None,
                },
                k >= 1 ==> self.alive(base),
                k >= 1 ==> self.node(base).parent == parent,
                self.root_id() == (if parent is None && k >= 1 {
                    Some(base)
                } else {
                    g0.root_id()
                }),
                self.dirty_spec() == g0.dirty_spec(),
                forall|x: usize| #[trigger] self.alive(x) <==> (g0.alive(x) || (base <= x < base + k)),
                forall|x: usize|
                    #[trigger] g0.alive(x) && Some(x) != parent ==> widget_eq(
                        self.node(x),
                        g0.node(x),
                    ),
                k >= 1 ==> (parent matches Some(p) ==> {
                    &&& self.node(p).children@ == g0.node(p).children@.push(base)
                    &&& self.node(p).parent == g0.node(p).parent
                    &&& self.node(p).handlers@ == g0.node(p).handlers@
                    &&& self.node(p).bounds == g0.node(p).bounds
                }),
                k == 0 ==> (parent matches Some(p) ==> widget_eq(self.node(p), g0.node(p))),
                orig == builder.nodes@,
                forall|j: int|
                    #![trigger orig[j]]
                    0 <= j < k ==> {
                        let m = (base + j) as usize;
                        &&& self.node(m).parent == (if j == 0 {
                            parent
                        } else {
                            Some((base + orig[j].rel_parent.unwrap()) as usize)
                        })
                        &&& self.node(m).children@ == builder_children(
                            builder,
                            j,
                            k as int,
                            base as int,
                        )
                        &&& self.node(m).handlers@ == orig[j].handlers@
                        &&& self.node(m).bounds == (Bounds {
                            left: 0,
                            top: 0,
                            right: orig[j].width,
                            bottom: orig[j].height,
                        })
                    },
            decreases rest.len(),
        {
            let n = rest.remove(0);
            proof {
                assert(rest@ =~= orig.skip(k + 1int));
                assert(n == orig[k as int]);
            }
            let p_id: Option<usize> = if k == 0 {
                parent
            } else {
                proof {
                    assert(orig[k as int].rel_parent is Some);
                    assert(orig[k as int].rel_parent.unwrap() < k);
                }
                match n.rel_parent {
                    Some(p) => {
                        proof {
                            assert(self.alive((base + p) as usize));
                        }
                        Some(base + p)
                    },
                    None => {
                        proof {
                            assert(false);
                        }
                        parent
                    },
                }
            };
            let ghost pre = *self;
            proof {
                assert(self.len() < usize::MAX);
            }
            self.new_node(p_id, n.handlers, n.width, n.height);
            proof {
                assert forall|j: int|
                    #![trigger orig[j]]
                    0 <= j < k + 1 implies {
                    let m = (base + j) as usize;
                    &&& self.node(m).parent == (if j == 0 {
                        parent
                    } else {
                        Some((base + orig[j].rel_parent.unwrap()) as usize)
                    })
                    &&& self.node(m).children@ == builder_children(
                        builder,
                        j,
                        k + 1int,
                        base as int,
                    )
                    &&& self.node(m).handlers@ == orig[j].handlers@
                    &&& self.node(m).bounds == (Bounds {
                        left: 0,
                        top: 0,
                        right: orig[j].width,
                        bottom: orig[j].height,
                    })
                } by {
                    let m = (base + j) as usize;
                    if j == k {
                        lemma_builder_children_empty(builder, j, k + 1int, base as int);
                        assert(self.node(m).children@ =~= builder_children(
                            builder,
                            j,
                            k + 1int,
                            base as int,
                        ));
                    } else {
                        assert(pre.alive(m));
                        if Some(m) == p_id {
                            assert(k >= 1);
                            let rel = orig[k as int].rel_parent.unwrap() as int;
                            assert(base + rel == base + j);
                            assert(builder.nodes@[k as int].rel_parent == Some(j as usize));
                            assert(self.node(m).children@ == pre.node(m).children@.push(
                                ((base + k) as usize),
                            ));
                            assert(builder_children(builder, j, k + 1int, base as int)
                                == builder_children(builder, j, k as int, base as int) + seq![
                                ((base + k) as usize),
                            ]);
                            assert(self.node(m).children@ =~= builder_children(
                                builder,
                                j,
                                k + 1int,
                                base as int,
                            ));
                        } else {
                            assert(widget_eq(self.node(m), pre.node(m)));
                            assert(!(0 <= j && builder.nodes@[k as int].rel_parent == Some(
                                j as usize,
                            ))) by {
                                if builder.nodes@[k as int].rel_parent == Some(j as usize) {
                                    if k == 0 {
                                        assert(orig[0].rel_parent is None);
                                    } else {
                                        assert(p_id == Some(
                                            ((base + orig[k as int].rel_parent.unwrap()) as usize),
                                        ));
                                    }
                                }
                            }
                            assert(builder_children(builder, j, k + 1int, base as int)
                                =~= builder_children(builder, j, k as int, base as int));
                        }
                    }
                }
                assert forall|x: usize|
                    #[trigger] g0.alive(x) && Some(x) != parent implies widget_eq(
                    self.node(x),
                    g0.node(x),
                ) by {
                    assert(pre.alive(x));
                    assert(widget_eq(pre.node(x), g0.node(x)));
                    if p_id != Some(x) {
                        assert(widget_eq(self.node(x), pre.node(x)));
                    } else {
                        assert(k >= 1);
                        assert(g0.alive(x) && base <= x);
                        assert(x < base + orig.len());
                        assert(!g0.alive(x));
                    }
                }
            }
            k = k + 1;
        }
        proof {
            assert(inserted_subtree(g0, *self, *self, base, builder));
        }
        base
    }
}

/// The graph children builder node `k` receives when the builder is
/// inserted with its nodes at ids `base..`: one child per node among the
/// first `upto` that names `k` as its parent, in node order.
pub open spec fn builder_children(b: WidgetBuilder, k: int, upto: int, base: int) -> Seq<usize>
    decreases upto,
{
    if upto <= 1 {
        Seq::empty()
    } else {
        builder_children(b, k, upto - 1, base) + (if 0 <= k && b.nodes@[upto - 1].rel_parent
            == Some(k as usize) {
            seq![((base + upto - 1) as usize)]
        } else {
            Seq::empty()
        })
    }
}

/// A builder node has no children among the nodes at or before it, since
/// every node names an earlier node as its parent.
proof fn lemma_builder_children_empty(b: WidgetBuilder, k: int, upto: int, base: int)
    requires
        b.wf(),
        k <= usize::MAX,
        upto <= k + 1,
        upto <= b.nodes@.len(),
    ensures
        builder_children(b, k, upto, base) == Seq::<usize>::empty(),
    decreases upto,
{
    if upto > 1 {
        lemma_builder_children_empty(b, k, upto - 1, base);
        assert(b.nodes@[upto - 1].rel_parent matches Some(j) && j < upto - 1);
        assert(builder_children(b, k, upto, base) =~= Seq::<usize>::empty());
    }
}

/// How a graph `g` relates to `g0` after inserting `builder` with its
/// root at `id`: each builder node stands at `id + k`, parents mapped
/// into the graph, children exactly the builder's links in node order,
/// handlers and requested size carried over. `gd` supplies the data (so
/// the claim can also be read against a later graph that has not touched
/// these nodes).
pub open spec fn inserted_subtree(
    g0: WidgetGraph,
    g: WidgetGraph,
    gd: WidgetGraph,
    id: usize,
    builder: WidgetBuilder,
) -> bool {
    forall|k: int|
        #![trigger builder.nodes@[k]]
        0 <= k < builder.nodes@.len() ==> {
            let m = (id + k) as usize;
            &&& gd.node(m).parent == (if k == 0 {
                g.node(m).parent
            } else {
                Some((id + builder.nodes@[k].rel_parent.unwrap()) as usize)
            })
            &&& gd.node(m).children@ == builder_children(
                builder,
                k,
                builder.nodes@.len() as int,
                id as int,
            )
            &&& gd.node(m).handlers@ == builder.nodes@[k].handlers@
            &&& gd.node(m).bounds == (Bounds {
                left: 0,
                top: 0,
                right: builder.nodes@[k].width,
                bottom: builder.nodes@[k].height,
            })
        }
}


/// Whether `b` is `a` with one occurrence of `v` taken out.
pub open spec fn seq_remove_one(a: Seq<usize>, v: usize, b: Seq<usize>) -> bool {
    exists|i: int| 0 <= i < a.len() && a[i] == v && b == a.take(i) + a.skip(i + 1)
}

impl WidgetGraph {
    /// The pre-order listing of the subtree rooted at `id`: the root
    /// first, then each child's subtree in child order. This defines the
    /// delivery order for subtree-addressed events: ancestors before
    /// descendants.
    pub open spec fn preorder(self, id: usize) -> Seq<usize>
        decreases self.len() - id, 1int, 0int,
            when self.wf() && self.alive(id)
            via Self::preorder_dec
    {
        seq![id] + self.preorder_from(id, 0)
    }

    /// The concatenated pre-order listings of the subtrees of children
    /// `k..` of `id`.
    pub open spec fn preorder_from(self, id: usize, k: int) -> Seq<usize>
        decreases self.len() - id, 0int, self.node(id).children@.len() - k,
            when self.wf() && self.alive(id) && 0 <= k <= self.node(id).children@.len()
            via Self::preorder_from_dec
    {
        if k >= self.node(id).children@.len() {
            Seq::empty()
        } else {
            self.preorder(self.node(id).children@[k]) + self.preorder_from(id, k + 1)
        }
    }

    #[via_fn]
    proof fn preorder_dec(self, id: usize) {
    }

    #[via_fn]
    proof fn preorder_from_dec(self, id: usize, k: int) {
        if k < self.node(id).children@.len() {
            assert(self.alive(id));
            let c = self.node(id).children@[k];
            assert(self.alive(c) && id < c);
        }
    }

    /// A living widget's id is below the number of ids ever assigned.
    pub proof fn lemma_alive_bound(self, x: usize)
        ensures
            self.alive(x) ==> x < self.len(),
    {
    }

    /// In a well-formed graph, a widget that is not in the graph has no
    /// descendants among the living.
    pub proof fn lemma_dead_not_desc(self, x: usize, a: usize)
        requires
            self.wf(),
            self.alive(x),
            !self.alive(a),
        ensures
            !self.is_desc(x, a),
        decreases x,
    {
        if let Some(p) = self.node(x).parent {
            assert(self.alive(p));
            self.lemma_dead_not_desc(p, a);
        }
    }

    /// Descendancy is transitive.
    proof fn lemma_desc_trans(self, x: usize, y: usize, z: usize)
        requires
            self.is_desc(x, y),
            self.is_desc(y, z),
        ensures
            self.is_desc(x, z),
        decreases x,
    {
        if x != y {
            let p = self.node(x).parent.unwrap();
            self.lemma_desc_trans(p, y, z);
        }
    }

    /// Every widget in the graph lies in the subtree of the root: the id
    /// set reachable from the root is exactly the set of living ids.
    pub proof fn lemma_reachable_from_root(self, x: usize)
        requires
            self.wf(),
            self.alive(x),
        ensures
            self.root_id() is Some,
            self.is_desc(x, self.root_id().unwrap()),
        decreases x,
    {
        if let Some(p) = self.node(x).parent {
            assert(self.alive(p));
            self.lemma_reachable_from_root(p);
        } else {
            assert(self.root_id() == Some(x));
        }
    }

    /// A strict descendant of `a` descends through one of `a`'s children.
    proof fn lemma_desc_step(self, x: usize, a: usize)
        requires
            self.wf(),
            self.is_desc(x, a),
            x != a,
            self.alive(a),
        ensures
            exists|j: int|
                0 <= j < self.node(a).children@.len() && self.is_desc(
                    x,
                    #[trigger] self.node(a).children@[j],
                ),
        decreases x,
    {
        let p = self.node(x).parent.unwrap();
        if p == a {
            assert(self.node(a).children@.contains(x));
            let j = choose|j: int|
                0 <= j < self.node(a).children@.len() && self.node(a).children@[j] == x;
            assert(self.is_desc(x, self.node(a).children@[j]));
        } else {
            self.lemma_desc_step(p, a);
            let j = choose|j: int|
                0 <= j < self.node(a).children@.len() && self.is_desc(
                    p,
                    #[trigger] self.node(a).children@[j],
                );
            assert(self.is_desc(x, self.node(a).children@[j]));
        }
    }

    /// The pre-order listing of `id` holds exactly the subtree of `id`.
    pub proof fn lemma_preorder_desc(self, id: usize)
        requires
            self.wf(),
            self.alive(id),
        ensures
            forall|x: usize| self.preorder(id).contains(x) <==> self.is_desc(x, id),
        decreases self.len() - id, 1int, 0int,
    {
        self.lemma_preorder_from_desc(id, 0);
        assert forall|x: usize| self.preorder(id).contains(x) implies self.is_desc(x, id) by {
            if x != id {
                assert(self.preorder_from(id, 0).contains(x));
                let j = choose|j: int|
                    0 <= j < self.node(id).children@.len() && self.is_desc(
                        x,
                        #[trigger] self.node(id).children@[j],
                    );
                let c = self.node(id).children@[j];
                assert(self.is_desc(id, id));
                assert(self.is_desc(c, id));
                self.lemma_desc_trans(x, c, id);
            }
        }
        assert forall|x: usize| self.is_desc(x, id) implies self.preorder(id).contains(x) by {
            if x == id {
                assert(self.preorder(id)[0] == id);
            } else {
                self.lemma_desc_step(x, id);
                let j = choose|j: int|
                    0 <= j < self.node(id).children@.len() && self.is_desc(
                        x,
                        #[trigger] self.node(id).children@[j],
                    );
                assert(self.preorder_from(id, 0).contains(x));
                let i = choose|i: int|
                    0 <= i < self.preorder_from(id, 0).len() && self.preorder_from(id, 0)[i] == x;
                assert(self.preorder(id)[i + 1] == x);
            }
        }
    }

    /// The listings of children `k..` hold exactly what descends through
    /// one of those children.
    proof fn lemma_preorder_from_desc(self, id: usize, k: int)
        requires
            self.wf(),
            self.alive(id),
            0 <= k <= self.node(id).children@.len(),
        ensures
            forall|x: usize|
                self.preorder_from(id, k).contains(x) <==> exists|j: int|
                    k <= j < self.node(id).children@.len() && self.is_desc(
                        x,
                        #[trigger] self.node(id).children@[j],
                    ),
        decreases self.len() - id, 0int, self.node(id).children@.len() - k,
    {
        if k < self.node(id).children@.len() {
            let c = self.node(id).children@[k];
            self.lemma_preorder_desc(c);
            self.lemma_preorder_from_desc(id, k + 1);
            assert forall|x: usize| self.preorder_from(id, k).contains(x) implies exists|j: int|
                k <= j < self.node(id).children@.len() && self.is_desc(
                    x,
                    #[trigger] self.node(id).children@[j],
                ) by {
                let s = self.preorder(c) + self.preorder_from(id, k + 1);
                let i = choose|i: int| 0 <= i < s.len() && s[i] == x;
                if i < self.preorder(c).len() {
                    assert(self.preorder(c).contains(x));
                    assert(self.is_desc(x, self.node(id).children@[k]));
                } else {
                    assert(self.preorder_from(id, k + 1).contains(x));
                }
            }
            assert forall|x: usize|
                (exists|j: int|
                    k <= j < self.node(id).children@.len() && self.is_desc(
                        x,
                        #[trigger] self.node(id).children@[j],
                    )) implies self.preorder_from(id, k).contains(x) by {
                let j = choose|j: int|
                    k <= j < self.node(id).children@.len() && self.is_desc(
                        x,
                        #[trigger] self.node(id).children@[j],
                    );
                if j == k {
                    assert(self.preorder(c).contains(x));
                    let i = choose|i: int|
                        0 <= i < self.preorder(c).len() && self.preorder(c)[i] == x;
                    assert(self.preorder_from(id, k)[i] == x);
                } else {
                    assert(self.preorder_from(id, k + 1).contains(x));
                    let s2 = self.preorder_from(id, k + 1);
                    let i = choose|i: int| 0 <= i < s2.len() && s2[i] == x;
                    assert(self.preorder_from(id, k)[self.preorder(c).len() + i] == x);
                }
            }
        }
    }

    /// Resolves a subtree address: every widget under `id` (inclusive),
    /// in pre-order. Ancestors come before descendants, children in
    /// order, left to right.
    pub fn widgets_under(&self, id: usize) -> (r: Vec<usize>)
        requires
            self.wf(),
            self.alive(id),
        ensures
            r@ == self.preorder(id),
        decreases self.len() - id,
    {
        let mut r: Vec<usize> = Vec::new();
        r.push(id);
        let count = self.nodes[id].children.len();
        let mut k: usize = 0;
        while k < count
            invariant
                self.wf(),
                self.alive(id),
                count == self.node(id).children@.len(),
                0 <= k <= count,
                r@ + self.preorder_from(id, k as int) == self.preorder(id),
            decreases count - k,
        {
            let c = self.nodes[id].children[k];
            proof {
                assert(self.alive(c) && id < c);
            }
            let mut sub = self.widgets_under(c);
            let ghost rpre = r@;
            r.append(&mut sub);
            proof {
                assert(r@ + self.preorder_from(id, k + 1int) =~= rpre + self.preorder_from(
                    id,
                    k as int,
                ));
            }
            k = k + 1;
        }
        proof {
            assert(r@ =~= self.preorder(id));
        }
        r
    }

    /// Removes the widget `id` and its entire subtree from the graph.
    /// Safe against dangling ids: removing an id that is not in the
    /// graph changes nothing.
    pub fn remove_widget(&mut self, id: usize)
        requires
            old(self).wf(),
        ensures
            final(self).wf(),
            final(self).len() == old(self).len(),
            forall|x: usize|
                #[trigger] final(self).alive(x) <==> (old(self).alive(x) && !old(self).is_desc(
                    x,
                    id,
                )),
            forall|x: usize|
                #[trigger] final(self).alive(x) ==> {
                    let a = old(self).node(x);
                    let b = final(self).node(x);
                    &&& b.parent == a.parent
                    &&& b.handlers@ == a.handlers@
                    &&& b.bounds == a.bounds
                    &&& if a.children@.contains(id) {
                        seq_remove_one(a.children@, id, b.children@)
                    } else {
                        b.children@ == a.children@
                    }
                },
            final(self).root_id() == (if old(self).root_id() == Some(id) {
                None::<usize>
            } else {
                old(self).root_id()
            }),
            final(self).dirty_spec() == old(self).dirty_spec(),
    {
        let ghost g0 = *self;
        if !self.is_alive(id) {
            proof {
                assert forall|x: usize| #[trigger] g0.alive(x) implies !g0.is_desc(x, id) by {
                    g0.lemma_dead_not_desc(x, id);
                }
                if g0.root_id() == Some(id) {
                    assert(g0.alive(id));
                }
            }
            return ;
        }
        let list = self.widgets_under(id);
        proof {
            self.lemma_preorder_desc(id);
            assert forall|i: int| 0 <= i < list@.len() implies g0.alive(#[trigger] list@[i]) by {
                assert(g0.preorder(id).contains(list@[i]));
                assert(g0.is_desc(list@[i], id));
            }
        }
        // Detach `id` from its parent's child list (or clear the root).
        match self.nodes[id].parent {
            Some(p) => {
                proof {
                    assert(g0.alive(p));
                    assert(g0.node(p).children@.contains(id));
                }
                let w = &mut self.nodes[p];
                let n = w.children.len();
                let mut idx: usize = 0;
                while idx < n && w.children[idx] != id
                    invariant
                        n == w.children@.len(),
                        0 <= idx <= n,
                        w.children@ == g0.node(p).children@,
                        g0.node(p).children@.contains(id),
                        forall|m: int| 0 <= m < idx ==> w.children@[m] != id,
                    decreases n - idx,
                {
                    idx = idx + 1;
                }
                proof {
                    if idx >= n {
                        let j = choose|j: int|
                            0 <= j < g0.node(p).children@.len() && g0.node(p).children@[j] == id;
                        assert(false);
                    }
                }
                w.children.remove(idx);
                proof {
                    assert(self.nodes@[p as int].children@ =~= g0.node(p).children@.take(idx as int)
                        + g0.node(p).children@.skip(idx + 1int));
                }
            },
            None => {
                proof {
                    assert(g0.root_id() == Some(id));
                }
                self.root = None;
            },
        }
        let ghost g1 = *self;
        // Kill every slot in the collected subtree.
        let mut i: usize = 0;
        while i < list.len()
            invariant
                0 <= i <= list@.len(),
                self.nodes@ == g1.nodes@,
                self.root == g1.root,
                self.dirty == g1.dirty,
                self.live@.len() == g1.live@.len(),
                forall|j: int| 0 <= j < list@.len() ==> 0 <= #[trigger] list@[j] < g1.live@.len(),
                forall|x: usize|
                    x < self.live@.len() ==> #[trigger] self.live@[x as int] == (g1.live@[x as int]
                        && !list@.take(i as int).contains(x)),
            decreases list@.len() - i,
        {
            let x = list[i];
            let e = &mut self.live[x];
            *e = false;
            proof {
                assert(list@.take(i + 1int) =~= list@.take(i as int).push(list@[i as int]));
                assert forall|y: usize| y < self.live@.len() implies #[trigger] self.live@[y as int]
                    == (g1.live@[y as int] && !list@.take(i + 1int).contains(y)) by {
                    let sa = list@.take(i + 1int);
                    let sb = list@.take(i as int);
                    if y == x {
                        assert(sa[i as int] == x);
                        assert(sa.contains(x));
                    } else {
                        if sa.contains(y) {
                            let j = choose|j: int| 0 <= j < sa.len() && sa[j] == y;
                            if j < i {
                                assert(sb[j] == y);
                                assert(sb.contains(y));
                            }
                        }
                        if sb.contains(y) {
                            let j = choose|j: int| 0 <= j < sb.len() && sb[j] == y;
                            assert(sa[j] == y);
                            assert(sa.contains(y));
                        }
                    }
                }
            }
            i = i + 1;
        }
        proof {
            let fin = *self;
            assert(list@.take(list@.len() as int) =~= list@);
            // What the kill loop achieved, in terms of the original graph.
            assert forall|x: usize| #[trigger] fin.alive(x) <==> (g0.alive(x) && !g0.is_desc(
                x,
                id,
            )) by {
                if x < fin.live@.len() {
                    assert(fin.live@[x as int] == (g1.live@[x as int] && !list@.take(
                        list@.len() as int,
                    ).contains(x)));
                    assert(g0.preorder(id).contains(x) <==> g0.is_desc(x, id));
                }
            }
            assert forall|x: usize| #[trigger] fin.alive(x) implies {
                let a = g0.node(x);
                let b = fin.node(x);
                &&& b.parent == a.parent
                &&& b.handlers@ == a.handlers@
                &&& b.bounds == a.bounds
                &&& if a.children@.contains(id) {
                    seq_remove_one(a.children@, id, b.children@)
                } else {
                    b.children@ == a.children@
                }
            } by {
                if g0.node(x).children@.contains(id) {
                    assert(g0.alive(x));
                    let j = choose|j: int|
                        0 <= j < g0.node(x).children@.len() && g0.node(x).children@[j] == id;
                    assert(g0.node(id).parent == Some(x));
                    assert(x == g0.node(id).parent.unwrap());
                }
            }
            // The graph is still a tree.
            assert forall|x: usize| #[trigger] fin.alive(x) && fin.node(x).parent is Some implies {
                let p = fin.node(x).parent.unwrap();
                &&& fin.alive(p)
                &&& p < x
                &&& fin.node(p).children@.contains(x)
            } by {
                let p = fin.node(x).parent.unwrap();
                assert(g0.alive(x) && !g0.is_desc(x, id));
                assert(g0.node(x).parent == Some(p));
                assert(g0.alive(p));
                if g0.is_desc(p, id) {
                    assert(g0.is_desc(x, id));
                }
                assert(fin.alive(p));
                if g0.node(p).children@.contains(id) {
                    let oldc = g0.node(p).children@;
                    let j = choose|j: int| 0 <= j < oldc.len() && oldc[j] == id;
                    let newc = fin.node(p).children@;
                    assert(seq_remove_one(oldc, id, newc));
                    let jj = choose|jj: int|
                        0 <= jj < oldc.len() && oldc[jj] == id && newc == oldc.take(jj)
                            + oldc.skip(jj + 1);
                    let m = choose|m: int| 0 <= m < oldc.len() && oldc[m] == x;
                    assert(x != id);
                    if m < jj {
                        assert(newc[m] == x);
                    } else {
                        assert(m > jj);
                        assert(newc[m - 1] == x);
                    }
                    assert(newc.contains(x));
                } else {
                    assert(fin.node(p).children@ == g0.node(p).children@);
                }
            }
            assert forall|x: usize, k: int|
                #[trigger] fin.alive(x) && 0 <= k < fin.node(x).children@.len() implies {
                let c = #[trigger] fin.node(x).children@[k];
                &&& fin.alive(c)
                &&& x < c
                &&& fin.node(c).parent == Some(x)
            } by {
                let c = fin.node(x).children@[k];
                assert(g0.alive(x) && !g0.is_desc(x, id));
                let oldc = g0.node(x).children@;
                if oldc.contains(id) {
                    let jj = choose|jj: int|
                        0 <= jj < oldc.len() && oldc[jj] == id && fin.node(x).children@
                            == oldc.take(jj) + oldc.skip(jj + 1);
                    if k < jj {
                        assert(oldc[k] == c);
                    } else {
                        assert(oldc[k + 1] == c);
                    }
                    assert(c != id) by {
                        if k < jj {
                            assert(oldc[k] == c && oldc[jj] == id);
                        } else {
                            assert(oldc[k + 1] == c && oldc[jj] == id);
                        }
                    }
                } else {
                    assert(oldc[k] == c);
                    assert(c != id) by {
                        if c == id {
                            assert(oldc.contains(id));
                        }
                    }
                }
                assert(oldc.contains(c));
                assert(g0.alive(c) && x < c && g0.node(c).parent == Some(x));
                if g0.is_desc(c, id) {
                    assert(c == id || g0.is_desc(x, id));
                }
                assert(fin.alive(c));
            }
            assert forall|x: usize| #[trigger] fin.alive(x) implies distinct_seq(
                fin.node(x).children@,
            ) by {
                assert(g0.alive(x));
                let oldc = g0.node(x).children@;
                assert(distinct_seq(oldc));
                if oldc.contains(id) {
                    let jj = choose|jj: int|
                        0 <= jj < oldc.len() && oldc[jj] == id && fin.node(x).children@
                            == oldc.take(jj) + oldc.skip(jj + 1);
                    let newc = fin.node(x).children@;
                    assert forall|a: int, b: int| 0 <= a < b < newc.len() implies newc[a]
                        != newc[b] by {
                        let oa = if a < jj { a } else { a + 1 };
                        let ob = if b < jj { b } else { b + 1 };
                        assert(newc[a] == oldc[oa] && newc[b] == oldc[ob]);
                    }
                }
            }
            // Root bookkeeping.
            if g0.root_id() == Some(id) {
                assert(fin.root_id() is None);
                assert forall|x: usize| !(#[trigger] fin.alive(x)) by {
                    if fin.alive(x) {
                        g0.lemma_reachable_from_root(x);
                        assert(g0.is_desc(x, id));
                    }
                }
            } else {
                if let Some(r) = g0.root_id() {
                    assert(g0.alive(r));
                    assert(!g0.is_desc(r, id));
                    assert(fin.alive(r));
                    assert(fin.node(r).parent is None);
                }
                assert forall|x: usize| #[trigger] fin.alive(x) implies (fin.node(x).parent is None
                    <==> fin.root_id() == Some(x)) by {
                    assert(g0.alive(x));
                }
            }
        }
    }
}


impl WidgetGraph {
    /// Whether `id` names a widget currently in the graph.
    pub fn is_alive(&self, id: usize) -> (r: bool)
        ensures
            r == self.alive(id),
    {
        id < self.live.len() && self.live[id]
    }

    /// The root id, if a root has been set and not removed.
    pub fn root(&self) -> (r: Option<usize>)
        ensures
            r == self.root_id(),
    {
        self.root
    }

    /// Looks a widget up by id; a dangling id yields `None`.
    pub fn get_widget(&self, id: usize) -> (r: Option<&Widget>)
        requires
            self.wf(),
        ensures
            match r {
                Some(w) => self.alive(id) && *w == self.node(id),
                None => !self.alive(id),
            },
    {
        if id < self.live.len() && self.live[id] {
            Some(&self.nodes[id])
        } else {
            None
        }
    }

    /// The root widget. The graph must have a root.
    pub fn get_root(&self) -> (r: &Widget)
        requires
            self.wf(),
            self.root_id() is Some,
        ensures
            *r == self.node(self.root_id().unwrap()),
    {
        let r = match self.root {
            Some(r) => r,
            None => 0,  // unreachable: a root is required
        };
        &self.nodes[r]
    }

    /// The parent id of `id`.
    pub fn parent_of(&self, id: usize) -> (r: Option<usize>)
        requires
            self.wf(),
            self.alive(id),
        ensures
            r == self.node(id).parent,
    {
        self.nodes[id].parent
    }

    /// The cached bounds of `id`.
    pub fn get_bounds(&self, id: usize) -> (r: Bounds)
        requires
            self.wf(),
            self.alive(id),
        ensures
            r == self.node(id).bounds,
    {
        self.nodes[id].bounds
    }

    /// How many handlers `id` carries.
    pub fn handler_count(&self, id: usize) -> (r: usize)
        requires
            self.wf(),
            self.alive(id),
        ensures
            r == self.node(id).handlers@.len(),
    {
        self.nodes[id].handlers.len()
    }

    /// A copy of handler `j` of widget `id`.
    pub fn get_handler(&self, id: usize, j: usize) -> (r: HandlerWrapper)
        requires
            self.wf(),
            self.alive(id),
            j < self.node(id).handlers@.len(),
        ensures
            r == self.node(id).handlers@[j as int],
    {
        self.nodes[id].handlers[j]
    }

    /// Replaces the cached bounds of `id`; the graph structure is
    /// untouched.
    pub fn set_bounds(&mut self, id: usize, bounds: Bounds)
        requires
            old(self).wf(),
            old(self).alive(id),
        ensures
            final(self).wf(),
            final(self).len() == old(self).len(),
            forall|x: usize| #[trigger] final(self).alive(x) == old(self).alive(x),
            final(self).node(id).bounds == bounds,
            final(self).node(id).parent == old(self).node(id).parent,
            final(self).node(id).children@ == old(self).node(id).children@,
            final(self).node(id).handlers@ == old(self).node(id).handlers@,
            forall|x: usize|
                #[trigger] old(self).alive(x) && x != id ==> widget_eq(
                    final(self).node(x),
                    old(self).node(x),
                ),
            final(self).root_id() == old(self).root_id(),
            final(self).dirty_spec() == old(self).dirty_spec(),
    {
        let w = &mut self.nodes[id];
        w.bounds = bounds;
        proof {
            self.lemma_same_structure(*old(self));
        }
    }

    /// Writes handler `j` of widget `id` back after dispatch updated its
    /// state.
    pub fn set_handler(&mut self, id: usize, j: usize, h: HandlerWrapper)
        requires
            old(self).wf(),
            old(self).alive(id),
            j < old(self).node(id).handlers@.len(),
        ensures
            final(self).wf(),
            final(self).len() == old(self).len(),
            forall|x: usize| #[trigger] final(self).alive(x) == old(self).alive(x),
            final(self).node(id).handlers@ == old(self).node(id).handlers@.update(j as int, h),
            final(self).node(id).parent == old(self).node(id).parent,
            final(self).node(id).children@ == old(self).node(id).children@,
            final(self).node(id).bounds == old(self).node(id).bounds,
            forall|x: usize|
                #[trigger] old(self).alive(x) && x != id ==> widget_eq(
                    final(self).node(x),
                    old(self).node(x),
                ),
            final(self).root_id() == old(self).root_id(),
            final(self).dirty_spec() == old(self).dirty_spec(),
    {
        let w = &mut self.nodes[id];
        let slot = &mut w.handlers[j];
        *slot = h;
        proof {
            self.lemma_same_structure(*old(self));
        }
    }

    /// Marks the whole graph for re-paint. The mark is all the rendering
    /// backend reads; the core only sets and clears it.
    pub fn redraw(&mut self)
        requires
            old(self).wf(),
        ensures
            final(self).wf(),
            final(self).dirty_spec(),
            final(self).len() == old(self).len(),
            forall|x: usize| #[trigger] final(self).alive(x) == old(self).alive(x),
            forall|x: usize|
                #[trigger] old(self).alive(x) ==> widget_eq(final(self).node(x), old(self).node(x)),
            final(self).root_id() == old(self).root_id(),
    {
        self.dirty = true;
        proof {
            self.lemma_same_structure(*old(self));
        }
    }

    /// Clears the re-paint mark, once the backend has painted.
    pub fn clear_dirty(&mut self)
        requires
            old(self).wf(),
        ensures
            final(self).wf(),
            !final(self).dirty_spec(),
            final(self).len() == old(self).len(),
            forall|x: usize| #[trigger] final(self).alive(x) == old(self).alive(x),
            forall|x: usize|
                #[trigger] old(self).alive(x) ==> widget_eq(final(self).node(x), old(self).node(x)),
            final(self).root_id() == old(self).root_id(),
    {
        self.dirty = false;
        proof {
            self.lemma_same_structure(*old(self));
        }
    }

    /// Whether the graph is marked for re-paint.
    pub fn is_dirty(&self) -> (r: bool)
        ensures
            r == self.dirty_spec(),
    {
        self.dirty
    }

    /// A graph that differs from a well-formed one only in handler lists,
    /// bounds or the dirty mark is still well-formed.
    proof fn lemma_same_structure(self, other: WidgetGraph)
        requires
            other.wf(),
            self.live@ == other.live@,
            self.root == other.root,
            self.nodes@.len() == other.nodes@.len(),
            forall|i: int|
                0 <= i < self.nodes@.len() ==> (#[trigger] self.nodes@[i]).parent
                    == other.nodes@[i].parent && self.nodes@[i].children@
                    == other.nodes@[i].children@,
        ensures
            self.wf(),
    {
        assert forall|i: usize| #[trigger] self.alive(i) implies other.alive(i) by {}
        assert forall|i: usize|
            #[trigger] self.alive(i) && self.node(i).parent is Some implies {
            let p = self.node(i).parent.unwrap();
            &&& self.alive(p)
            &&& p < i
            &&& self.node(p).children@.contains(i)
        } by {
            assert(other.alive(i));
        }
        assert forall|i: usize, k: int|
            #[trigger] self.alive(i) && 0 <= k < self.node(i).children@.len() implies {
            let c = #[trigger] self.node(i).children@[k];
            &&& self.alive(c)
            &&& i < c
            &&& self.node(c).parent == Some(i)
        } by {
            assert(other.alive(i));
            assert(other.node(i).children@[k] == self.node(i).children@[k]);
        }
        assert forall|i: usize| #[trigger] self.alive(i) implies distinct_seq(
            self.node(i).children@,
        ) by {
            assert(other.alive(i));
        }
    }
}


} // verus!
