//! A union-find forest over numbered nodes. Every class of nodes is
//! represented by its smallest node.
use vstd::prelude::*;

verus! {

/// The parent links form a forest in which every link points to a node
/// that is not larger; a node that points to itself is a root.
pub open spec fn is_forest(parent: Seq<usize>) -> bool {
    forall|i: int| 0 <= i < parent.len() ==> #[trigger] parent[i] <= i
}

/// The root that is reached from node `i` by following the parent links.
pub open spec fn root_of(parent: Seq<usize>, i: int) -> int
    decreases i,
{
    if 0 <= i < parent.len() && parent[i] < i {
        root_of(parent, parent[i] as int)
    } else {
        i
    }
}

/// Node `y` lies on the way from node `x` to its root, the two ends
/// included.
pub open spec fn on_path(parent: Seq<usize>, x: int, y: int) -> bool
    decreases x,
{
    y == x || (0 <= x < parent.len() && parent[x] < x && on_path(parent, parent[x] as int, y))
}

/// The links after the way from `x` to its root has been shortened: every
/// node on it points to the root, every other link is as it was.
pub open spec fn compressed(parent: Seq<usize>, x: int) -> Seq<usize> {
    Seq::new(
        parent.len(),
        |y: int|
            if on_path(parent, x, y) {
                root_of(parent, x) as usize
            } else {
                parent[y]
            },
    )
}

/// The links after the larger of the two roots has been hung below the
/// smaller.
pub open spec fn linked(parent: Seq<usize>, ra: int, rb: int) -> Seq<usize> {
    if ra < rb {
        parent.update(rb, ra as usize)
    } else if rb < ra {
        parent.update(ra, rb as usize)
    } else {
        parent
    }
}

/// For each node the root of its class.
pub open spec fn roots_of(parent: Seq<usize>) -> Seq<int> {
    Seq::new(parent.len(), |i: int| root_of(parent, i))
}

/// The roots describe a partition of the nodes in which each class is
/// represented by its smallest node.
pub open spec fn is_partition(roots: Seq<int>) -> bool {
    forall|x: int|
        0 <= x < roots.len() ==> 0 <= #[trigger] roots[x] <= x && roots[roots[x]] == roots[x]
}

/// The partition in which the classes of `a` and `b` are one class and
/// every other class is as it was.
pub open spec fn union_spec(roots: Seq<int>, a: int, b: int) -> Seq<int> {
    let ra = roots[a];
    let rb = roots[b];
    let m = if ra <= rb {
        ra
    } else {
        rb
    };
    Seq::new(
        roots.len(),
        |x: int|
            if roots[x] == ra || roots[x] == rb {
                m
            } else {
                roots[x]
            },
    )
}

/// The partition with `n` more nodes, each in a class of its own.
pub open spec fn grow_spec(roots: Seq<int>, n: nat) -> Seq<int> {
    roots + Seq::new(n, |i: int| roots.len() + i)
}

/// The root of a node is a root, and no larger than the node.
pub proof fn lemma_root_is_root(parent: Seq<usize>, i: int)
    requires
        is_forest(parent),
        0 <= i < parent.len(),
    ensures
        0 <= root_of(parent, i) <= i,
        parent[root_of(parent, i)] == root_of(parent, i),
    decreases i,
{
    if parent[i] < i {
        lemma_root_is_root(parent, parent[i] as int);
    }
}

/// The node after a node on the way from `x` to its root is on that way
/// too.
pub proof fn lemma_path_step(parent: Seq<usize>, x: int, y: int)
    requires
        is_forest(parent),
        0 <= x < parent.len(),
        on_path(parent, x, y),
        0 <= y < parent.len(),
        parent[y] < y,
    ensures
        on_path(parent, x, parent[y] as int),
    decreases x,
{
    if y != x {
        lemma_path_step(parent, parent[x] as int, y);
    } else {
        assert(on_path(parent, parent[x] as int, parent[x] as int));
    }
}

/// The way from a node to its root never rises above the node.
pub proof fn lemma_path_below(parent: Seq<usize>, x: int, y: int)
    requires
        is_forest(parent),
        0 <= x < parent.len(),
        on_path(parent, x, y),
    ensures
        0 <= y <= x,
    decreases x,
{
    if y != x {
        lemma_path_below(parent, parent[x] as int, y);
    }
}

/// The roots of a forest describe a partition.
pub proof fn lemma_roots_partition(parent: Seq<usize>)
    requires
        is_forest(parent),
    ensures
        is_partition(roots_of(parent)),
{
    assert forall|x: int| 0 <= x < parent.len() implies 0 <= #[trigger] roots_of(parent)[x] <= x
        && roots_of(parent)[roots_of(parent)[x]] == roots_of(parent)[x] by {
        lemma_root_is_root(parent, x);
    }
}

/// Pointing a node at a smaller node of its own class changes no root.
pub proof fn lemma_shortcut_keeps_roots(parent: Seq<usize>, k: int, v: usize, x: int)
    requires
        is_forest(parent),
        0 <= k < parent.len(),
        v < k,
        root_of(parent, v as int) == root_of(parent, k),
        0 <= x < parent.len(),
    ensures
        is_forest(parent.update(k, v)),
        root_of(parent.update(k, v), x) == root_of(parent, x),
    decreases x,
{
    let after = parent.update(k, v);
    assert(is_forest(after));
    if x == k {
        lemma_shortcut_keeps_roots(parent, k, v, v as int);
        assert(root_of(after, k) == root_of(after, v as int));
    } else if parent[x] < x {
        lemma_shortcut_keeps_roots(parent, k, v, parent[x] as int);
    }
}

/// Hanging a root below a smaller root moves the nodes of its class to
/// that root and leaves every other node where it was.
pub proof fn lemma_link_roots(parent: Seq<usize>, ra: usize, rb: int, x: int)
    requires
        is_forest(parent),
        0 <= ra < rb < parent.len(),
        parent[ra as int] == ra,
        parent[rb] == rb,
        0 <= x < parent.len(),
    ensures
        is_forest(parent.update(rb, ra)),
        root_of(parent.update(rb, ra), x) == if root_of(parent, x) == rb {
            ra as int
        } else {
            root_of(parent, x)
        },
    decreases x,
{
    let after = parent.update(rb, ra);
    assert(is_forest(after));
    if x == rb {
        lemma_link_roots(parent, ra, rb, ra as int);
    } else if parent[x] < x {
        lemma_link_roots(parent, ra, rb, parent[x] as int);
    }
}

/// A union-find forest. Node `i` is linked to `parent[i]`.
#[derive(Debug, Clone)]
pub struct RegionUnion {
    pub parent: Vec<usize>,
}

impl View for RegionUnion {
    type V = Seq<int>;

    /// For each node the smallest node of its class.
    open spec fn view(&self) -> Seq<int> {
        roots_of(self.parent@)
    }
}

impl RegionUnion {
    /// The links form a forest.
    pub open spec fn wf(&self) -> bool {
        is_forest(self.parent@)
    }

    /// The classes of a forest are a partition of its nodes.
    pub proof fn lemma_partition(&self)
        requires
            self.wf(),
        ensures
            is_partition(self@),
    {
        lemma_roots_partition(self.parent@);
    }

    /// A forest without nodes.
    pub fn new() -> (r: RegionUnion)
        ensures
            r.wf(),
            r@ == Seq::<int>::empty(),
            is_partition(r@),
    {
        let r = RegionUnion { parent: Vec::new() };
        assert(r@ =~= Seq::<int>::empty());
        r
    }

    /// Number of nodes.
    pub fn len(&self) -> (n: usize)
        ensures
            n == self@.len(),
    {
        self.parent.len()
    }

    /// Adds a node in a class of its own and returns it.
    pub fn add_node(&mut self) -> (node: usize)
        requires
            old(self).wf(),
        ensures
            final(self).wf(),
            node == old(self)@.len(),
            final(self)@ == grow_spec(old(self)@, 1),
            is_partition(final(self)@),
    {
        let node: usize = self.parent.len();
        self.parent.push(node);
        proof {
            assert forall|x: int| 0 <= x < old(self).parent@.len() implies root_of(self.parent@, x)
                == root_of(old(self).parent@, x) by {
                lemma_push_keeps_roots(old(self).parent@, node, x);
            }
            assert(self@ =~= grow_spec(old(self)@, 1));
            lemma_roots_partition(self.parent@);
        }
        node
    }

    /// The root of the class of `x`, found without changing any link.
    pub fn root(&self, x: usize) -> (r: usize)
        requires
            self.wf(),
            x < self@.len(),
        ensures
            r == self@[x as int],
    {
        let mut cur: usize = x;
        while self.parent[cur] != cur
            invariant
                self.wf(),
                cur < self.parent@.len(),
                root_of(self.parent@, cur as int) == root_of(self.parent@, x as int),
            decreases cur,
        {
            cur = self.parent[cur];
        }
        cur
    }

    /// The root of the class of `x`. Every node on the way from `x` to the
    /// root is linked to the root directly; the partition is unchanged.
    pub fn find(&mut self, x: usize) -> (r: usize)
        requires
            old(self).wf(),
            x < old(self)@.len(),
        ensures
            final(self).wf(),
            final(self)@ == old(self)@,
            r == old(self)@[x as int],
            final(self).parent@ == compressed(old(self).parent@, x as int),
    {
        let r: usize = self.root(x);
        let mut cur: usize = x;
        let ghost start = self.parent@;
        proof {
            lemma_root_is_root(start, x as int);
        }
        while self.parent[cur] != cur
            invariant
                self.wf(),
                is_forest(start),
                self.parent@.len() == start.len(),
                cur <= x < start.len(),
                r == root_of(start, x as int),
                r <= cur,
                roots_of(self.parent@) == roots_of(start),
                root_of(self.parent@, cur as int) == r,
                root_of(self.parent@, r as int) == r,
                on_path(start, x as int, cur as int),
                forall|y: int|
                    0 <= y < start.len() ==> #[trigger] self.parent@[y] == if on_path(
                        start,
                        x as int,
                        y,
                    ) && !on_path(start, cur as int, y) {
                        r
                    } else {
                        start[y]
                    },
            decreases cur,
        {
            let next: usize = self.parent[cur];
            let ghost before = self.parent@;
            proof {
                assert(on_path(start, cur as int, cur as int));
                assert(next == start[cur as int]);
                lemma_root_is_root(before, next as int);
                lemma_root_is_root(before, cur as int);
            }
            self.parent.set(cur, r);
            proof {
                assert forall|y: int| 0 <= y < before.len() implies root_of(self.parent@, y)
                    == root_of(before, y) by {
                    lemma_shortcut_keeps_roots(before, cur as int, r, y);
                }
                lemma_shortcut_keeps_roots(before, cur as int, r, 0);
                assert(roots_of(self.parent@) =~= roots_of(before));
                assert(roots_of(before)[next as int] == root_of(before, next as int));
                lemma_path_step(start, x as int, cur as int);
                assert forall|y: int| 0 <= y < start.len() implies #[trigger] self.parent@[y]
                    == if on_path(start, x as int, y) && !on_path(start, next as int, y) {
                    r
                } else {
                    start[y]
                } by {
                    if y == cur {
                        if on_path(start, next as int, y) {
                            lemma_path_below(start, next as int, y);
                        }
                    } else {
                        assert(on_path(start, cur as int, y) == on_path(start, next as int, y));
                    }
                }
            }
            cur = next;
        }
        proof {
            assert(self.parent@ =~= compressed(start, x as int)) by {
                assert forall|y: int| 0 <= y < start.len() implies self.parent@[y] == compressed(
                    start,
                    x as int,
                )[y] by {
                    assert(start[cur as int] == cur);
                    if on_path(start, cur as int, y) {
                        assert(y == cur);
                    }
                }
            }
        }
        r
    }

    /// Makes one class of the classes of `a` and `b`: the ways from `a`
    /// and from `b` to their roots are shortened, and the larger root is
    /// hung below the smaller.
    pub fn union(&mut self, a: usize, b: usize)
        requires
            old(self).wf(),
            a < old(self)@.len(),
            b < old(self)@.len(),
        ensures
            final(self).wf(),
            final(self)@ == union_spec(old(self)@, a as int, b as int),
            is_partition(final(self)@),
            final(self)@[a as int] == final(self)@[b as int],
            final(self).parent@ == linked(
                compressed(compressed(old(self).parent@, a as int), b as int),
                old(self)@[a as int],
                old(self)@[b as int],
            ),
    {
        proof {
            lemma_roots_partition(self.parent@);
            lemma_union_joins(self@, a as int, b as int);
        }
        let ra: usize = self.find(a);
        let rb: usize = self.find(b);
        let ghost before = self.parent@;
        proof {
            lemma_root_is_root(before, a as int);
            lemma_root_is_root(before, b as int);
        }
        if ra < rb {
            self.parent.set(rb, ra);
            proof {
                assert forall|x: int| 0 <= x < before.len() implies root_of(self.parent@, x) == (
                if root_of(before, x) == rb {
                    ra as int
                } else {
                    root_of(before, x)
                }) by {
                    lemma_link_roots(before, ra, rb as int, x);
                }
                lemma_link_roots(before, ra, rb as int, 0);
                assert(self@ =~= union_spec(old(self)@, a as int, b as int));
            }
        } else if rb < ra {
            self.parent.set(ra, rb);
            proof {
                assert forall|x: int| 0 <= x < before.len() implies root_of(self.parent@, x) == (
                if root_of(before, x) == ra {
                    rb as int
                } else {
                    root_of(before, x)
                }) by {
                    lemma_link_roots(before, rb, ra as int, x);
                }
                lemma_link_roots(before, rb, ra as int, 0);
                assert(self@ =~= union_spec(old(self)@, a as int, b as int));
            }
        } else {
            proof {
                assert(self@ =~= union_spec(old(self)@, a as int, b as int));
            }
        }
    }

    /// Tells whether `a` and `b` are in one class.
    pub fn same_class(&self, a: usize, b: usize) -> (r: bool)
        requires
            self.wf(),
            a < self@.len(),
            b < self@.len(),
        ensures
            r == (self@[a as int] == self@[b as int]),
    {
        self.root(a) == self.root(b)
    }

    /// The forest as a list of links: for every node that is not the root
    /// of its class, in rising order, the node with its root.
    pub fn links(&self) -> (r: Vec<(usize, usize)>)
        requires
            self.wf(),
        ensures
            forall|i: int, j: int| 0 <= i < j < r.len() ==> r[i].0 < r[j].0,
            forall|i: int|
                0 <= i < r.len() ==> (#[trigger] r[i]).0 < self@.len() && r[i].1 == self@[r[i].0 as int]
                    && r[i].1 != r[i].0,
            forall|y: int|
                0 <= y < self@.len() && self@[y] != y ==> exists|i: int|
                    0 <= i < r.len() && (#[trigger] r[i]).0 == y,
    {
        let mut r: Vec<(usize, usize)> = Vec::new();
        let mut y: usize = 0;
        while y < self.parent.len()
            invariant
                self.wf(),
                y <= self.parent@.len(),
                forall|i: int, j: int| 0 <= i < j < r.len() ==> r[i].0 < r[j].0,
                forall|i: int|
                    0 <= i < r.len() ==> (#[trigger] r[i]).0 < y && r[i].1 == self@[r[i].0 as int]
                        && r[i].1 != r[i].0,
                forall|z: int|
                    0 <= z < y && self@[z] != z ==> exists|i: int|
                        0 <= i < r.len() && (#[trigger] r[i]).0 == z,
            decreases self.parent@.len() - y,
        {
            let ghost before = r@;
            let root: usize = self.root(y);
            if root != y {
                r.push((y, root));
                proof {
                    assert(r[r.len() - 1].0 == y);
                    assert forall|z: int| 0 <= z < y + 1 && self@[z] != z implies exists|i: int|
                        0 <= i < r.len() && (#[trigger] r[i]).0 == z by {
                        if z < y {
                            let i = choose|i: int|
                                0 <= i < before.len() && (#[trigger] before[i]).0 == z;
                            assert(r[i].0 == z);
                        }
                    }
                }
            }
            y += 1;
        }
        r
    }

    /// The nodes of the class of `x`, in rising order.
    pub fn members(&self, x: usize) -> (r: Vec<usize>)
        requires
            self.wf(),
            x < self@.len(),
        ensures
            forall|i: int, j: int| 0 <= i < j < r.len() ==> r[i] < r[j],
            forall|i: int| 0 <= i < r.len() ==> (#[trigger] r[i]) < self@.len(),
            forall|y: int|
                0 <= y < self@.len() ==> (self@[y] == self@[x as int] <==> exists|i: int|
                    0 <= i < r.len() && #[trigger] r[i] == y),
    {
        let target: usize = self.root(x);
        let mut r: Vec<usize> = Vec::new();
        let mut y: usize = 0;
        while y < self.parent.len()
            invariant
                self.wf(),
                y <= self.parent@.len(),
                target == self@[x as int],
                forall|i: int, j: int| 0 <= i < j < r.len() ==> r[i] < r[j],
                forall|i: int| 0 <= i < r.len() ==> (#[trigger] r[i]) < y,
                forall|z: int|
                    0 <= z < y ==> (self@[z] == target <==> exists|i: int|
                        0 <= i < r.len() && #[trigger] r[i] == z),
            decreases self.parent@.len() - y,
        {
            let ghost before = r@;
            if self.root(y) == target {
                r.push(y);
                proof {
                    assert(r[r.len() - 1] == y);
                    assert forall|z: int| 0 <= z < y + 1 implies (self@[z] == target <==> exists|
                        i: int,
                    |
                        0 <= i < r.len() && #[trigger] r[i] == z) by {
                        if z < y && self@[z] == target {
                            let i = choose|i: int| 0 <= i < before.len() && #[trigger] before[i] == z;
                            assert(r[i] == z);
                        }
                    }
                }
            } else {
                proof {
                    assert forall|z: int| 0 <= z < y + 1 implies (self@[z] == target <==> exists|
                        i: int,
                    |
                        0 <= i < r.len() && #[trigger] r[i] == z) by {}
                }
            }
            y += 1;
        }
        r
    }
}

/// A node that is added at the end changes no root of the nodes that were
/// there.
pub proof fn lemma_push_keeps_roots(parent: Seq<usize>, v: usize, x: int)
    requires
        0 <= x < parent.len(),
        is_forest(parent),
    ensures
        root_of(parent.push(v), x) == root_of(parent, x),
    decreases x,
{
    if parent[x] < x {
        lemma_push_keeps_roots(parent, v, parent[x] as int);
    }
}

/// After a union the two nodes are in one class, nodes that were in one
/// class still are, and the result is again a partition.
pub proof fn lemma_union_joins(roots: Seq<int>, a: int, b: int)
    requires
        is_partition(roots),
        0 <= a < roots.len(),
        0 <= b < roots.len(),
    ensures
        is_partition(union_spec(roots, a, b)),
        union_spec(roots, a, b).len() == roots.len(),
        union_spec(roots, a, b)[a] == union_spec(roots, a, b)[b],
        forall|x: int, y: int|
            0 <= x < roots.len() && 0 <= y < roots.len() && roots[x] == roots[y]
                ==> #[trigger] union_spec(roots, a, b)[x] == #[trigger] union_spec(roots, a, b)[y],
{
    let u = union_spec(roots, a, b);
    assert forall|x: int| 0 <= x < u.len() implies 0 <= #[trigger] u[x] <= x && u[u[x]]
        == u[x] by {
        assert(0 <= roots[x] <= x && roots[roots[x]] == roots[x]);
        assert(0 <= roots[a] <= a && roots[roots[a]] == roots[a]);
        assert(0 <= roots[b] <= b && roots[roots[b]] == roots[b]);
    }
}

/// It does not matter in which order the two nodes of a union are given.
pub proof fn lemma_union_symmetric(roots: Seq<int>, a: int, b: int)
    requires
        is_partition(roots),
        0 <= a < roots.len(),
        0 <= b < roots.len(),
    ensures
        union_spec(roots, a, b) == union_spec(roots, b, a),
{
    assert(union_spec(roots, a, b) =~= union_spec(roots, b, a));
}

/// Union is transitive: once `a` is united with `b` and `b` with `c`, the
/// nodes `a` and `c` are in one class.
pub proof fn lemma_union_transitive(roots: Seq<int>, a: int, b: int, c: int)
    requires
        is_partition(roots),
        0 <= a < roots.len(),
        0 <= b < roots.len(),
        0 <= c < roots.len(),
    ensures
        union_spec(union_spec(roots, a, b), b, c)[a] == union_spec(union_spec(roots, a, b), b, c)[c],
        union_spec(union_spec(roots, a, b), b, c)[a] == union_spec(union_spec(roots, a, b), b, c)[b],
{
    let u1 = union_spec(roots, a, b);
    lemma_union_joins(roots, a, b);
    lemma_union_joins(u1, b, c);
    let u2 = union_spec(u1, b, c);
    assert(u1[a] == u1[b]);
    assert(u2[a] == u2[b]);
}

} // verus!
