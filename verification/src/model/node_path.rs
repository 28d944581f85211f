//! Typed paths to the nodes of a repository tree.
use crate::model::node::{child_pos, lemma_child_decreases, lemma_child_pos, lemma_lookup_single, lemma_tidy, lookup, names_distinct, tidy, BranchData, CommitHash, CommitTag, CommitTagView, Node};
use crate::model::node_type::{
    AnyNode, ConcreteArea, Feature, FeatureRoot, HasFeatureChildren, HasProductChildren,
    IsGitObject, IsOnOrUnderArea, NodeType, Product, ProductRoot, SymbolicNodeType, VirtualRoot,
    FEATURE_ROOT, PRODUCT_ROOT,
};
use crate::model::qualified_path::{
    is_plain_word, lemma_plain_word, lemma_qadd_defined_without_parent, spec_from_segments,
    spec_from_str, spec_qadd, spec_qadd_defined, NormalizedPath, QPathView, ToNormalizedPath, VersionPointer, VersionPointerView,
};
use crate::model::tree::TreeDataModel;
use crate::text::{seq_less, str_eq, str_less, lemma_seq_less_total, lemma_seq_less_transitive, views};
use std::marker::PhantomData;
use vstd::prelude::*;
use vstd::string::*;

verus! {

/// Looking up a concatenation looks up the second part from where the first
/// part leads.
pub proof fn lemma_lookup_append(n: Node, a: Seq<Seq<char>>, b: Seq<Seq<char>>)
    ensures
        lookup(n, a + b) == match lookup(n, a) {
            Some(m) => lookup(m, b),
            None => None,
        },
    decreases a.len(),
{
    if a.len() == 0 {
        assert(a + b =~= b);
    } else {
        assert((a + b)[0] == a[0]);
        assert((a + b).drop_first() =~= a.drop_first() + b);
        let k = child_pos(n.spec_children(), a[0]);
        if k >= 0 {
            lemma_lookup_append(n.spec_children()[k], a.drop_first(), b);
        }
    }
}

/// A path to a node of the tree, typed with a set of node types, with the
/// version of the node it points to. It holds the names of the nodes below
/// the virtual root.
#[derive(Debug)]
pub struct NodePath<T: SymbolicNodeType> {
    path: Vec<String>,
    unknown_mode: bool,
    points_to: VersionPointer,
    _phantom: PhantomData<T>,
}

/// Following one more name from a node that has a child of that name leads
/// to that child.
proof fn lemma_child_valid(root: Node, names: Seq<Seq<char>>, name: Seq<char>)
    requires
        lookup(root, names) is Some,
        child_pos(lookup(root, names).unwrap().spec_children(), name) >= 0,
    ensures
        lookup(root, names.push(name)) == Some(
            lookup(root, names).unwrap().spec_children()[child_pos(
                lookup(root, names).unwrap().spec_children(),
                name,
            )],
        ),
{
    lemma_lookup_append(root, names, seq![name]);
    lemma_lookup_single(lookup(root, names).unwrap(), name);
    assert(names + seq![name] =~= names.push(name));
}

/// A node path in terms of characters: the names below the virtual root,
/// whether the tree had nodes of unknown type, and the version pointed to.
pub struct NodePathView {
    pub names: Seq<Seq<char>>,
    pub unknown_mode: bool,
    pub head: VersionPointerView,
}

/// The segments of the textual path of a node path with these names: the
/// empty name of the virtual root, then the names, each pushed.
pub open spec fn normalized_segments(names: Seq<Seq<char>>) -> Seq<Seq<char>> {
    spec_from_segments(seq![Seq::<char>::empty()] + names).segments
}

impl<T: SymbolicNodeType> View for NodePath<T> {
    type V = NodePathView;

    open spec fn view(&self) -> NodePathView {
        NodePathView {
            names: self.spec_names(),
            unknown_mode: self.spec_unknown_mode(),
            head: self.spec_head(),
        }
    }
}

/// The views of node paths.
pub open spec fn path_views<T: SymbolicNodeType>(paths: Seq<NodePath<T>>) -> Seq<NodePathView> {
    paths.map_values(|p: NodePath<T>| p@)
}

/// The last names of the paths.
pub open spec fn last_names(paths: Seq<NodePath<AnyNode>>) -> Seq<Seq<char>> {
    paths.map_values(|p: NodePath<AnyNode>| p.spec_names().last())
}

/// Whether one of `paths` has exactly the names `names`.
pub open spec fn listed<T: SymbolicNodeType>(paths: Seq<NodePath<T>>, names: Seq<Seq<char>>) -> bool {
    exists|i: int| 0 <= i < paths.len() && (#[trigger] paths[i]).spec_names() == names
}

/// What is listed stays listed when more paths follow.
proof fn lemma_listed_prefix<T: SymbolicNodeType>(short: Seq<NodePath<T>>, long: Seq<NodePath<T>>, names: Seq<Seq<char>>)
    requires
        listed(short, names),
        short.len() <= long.len(),
        long.subrange(0, short.len() as int) == short,
    ensures
        listed(long, names),
{
    let i = choose|i: int| 0 <= i < short.len() && (#[trigger] short[i]).spec_names() == names;
    assert(long.subrange(0, short.len() as int)[i] == long[i]);
    assert(long[i].spec_names() == names);
}

/// Each segment read as a path of its own.
pub open spec fn segment_paths(segments: Seq<Seq<char>>) -> Seq<QPathView> {
    segments.map_values(|x: Seq<char>| spec_from_str(x))
}

/// The names reached from `names` by following the segments of each of
/// `parts` in turn, as long as they lead to a node.
pub open spec fn walk(root: Node, names: Seq<Seq<char>>, parts: Seq<QPathView>) -> Seq<Seq<char>>
    decreases parts.len(),
{
    if parts.len() == 0 {
        names
    } else if lookup(root, names + parts[0].segments) is Some {
        walk(root, names + parts[0].segments, parts.drop_first())
    } else {
        names
    }
}

/// No node at or below `n` has two children of the same name.
pub open spec fn distinct_below(n: Node) -> bool {
    forall|q: Seq<Seq<char>>| #[trigger] lookup(n, q) is Some ==> names_distinct(lookup(n, q).unwrap().spec_children())
}

/// No two paths have the same names.
pub open spec fn each_once<T: SymbolicNodeType>(paths: Seq<NodePath<T>>) -> bool {
    forall|x: int, y: int| 0 <= x < y < paths.len() ==> (#[trigger] paths[x]).spec_names() != (#[trigger] paths[y]).spec_names()
}

/// Each path's name at `depth` is one of `names`.
pub open spec fn top_in<T: SymbolicNodeType>(paths: Seq<NodePath<T>>, names: Seq<Seq<char>>, depth: int) -> bool {
    forall|x: int| 0 <= x < paths.len() ==> names.contains((#[trigger] paths[x]).spec_names()[depth])
}

/// Appending to a listing a path below the current child keeps every path
/// listed once.
proof fn lemma_once_after_push(
    outv: Seq<NodePath<AnyNode>>,
    n: int,
    start: int,
    below: Seq<NodePath<AnyNode>>,
    k: int,
    child_names: Seq<Seq<char>>,
    sl: int,
    processed: Seq<Seq<char>>,
    top: Seq<char>,
)
    requires
        outv.len() == n + 1,
        0 <= start,
        start + 1 + k == n,
        0 <= k < below.len(),
        each_once(outv.subrange(0, n)),
        forall|x: int| 0 <= x < start ==> processed.contains((#[trigger] outv[x]).spec_names()[sl]),
        !processed.contains(top),
        outv[n].spec_names()[sl] == top,
        outv[start].spec_names() == child_names,
        child_names.len() == sl + 1,
        outv[n].spec_names().len() > sl + 1,
        forall|x: int| 0 <= x < k ==> (#[trigger] outv[start + 1 + x]).spec_names() == below[x].spec_names(),
        outv[n].spec_names() == below[k].spec_names(),
        each_once(below),
    ensures
        each_once(outv),
{
    assert forall|x: int, y: int| 0 <= x < y < outv.len() implies (#[trigger] outv[x]).spec_names()
        != (#[trigger] outv[y]).spec_names() by {
        if y < n {
            assert(outv.subrange(0, n)[x] == outv[x]);
            assert(outv.subrange(0, n)[y] == outv[y]);
        } else if x < start {
            assert(processed.contains(outv[x].spec_names()[sl]));
        } else if x == start {
        } else {
            let bx = x - start - 1;
            assert(outv[start + 1 + bx].spec_names() == below[bx].spec_names());
        }
    }
}

/// An entry of a sequence without duplicates is not among those before it.
proof fn lemma_new_top(ln: Seq<Seq<char>>, i: int, v: Seq<char>)
    requires
        ln.no_duplicates(),
        0 <= i < ln.len(),
        v == ln[i],
    ensures
        !ln.subrange(0, i).contains(v),
{
    if ln.subrange(0, i).contains(v) {
        let w = choose|w: int| 0 <= w < i && ln.subrange(0, i)[w] == v;
        assert(ln[w] == ln[i]);
    }
}

/// Paths whose last names cover `cs`, as many as `cs`, have distinct last
/// names where the names of `cs` are distinct.
proof fn lemma_last_names_distinct(r: Seq<NodePath<AnyNode>>, cs: Seq<Node>)
    requires
        r.len() == cs.len(),
        names_distinct(cs),
        forall|j: int| 0 <= j < cs.len() ==> last_names(r).contains((#[trigger] cs[j]).spec_name()),
    ensures
        last_names(r).no_duplicates(),
{
    broadcast use vstd::seq_lib::seq_to_set_is_finite;

    let l = last_names(r);
    let c = cs.map_values(|n: Node| n.spec_name());
    assert(c.no_duplicates()) by {
        assert forall|i: int, j: int| 0 <= i < c.len() && 0 <= j < c.len() && i != j implies c[i] != c[j] by {
            if i < j {
                assert(cs[i].spec_name() != cs[j].spec_name());
            } else {
                assert(cs[j].spec_name() != cs[i].spec_name());
            }
        }
    }
    c.unique_seq_to_set();
    l.lemma_cardinality_of_set();
    assert(c.to_set().subset_of(l.to_set())) by {
        assert forall|x: Seq<char>| c.to_set().contains(x) implies l.to_set().contains(x) by {
            let j = choose|j: int| 0 <= j < c.len() && c[j] == x;
            assert(l.contains(cs[j].spec_name()));
        }
    }
    vstd::set_lib::lemma_len_subset(c.to_set(), l.to_set());
    l.lemma_no_dup_set_cardinality();
}

/// `a` comes before `b` in path order: `a` is a proper prefix of `b`, or
/// the first name in which they differ is smaller in `a`.
pub open spec fn path_before(a: Seq<Seq<char>>, b: Seq<Seq<char>>) -> bool {
    exists|p: int|
        #![trigger a.subrange(0, p)]
        0 <= p <= a.len() && p <= b.len() && a.subrange(0, p) == b.subrange(0, p) && ((p == a.len()
            && p < b.len()) || (p < a.len() && p < b.len() && seq_less(a[p], b[p])))
}

/// Each path comes before every later one in path order: a node before the
/// nodes below it, and those before the next sibling, siblings by name.
pub open spec fn in_path_order<T: SymbolicNodeType>(paths: Seq<NodePath<T>>) -> bool {
    forall|x: int, y: int|
        0 <= x < y < paths.len() ==> path_before(
            (#[trigger] paths[x]).spec_names(),
            (#[trigger] paths[y]).spec_names(),
        )
}

/// Two paths with the same first `sl` names come in path order when the
/// next name of the first is the smaller.
proof fn lemma_before_by_name(a: Seq<Seq<char>>, b: Seq<Seq<char>>, sl: int, prefix: Seq<Seq<char>>)
    requires
        0 <= sl < a.len(),
        sl < b.len(),
        a.subrange(0, sl) == prefix,
        b.subrange(0, sl) == prefix,
        seq_less(a[sl], b[sl]),
    ensures
        path_before(a, b),
{
    assert(a.subrange(0, sl) == b.subrange(0, sl));
}

/// Appending a path whose name at `sl` is above those of all earlier paths,
/// which share its first `sl` names, keeps the listing in path order.
proof fn lemma_order_after_child(outv: Seq<NodePath<AnyNode>>, n: int, sl: int, prefix: Seq<Seq<char>>, top: Seq<char>)
    requires
        outv.len() == n + 1,
        0 <= sl,
        in_path_order(outv.subrange(0, n)),
        forall|x: int|
            0 <= x < n ==> (#[trigger] outv[x]).spec_names().len() > sl && outv[x].spec_names().subrange(0, sl)
                == prefix && seq_less(outv[x].spec_names()[sl], top),
        outv[n].spec_names().len() > sl,
        outv[n].spec_names().subrange(0, sl) == prefix,
        outv[n].spec_names()[sl] == top,
    ensures
        in_path_order(outv),
{
    assert forall|x: int, y: int| 0 <= x < y < outv.len() implies path_before(
        (#[trigger] outv[x]).spec_names(),
        (#[trigger] outv[y]).spec_names(),
    ) by {
        if y < n {
            assert(outv.subrange(0, n)[x] == outv[x]);
            assert(outv.subrange(0, n)[y] == outv[y]);
        } else {
            lemma_before_by_name(outv[x].spec_names(), outv[y].spec_names(), sl, prefix);
        }
    }
}

/// Appending a path from the listing below the current child keeps the
/// listing in path order.
proof fn lemma_order_after_push(
    outv: Seq<NodePath<AnyNode>>,
    n: int,
    start: int,
    below: Seq<NodePath<AnyNode>>,
    k: int,
    sl: int,
    prefix: Seq<Seq<char>>,
    top: Seq<char>,
)
    requires
        outv.len() == n + 1,
        0 <= start,
        0 <= sl,
        start + 1 + k == n,
        0 <= k < below.len(),
        in_path_order(outv.subrange(0, n)),
        forall|x: int|
            0 <= x < start ==> (#[trigger] outv[x]).spec_names().len() > sl && outv[x].spec_names().subrange(0, sl)
                == prefix && seq_less(outv[x].spec_names()[sl], top),
        outv[n].spec_names().len() > sl + 1,
        outv[n].spec_names().subrange(0, sl) == prefix,
        outv[n].spec_names()[sl] == top,
        outv[start].spec_names().len() == sl + 1,
        outv[n].spec_names().subrange(0, sl + 1) == outv[start].spec_names(),
        forall|x: int| 0 <= x < k ==> (#[trigger] outv[start + 1 + x]).spec_names() == below[x].spec_names(),
        outv[n].spec_names() == below[k].spec_names(),
        in_path_order(below),
    ensures
        in_path_order(outv),
{
    assert forall|x: int, y: int| 0 <= x < y < outv.len() implies path_before(
        (#[trigger] outv[x]).spec_names(),
        (#[trigger] outv[y]).spec_names(),
    ) by {
        if y < n {
            assert(outv.subrange(0, n)[x] == outv[x]);
            assert(outv.subrange(0, n)[y] == outv[y]);
        } else if x < start {
            lemma_before_by_name(outv[x].spec_names(), outv[y].spec_names(), sl, prefix);
        } else if x == start {
            let a = outv[x].spec_names();
            let b = outv[y].spec_names();
            assert(a.subrange(0, sl + 1) =~= a);
            assert(a.subrange(0, sl + 1) == b.subrange(0, sl + 1));
        } else {
            let bx = x - start - 1;
            assert(outv[start + 1 + bx].spec_names() == below[bx].spec_names());
            assert(path_before(below[bx].spec_names(), below[k].spec_names()));
        }
    }
}

/// Every node of a tidy tree is tidy.
proof fn lemma_tidy_lookup(n: Node, q: Seq<Seq<char>>)
    requires
        tidy(n),
        lookup(n, q) is Some,
    ensures
        tidy(lookup(n, q).unwrap()),
    decreases q.len(),
{
    lemma_tidy(n);
    if q.len() > 0 {
        let k = child_pos(n.spec_children(), q[0]);
        lemma_child_pos(n.spec_children(), q[0]);
        lemma_tidy_lookup(n.spec_children()[k], q.drop_first());
    }
}

/// In a tidy tree no node has two children of the same name.
proof fn lemma_tidy_distinct_below(n: Node)
    requires
        tidy(n),
    ensures
        distinct_below(n),
{
    assert forall|q: Seq<Seq<char>>| #[trigger] lookup(n, q) is Some implies names_distinct(lookup(n, q).unwrap().spec_children()) by {
        lemma_tidy_lookup(n, q);
        lemma_tidy(lookup(n, q).unwrap());
    }
}

/// The path at `i` comes after the path of its parent.
pub open spec fn parent_before<T: SymbolicNodeType>(paths: Seq<NodePath<T>>, i: int) -> bool {
    exists|j: int| 0 <= j < i && (#[trigger] paths[j]).spec_names() == paths[i].spec_names().drop_last()
}

/// Every path more than one name deeper than `depth` comes after the path
/// of its parent.
pub open spec fn parents_first<T: SymbolicNodeType>(paths: Seq<NodePath<T>>, depth: int) -> bool {
    forall|i: int|
        0 <= i < paths.len() && (#[trigger] paths[i]).spec_names().len() > depth + 1 ==> parent_before(paths, i)
}

/// A parent found before a path stays found when more paths follow.
proof fn lemma_parent_before_prefix<T: SymbolicNodeType>(short: Seq<NodePath<T>>, long: Seq<NodePath<T>>, i: int)
    requires
        0 <= i < short.len(),
        short.len() <= long.len(),
        long.subrange(0, short.len() as int) == short,
        parent_before(short, i),
    ensures
        parent_before(long, i),
{
    let j = choose|j: int| 0 <= j < i && (#[trigger] short[j]).spec_names() == short[i].spec_names().drop_last();
    assert(long.subrange(0, short.len() as int)[j] == long[j]);
    assert(long.subrange(0, short.len() as int)[i] == long[i]);
}

/// Looking up a path whose first name is that of a child is looking up the
/// rest below that child.
proof fn lemma_lookup_first(n: Node, q: Seq<Seq<char>>)
    requires
        q.len() > 0,
        child_pos(n.spec_children(), q[0]) >= 0,
    ensures
        lookup(n, q) == lookup(n.spec_children()[child_pos(n.spec_children(), q[0])], q.drop_first()),
{
}

/// The positions of `children` ordered by name: each position once, and no
/// name after a smaller one (a stable insertion sort).
pub fn sorted_child_order(children: &Vec<Node>) -> (order: Vec<usize>)
    ensures
        order@.len() == children@.len(),
        forall|k: int| 0 <= k < order@.len() ==> (#[trigger] order@[k]) < children@.len(),
        forall|j: int| 0 <= j < children@.len() ==> #[trigger] order@.contains(j as usize),
        forall|a: int, b: int|
            0 <= a < b < order@.len() ==> !seq_less(
                children@[(#[trigger] order@[b]) as int].spec_name(),
                children@[(#[trigger] order@[a]) as int].spec_name(),
            ),
{
    let ghost cs = children@;
    let n = children.len();
    // insertion sort of the child positions by name
    let mut order: Vec<usize> = Vec::new();
    let mut i: usize = 0;
    while i < n
        invariant
            n == cs.len(),
            children@ == cs,
            i <= n,
            order@.len() == i,
            forall|k: int| 0 <= k < order@.len() ==> (#[trigger] order@[k]) < i,
            forall|j: int| 0 <= j < i ==> #[trigger] order@.contains(j as usize),
            forall|a: int, b: int|
                0 <= a < b < order@.len() ==> !seq_less(
                    cs[(#[trigger] order@[b]) as int].spec_name(),
                    cs[(#[trigger] order@[a]) as int].spec_name(),
                ),
        decreases n - i,
    {
        let mut p: usize = 0;
        while p < order.len() && !str_less(children[i].get_name().as_str(), children[order[p]].get_name().as_str())
            invariant
                p <= order@.len(),
                forall|k: int| 0 <= k < order@.len() ==> (#[trigger] order@[k]) < i,
                n == cs.len(),
                children@ == cs,
                i < n,
                forall|k: int|
                    0 <= k < p ==> !seq_less(
                        cs[i as int].spec_name(),
                        cs[(#[trigger] order@[k]) as int].spec_name(),
                    ),
            decreases order@.len() - p,
        {
            p = p + 1;
        }
        let ghost old_order = order@;
        proof {
            assert forall|a: int, b: int|
                0 <= a < b < old_order.len() + 1 implies !seq_less(
                cs[old_order.insert(p as int, i)[b] as int].spec_name(),
                cs[old_order.insert(p as int, i)[a] as int].spec_name(),
            ) by {
                let o = old_order.insert(p as int, i);
                let xi = cs[i as int].spec_name();
                if a < p && b == p {
                    lemma_seq_less_total(xi, cs[o[a] as int].spec_name());
                } else if a == p {
                    // p < old_order.len(), and cs[i] comes before cs[old_order[p]]
                    let xp = cs[old_order[p as int] as int].spec_name();
                    let xb = cs[o[b] as int].spec_name();
                    lemma_seq_less_total(xp, xb);
                    lemma_seq_less_total(xi, xb);
                    if b - 1 > p {
                        assert(!seq_less(xb, xp));
                    }
                    if seq_less(xp, xb) {
                        lemma_seq_less_transitive(xi, xp, xb);
                    }
                } else if a < p && b > p {
                    assert(o[a] == old_order[a]);
                    assert(o[b] == old_order[b - 1]);
                } else if a > p {
                    assert(o[a] == old_order[a - 1]);
                    assert(o[b] == old_order[b - 1]);
                } else {
                    assert(o[a] == old_order[a]);
                    assert(o[b] == old_order[b]);
                }
            }
        }
        order.insert(p, i);
        proof {
            assert forall|j: int| 0 <= j < i + 1 implies #[trigger] order@.contains(j as usize) by {
                if j < i {
                    assert(old_order.contains(j as usize));
                    let k = choose|k: int| 0 <= k < old_order.len() && old_order[k] == j as usize;
                    if k < p {
                        assert(order@[k] == j as usize);
                    } else {
                        assert(order@[k + 1] == j as usize);
                    }
                } else {
                    assert(order@[p as int] == i);
                }
            }
        }
        i = i + 1;
    }
    order
}

impl<T: SymbolicNodeType> NodePath<T> {
    pub closed spec fn spec_names(&self) -> Seq<Seq<char>> {
        views(self.path@)
    }

    pub closed spec fn spec_unknown_mode(&self) -> bool {
        self.unknown_mode
    }

    pub closed spec fn spec_head(&self) -> VersionPointerView {
        self.points_to@
    }

    /// Whether the path leads to a node of `model`.
    pub open spec fn valid_in(&self, model: &TreeDataModel) -> bool {
        lookup(model.spec_root(), self.spec_names()) is Some
    }

    /// The node the path leads to in `model`.
    pub open spec fn node_in(&self, model: &TreeDataModel) -> Node {
        lookup(model.spec_root(), self.spec_names()).unwrap()
    }

    /// The textual path of a node path: the empty name of the virtual root,
    /// then the names, each pushed, pointing to the node path's version.
    pub open spec fn spec_normalized(&self) -> QPathView {
        QPathView {
            segments: spec_from_segments(seq![Seq::<char>::empty()] + self.spec_names()).segments,
            head: self.spec_head(),
        }
    }

    pub fn new(path: Vec<String>, unknown_mode: bool, head: VersionPointer) -> (r: NodePath<T>)
        ensures
            r.spec_names() == views(path@),
            r.spec_unknown_mode() == unknown_mode,
            r.spec_head() == head@,
    {
        Self { path, unknown_mode, points_to: head, _phantom: PhantomData }
    }

    /// A copy of the path.
    pub fn duplicate(&self) -> (r: NodePath<T>)
        ensures
            r@ == self@,
            r.spec_names() == self.spec_names(),
            r.spec_unknown_mode() == self.spec_unknown_mode(),
            r.spec_head() == self.spec_head(),
    {
        let path = self.path.clone();
        assert(path@ =~= self.path@);
        Self::new(path, self.unknown_mode, self.points_to.clone())
    }

    /// The node the path leads to.
    fn get_node<'a>(&self, model: &'a TreeDataModel) -> (r: &'a Node)
        requires
            self.valid_in(model),
        ensures
            *r == self.node_in(model),
    {
        model.find(&self.path).unwrap()
    }

    /// The same path typed with `To`, if the node is of a type in `To` (or the
    /// tree has nodes of unknown type).
    pub fn try_convert_to<To: SymbolicNodeType>(&self, model: &TreeDataModel) -> (r: Option<NodePath<To>>)
        requires
            self.valid_in(model),
        ensures
            (self.spec_unknown_mode() || To::spec_compatible(self.node_in(model).spec_type()))
                ==> (r matches Some(p) && p.spec_names() == self.spec_names()
                && p.spec_unknown_mode() == self.spec_unknown_mode() && p.spec_head()
                == self.spec_head()),
            !(self.spec_unknown_mode() || To::spec_compatible(self.node_in(model).spec_type()))
                ==> r is None,
    {
        let compatible = self.unknown_mode || To::is_compatible(self.get_node(model).get_type());
        if compatible {
            let path = self.path.clone();
            assert(path@ =~= self.path@);
            Some(NodePath::<To>::new(path, self.unknown_mode, self.points_to.clone()))
        } else {
            None
        }
    }

    /// The path one step further along each segment of `path`, pointing to the
    /// version of `path`; `None` if a segment names no child.
    pub fn move_to(self, model: &TreeDataModel, path: &NormalizedPath) -> (r: Option<NodePath<AnyNode>>)
        requires
            self.valid_in(model),
        ensures
            lookup(model.spec_root(), self.spec_names() + path@.segments) is None ==> r is None,
            lookup(model.spec_root(), self.spec_names() + path@.segments) is Some ==> (r matches Some(
                p,
            ) && p.spec_names() == self.spec_names() + path@.segments && p.spec_unknown_mode()
                == self.spec_unknown_mode() && p.spec_head() == path@.head),
    {
        let ghost start = self.spec_names();
        let mut node = self.get_node(model);
        let mut names = self.path;
        let segs = path.iter_string();
        proof {
            lemma_lookup_append(model.spec_root(), start, path@.segments);
            assert(path@.segments.subrange(0, path@.segments.len() as int) =~= path@.segments);
            assert(start + path@.segments.subrange(0, 0) =~= start);
        }
        let mut i: usize = 0;
        while i < segs.len()
            invariant
                i <= segs@.len(),
                start == self.spec_names(),
                views(segs@) == path@.segments,
                views(names@) == start + path@.segments.subrange(0, i as int),
                lookup(model.spec_root(), views(names@)) == Some(*node),
                lookup(model.spec_root(), start + path@.segments) == lookup(
                    *node,
                    path@.segments.subrange(i as int, path@.segments.len() as int),
                ),
            decreases segs@.len() - i,
        {
            let ghost rest = path@.segments.subrange(i as int, path@.segments.len() as int);
            assert(rest.drop_first() =~= path@.segments.subrange(i + 1, path@.segments.len() as int));
            assert(rest[0] == segs@[i as int]@);
            match node.get_child(segs[i].as_str()) {
                Some(child) => {
                    proof {
                        lemma_lookup_append(model.spec_root(), views(names@), seq![segs@[i as int]@]);
                        lemma_lookup_single(*node, segs@[i as int]@);
                    }
                    let ghost before = names@;
                    names.push(segs[i].clone());
                    assert(views(names@) =~= views(before).push(segs@[i as int]@));
                    assert(views(before) + seq![segs@[i as int]@] =~= views(names@));
                    assert(views(names@) =~= start + path@.segments.subrange(0, i + 1));
                    node = child;
                },
                None => {
                    assert(lookup(*node, rest) is None);
                    return None;
                },
            }
            i = i + 1;
        }
        assert(path@.segments.subrange(0, i as int) =~= path@.segments);
        Some(NodePath::<AnyNode>::new(names, self.unknown_mode, path.get_head().clone()))
    }

    /// The path to the node at depth `index` below the virtual root.
    pub fn move_to_index(self, index: usize) -> (r: NodePath<AnyNode>)
        requires
            index <= self.spec_names().len(),
        ensures
            r.spec_names() == self.spec_names().subrange(0, index as int),
            r.spec_unknown_mode() == self.spec_unknown_mode(),
            r.spec_head() == VersionPointerView::Head,
    {
        let mut path = self.path;
        path.truncate(index);
        assert(views(path@) =~= self.spec_names().subrange(0, index as int));
        NodePath::<AnyNode>::new(path, self.unknown_mode, VersionPointer::Head)
    }

    /// The path moved along the segments of `path` as far as they lead.
    pub fn move_to_last_valid(self, model: &TreeDataModel, path: &NormalizedPath) -> (r: NodePath<AnyNode>)
        requires
            self.valid_in(model),
        ensures
            r.valid_in(model),
            r.spec_unknown_mode() == self.spec_unknown_mode(),
            r.spec_names() == walk(model.spec_root(), self.spec_names(), segment_paths(path@.segments)),
    {
        let mut current = self.as_any_type();
        let parts = path.iter();
        let ghost all = segment_paths(path@.segments);
        let ghost root = model.spec_root();
        proof {
            assert(all.subrange(0, all.len() as int) =~= all);
        }
        let mut i: usize = 0;
        while i < parts.len()
            invariant_except_break
                i <= parts@.len(),
                current.valid_in(model),
                current.spec_unknown_mode() == self.spec_unknown_mode(),
                all == segment_paths(path@.segments),
                root == model.spec_root(),
                parts@.len() == all.len(),
                forall|k: int| 0 <= k < parts@.len() ==> #[trigger] parts@[k]@ == all[k],
                walk(root, self.spec_names(), all) == walk(root, current.spec_names(), all.subrange(i as int, all.len() as int)),
            ensures
                current.valid_in(model),
                current.spec_unknown_mode() == self.spec_unknown_mode(),
                current.spec_names() == walk(root, self.spec_names(), all),
            decreases parts@.len() - i,
        {
            let ghost rest = all.subrange(i as int, all.len() as int);
            proof {
                assert(rest[0] == all[i as int]);
                assert(rest.drop_first() =~= all.subrange(i + 1, all.len() as int));
            }
            let candidate = current.duplicate();
            match candidate.move_to(model, &parts[i]) {
                Some(next) => {
                    current = next;
                },
                None => {
                    break;
                },
            }
            i = i + 1;
        }
        proof {
            if i == parts@.len() {
                assert(all.subrange(i as int, all.len() as int) =~= Seq::<QPathView>::empty());
            }
        }
        current
    }

    pub fn has_children(&self, model: &TreeDataModel) -> (r: bool)
        requires
            self.valid_in(model),
        ensures
            r == (self.node_in(model).spec_children().len() > 0),
    {
        self.get_node(model).has_children()
    }

    /// The paths to the children at the positions `order`, in that order.
    fn paths_in_order(&self, model: &TreeDataModel, order: &Vec<usize>) -> (out: Vec<NodePath<AnyNode>>)
        requires
            self.valid_in(model),
            forall|m: int|
                0 <= m < order@.len() ==> (#[trigger] order@[m]) < self.node_in(
                    model,
                ).spec_children().len(),
        ensures
            out@.len() == order@.len(),
            forall|m: int|
                0 <= m < out@.len() ==> (#[trigger] out@[m]).spec_names() == self.spec_names().push(
                    self.node_in(model).spec_children()[order@[m] as int].spec_name(),
                ),
            forall|m: int| 0 <= m < out@.len() ==> (#[trigger] out@[m]).valid_in(model),
            forall|m: int|
                0 <= m < out@.len() ==> (#[trigger] out@[m]).spec_unknown_mode()
                    == self.spec_unknown_mode(),
            forall|m: int|
                0 <= m < out@.len() ==> (#[trigger] out@[m]).spec_head() == VersionPointerView::Head,
    {
        let node = self.get_node(model);
        let children = node.get_children();
        let ghost cs = children@;
        let n = order.len();
        let mut out: Vec<NodePath<AnyNode>> = Vec::new();
        let mut k: usize = 0;
        while k < n
            invariant
                n == order@.len(),
                children@ == cs,
                cs == self.node_in(model).spec_children(),
                self.valid_in(model),
                forall|m: int| 0 <= m < order@.len() ==> (#[trigger] order@[m]) < cs.len(),
                k <= n,
                out@.len() == k,
                forall|m: int|
                    0 <= m < k ==> (#[trigger] out@[m]).spec_names() == self.spec_names().push(
                        cs[order@[m] as int].spec_name(),
                    ),
                forall|m: int| 0 <= m < k ==> (#[trigger] out@[m]).valid_in(model),
                forall|m: int|
                    0 <= m < k ==> (#[trigger] out@[m]).spec_unknown_mode()
                        == self.spec_unknown_mode(),
                forall|m: int|
                    0 <= m < k ==> (#[trigger] out@[m]).spec_head() == VersionPointerView::Head,
            decreases n - k,
        {
            let mut names = self.path.clone();
            assert(names@ =~= self.path@);
            let child = &children[order[k]];
            names.push(child.get_name().clone());
            assert(views(names@) =~= self.spec_names().push(child.spec_name()));
            proof {
                lemma_child_pos(cs, child.spec_name());
                lemma_child_valid(model.spec_root(), self.spec_names(), child.spec_name());
            }
            out.push(NodePath::<AnyNode>::new(names, self.unknown_mode, VersionPointer::Head));
            k = k + 1;
        }
        out
    }

    /// The paths to the children, ordered by name: one path per child, each
    /// one name below this path, every child's name among them.
    pub fn iter_children(&self, model: &TreeDataModel) -> (r: Vec<NodePath<AnyNode>>)
        requires
            self.valid_in(model),
        ensures
            r@.len() == self.node_in(model).spec_children().len(),
            forall|i: int|
                0 <= i < r@.len() ==> (#[trigger] r@[i]).spec_names() == self.spec_names().push(
                    r@[i].spec_names().last(),
                ),
            forall|i: int|
                0 <= i < r@.len() ==> child_pos(
                    self.node_in(model).spec_children(),
                    (#[trigger] r@[i]).spec_names().last(),
                ) >= 0,
            forall|j: int|
                0 <= j < r@.len() ==> last_names(r@).contains(
                    (#[trigger] self.node_in(model).spec_children()[j]).spec_name(),
                ),
            forall|i: int| 0 <= i < r@.len() ==> (#[trigger] r@[i]).valid_in(model),
            forall|i: int|
                0 <= i < r@.len() ==> (#[trigger] r@[i]).spec_unknown_mode()
                    == self.spec_unknown_mode(),
            forall|i: int|
                0 <= i < r@.len() ==> (#[trigger] r@[i]).spec_head() == VersionPointerView::Head,
            forall|a: int, b: int|
                0 <= a < b < r@.len() ==> !seq_less(
                    (#[trigger] r@[b]).spec_names().last(),
                    (#[trigger] r@[a]).spec_names().last(),
                ),
    {
        let node = self.get_node(model);
        let children = node.get_children();
        let ghost cs = children@;
        let n = children.len();
        let order = sorted_child_order(children);
        let out = self.paths_in_order(model, &order);
        proof {
            assert(cs == self.node_in(model).spec_children());
            assert forall|i: int| 0 <= i < out@.len() implies child_pos(
                cs,
                (#[trigger] out@[i]).spec_names().last(),
            ) >= 0 by {
                lemma_child_pos(cs, cs[order@[i] as int].spec_name());
            }
            assert forall|j: int| 0 <= j < out@.len() implies last_names(out@).contains(
                (#[trigger] cs[j]).spec_name(),
            ) by {
                assert(j < n);
                assert(order@.contains(j as usize));
                let m = choose|m: int| 0 <= m < order@.len() && order@[m] == j as usize;
                assert(last_names(out@)[m] == cs[j].spec_name());
            }
            assert forall|a: int, b: int| 0 <= a < b < out@.len() implies !seq_less(
                (#[trigger] out@[b]).spec_names().last(),
                (#[trigger] out@[a]).spec_names().last(),
            ) by {
                assert(out@[b].spec_names().last() == cs[order@[b] as int].spec_name());
                assert(out@[a].spec_names().last() == cs[order@[a] as int].spec_name());
            }
        }
        out
    }

    /// The paths to all nodes below, each node followed by the nodes below it,
    /// children ordered by name.
    #[verifier::rlimit(80)]
    pub fn iter_children_req(&self, model: &TreeDataModel) -> (r: Vec<NodePath<AnyNode>>)
        requires
            self.valid_in(model),
        ensures
            forall|i: int| 0 <= i < r@.len() ==> (#[trigger] r@[i]).valid_in(model),
            forall|i: int|
                0 <= i < r@.len() ==> (#[trigger] r@[i]).spec_names().len() > self.spec_names().len()
                    && r@[i].spec_names().subrange(0, self.spec_names().len() as int)
                    == self.spec_names(),
            forall|i: int| 0 <= i < r@.len() ==> (#[trigger] r@[i]).spec_unknown_mode() == self.spec_unknown_mode(),
            forall|q: Seq<Seq<char>>|
                q.len() > 0 && (#[trigger] lookup(self.node_in(model), q)) is Some ==> listed(
                    r@,
                    self.spec_names() + q,
                ),
            parents_first(r@, self.spec_names().len() as int),
            each_once(r@),
            in_path_order(r@),
        decreases self.node_in(model),
    {
        let children = self.iter_children(model);
        proof {
            use_type_invariant(model);
            lemma_tidy_lookup(model.spec_root(), self.spec_names());
            lemma_tidy_distinct_below(self.node_in(model));
            let node = self.node_in(model);
            {
                assert(lookup(node, Seq::<Seq<char>>::empty()) is Some);
                lemma_last_names_distinct(children@, node.spec_children());
            }
        }
        let mut out: Vec<NodePath<AnyNode>> = Vec::new();
        let mut i: usize = 0;
        while i < children.len()
            invariant
                i <= children@.len(),
                self.valid_in(model),
                forall|m: int| 0 <= m < children@.len() ==> (#[trigger] children@[m]).valid_in(model),
                forall|m: int|
                    0 <= m < children@.len() ==> (#[trigger] children@[m]).spec_names()
                        == self.spec_names().push(children@[m].spec_names().last()),
                forall|m: int|
                    0 <= m < children@.len() ==> child_pos(
                        self.node_in(model).spec_children(),
                        (#[trigger] children@[m]).spec_names().last(),
                    ) >= 0,
                forall|m: int| 0 <= m < out@.len() ==> (#[trigger] out@[m]).valid_in(model),
                forall|m: int| 0 <= m < children@.len() ==> (#[trigger] children@[m]).spec_unknown_mode() == self.spec_unknown_mode(),
                forall|m: int| 0 <= m < out@.len() ==> (#[trigger] out@[m]).spec_unknown_mode() == self.spec_unknown_mode(),
                forall|m: int|
                    0 <= m < out@.len() ==> (#[trigger] out@[m]).spec_names().len()
                        > self.spec_names().len() && out@[m].spec_names().subrange(
                        0,
                        self.spec_names().len() as int,
                    ) == self.spec_names(),
                forall|q: Seq<Seq<char>>|
                    q.len() > 0 && (#[trigger] lookup(self.node_in(model), q)) is Some && last_names(
                        children@,
                    ).subrange(0, i as int).contains(q[0]) ==> listed(out@, self.spec_names() + q),
                parents_first(out@, self.spec_names().len() as int),
                top_in(out@, last_names(children@).subrange(0, i as int), self.spec_names().len() as int),
                last_names(children@).no_duplicates(),
                each_once(out@),
                distinct_below(self.node_in(model)),
                forall|a: int, b: int|
                    0 <= a < b < children@.len() ==> !seq_less(
                        (#[trigger] children@[b]).spec_names().last(),
                        (#[trigger] children@[a]).spec_names().last(),
                    ),
                in_path_order(out@),
            decreases children@.len() - i,
        {
            let child = &children[i];
            let ghost out_start = out@;
            proof {
                let last = child.spec_names().last();
                let c = child_pos(self.node_in(model).spec_children(), last);
                lemma_child_valid(model.spec_root(), self.spec_names(), last);
                lemma_child_pos(self.node_in(model).spec_children(), last);
                lemma_child_decreases(self.node_in(model), c);
                assert(child.spec_names().subrange(0, self.spec_names().len() as int)
                    =~= self.spec_names());
            }
            let ghost sl = self.spec_names().len() as int;
            let ghost top = child.spec_names().last();
            proof {
                assert forall|x: int| 0 <= x < out_start.len() implies seq_less(
                    (#[trigger] out_start[x]).spec_names()[sl],
                    top,
                ) by {
                    let ln = last_names(children@);
                    let w = choose|w: int| 0 <= w < i && ln.subrange(0, i as int)[w] == out_start[x].spec_names()[sl];
                    assert(ln[w] == children@[w].spec_names().last());
                    assert(ln[i as int] == top);
                    assert(!seq_less(children@[i as int].spec_names().last(), children@[w].spec_names().last()));
                    lemma_seq_less_total(ln[w], top);
                }
            }
            let dup = child.duplicate();
            out.push(dup);
            let ghost out_child = out@;
            proof {
                assert(out_child.subrange(0, out_start.len() as int) =~= out_start);
                assert(out_child[out_start.len() as int].spec_names() == child.spec_names());
                assert(child.spec_names().subrange(0, sl) =~= self.spec_names());
                assert forall|x: int| 0 <= x < out_start.len() implies (#[trigger] out_child[x]).spec_names().len() > sl
                    && out_child[x].spec_names().subrange(0, sl) == self.spec_names()
                    && seq_less(out_child[x].spec_names()[sl], top) by {
                    assert(out_child[x] == out_start[x]);
                }
                lemma_order_after_child(out_child, out_start.len() as int, sl, self.spec_names(), top);
            }
            proof {
                assert(out_child[out_start.len() as int].spec_names() == child.spec_names());
                assert(listed(out_child, child.spec_names()));
                assert(out_child.subrange(0, out_start.len() as int) =~= out_start);
                assert forall|m: int|
                    0 <= m < out_child.len() && (#[trigger] out_child[m]).spec_names().len() > self.spec_names().len() + 1
                        implies parent_before(out_child, m) by {
                    if m < out_start.len() {
                        lemma_parent_before_prefix(out_start, out_child, m);
                    }
                }
                assert(child.spec_names()[self.spec_names().len() as int] == child.spec_names().last());
                assert(last_names(children@)[i as int] == child.spec_names().last());
                {
                    lemma_new_top(last_names(children@), i as int, child.spec_names().last());
                    assert forall|x: int, y: int| 0 <= x < y < out_child.len() implies (#[trigger] out_child[x]).spec_names()
                        != (#[trigger] out_child[y]).spec_names() by {
                        assert(out_child[x] == out_start[x]);
                        if y < out_start.len() {
                            assert(out_child[y] == out_start[y]);
                        } else {
                            assert(last_names(children@).subrange(0, i as int).contains(out_start[x].spec_names()[self.spec_names().len() as int]));
                        }
                    }
                }
            }
            proof {
                let node = self.node_in(model);
                let last = child.spec_names().last();
                lemma_lookup_single(node, last);
            }
            let below = child.iter_children_req(model);
            let mut k: usize = 0;
            while k < below.len()
                invariant
                    out_child.len() <= out@.len(),
                    out@.subrange(0, out_child.len() as int) == out_child,
                    forall|x: int| 0 <= x < k ==> listed(out@, (#[trigger] below@[x]).spec_names()),
                    k <= below@.len(),
                    forall|m: int| 0 <= m < below@.len() ==> (#[trigger] below@[m]).valid_in(model),
                    forall|m: int|
                        0 <= m < below@.len() ==> (#[trigger] below@[m]).spec_names().len()
                            > child.spec_names().len() && below@[m].spec_names().subrange(
                            0,
                            child.spec_names().len() as int,
                        ) == child.spec_names(),
                    child.spec_names().len() == self.spec_names().len() + 1,
                    child.spec_names().subrange(0, self.spec_names().len() as int)
                        == self.spec_names(),
                    forall|m: int| 0 <= m < out@.len() ==> (#[trigger] out@[m]).valid_in(model),
                    forall|m: int| 0 <= m < below@.len() ==> (#[trigger] below@[m]).spec_unknown_mode() == self.spec_unknown_mode(),
                    forall|m: int| 0 <= m < out@.len() ==> (#[trigger] out@[m]).spec_unknown_mode() == self.spec_unknown_mode(),
                    forall|m: int|
                        0 <= m < out@.len() ==> (#[trigger] out@[m]).spec_names().len()
                            > self.spec_names().len() && out@[m].spec_names().subrange(
                            0,
                            self.spec_names().len() as int,
                        ) == self.spec_names(),
                    out@.len() == out_child.len() + k,
                    out_start.len() < out_child.len(),
                    out_child.len() == out_start.len() + 1,
                    out_child[out_start.len() as int].spec_names() == child.spec_names(),
                    forall|x: int| 0 <= x < k ==> (#[trigger] out@[out_child.len() + x]).spec_names() == below@[x].spec_names(),
                    parents_first(below@, child.spec_names().len() as int),
                    parents_first(out@, self.spec_names().len() as int),
                    i < children@.len(),
                    last_names(children@)[i as int] == child.spec_names().last(),
                    child.spec_names()[self.spec_names().len() as int] == child.spec_names().last(),
                    out_child.subrange(0, out_start.len() as int) == out_start,
                    top_in(out_start, last_names(children@).subrange(0, i as int), self.spec_names().len() as int),
                    forall|x: int| out_start.len() <= x < out@.len() ==> (#[trigger] out@[x]).spec_names()[self.spec_names().len() as int] == child.spec_names().last(),
                    last_names(children@).no_duplicates(),
                    !last_names(children@).subrange(0, i as int).contains(child.spec_names().last()),
                    each_once(below@),
                    each_once(out@),
                    in_path_order(out@),
                    in_path_order(below@),
                    distinct_below(self.node_in(model)),
                    sl == self.spec_names().len(),
                    top == child.spec_names().last(),
                    forall|x: int| 0 <= x < out_start.len() ==> seq_less((#[trigger] out_start[x]).spec_names()[sl], top),
                decreases below@.len() - k,
            {
                let item = below[k].duplicate();
                proof {
                    let nm = below@[k as int].spec_names();
                    assert(nm.subrange(0, self.spec_names().len() as int) =~= nm.subrange(
                        0,
                        child.spec_names().len() as int,
                    ).subrange(0, self.spec_names().len() as int));
                }
                let ghost before_item = out@;
                out.push(item);
                proof {
                    assert(out@.subrange(0, out_child.len() as int) =~= before_item.subrange(0, out_child.len() as int));
                    assert(out@[before_item.len() as int].spec_names() == below@[k as int].spec_names());
                    assert forall|x: int| 0 <= x < k + 1 implies listed(out@, (#[trigger] below@[x]).spec_names()) by {
                        if x < k {
                            assert(out@.subrange(0, before_item.len() as int) =~= before_item);
                            lemma_listed_prefix(before_item, out@, below@[x].spec_names());
                        }
                    }
                    assert(out@.subrange(0, before_item.len() as int) =~= before_item);
                    assert forall|x: int| 0 <= x < k + 1 implies (#[trigger] out@[out_child.len() + x]).spec_names()
                        == below@[x].spec_names() by {
                        if x < k {
                            assert(out@[out_child.len() + x] == before_item[out_child.len() + x]);
                        }
                    }
                    let n = before_item.len() as int;
                    assert(parent_before(out@, n) || out@[n].spec_names().len() <= self.spec_names().len() + 1) by {
                        let nm = below@[k as int].spec_names();
                        if nm.len() > child.spec_names().len() + 1 {
                            assert(parent_before(below@, k as int));
                            let j = choose|j: int| 0 <= j < k && (#[trigger] below@[j]).spec_names() == nm.drop_last();
                            assert(out@[out_child.len() + j].spec_names() == below@[j].spec_names());
                        } else {
                            assert(nm.len() == child.spec_names().len() + 1);
                            assert(nm.drop_last() =~= nm.subrange(0, child.spec_names().len() as int));
                            assert(out@[out_start.len() as int] == out_child[out_start.len() as int]) by {
                                assert(out@.subrange(0, out_child.len() as int)[out_start.len() as int]
                                    == out@[out_start.len() as int]);
                            }
                            assert(out@[out_start.len() as int].spec_names() == nm.drop_last());
                        }
                    }
                    assert forall|m: int|
                        0 <= m < out@.len() && (#[trigger] out@[m]).spec_names().len() > self.spec_names().len() + 1
                            implies parent_before(out@, m) by {
                        if m < n {
                            lemma_parent_before_prefix(before_item, out@, m);
                        }
                    }
                    let nm = below@[k as int].spec_names();
                    assert(nm[self.spec_names().len() as int] == nm.subrange(0, child.spec_names().len() as int)[self.spec_names().len() as int]);
                    assert(out@[n].spec_names()[self.spec_names().len() as int] == child.spec_names().last());
                    assert forall|x: int| out_start.len() <= x < out@.len() implies (#[trigger] out@[x]).spec_names()[self.spec_names().len() as int]
                        == child.spec_names().last() by {
                        if x < n {
                            assert(out@[x] == before_item[x]);
                        }
                    }
                    assert(out@.subrange(0, n) =~= before_item);
                    assert(nm.subrange(0, sl) =~= nm.subrange(0, child.spec_names().len() as int).subrange(0, sl));
                    assert forall|x: int| 0 <= x < out_start.len() implies (#[trigger] out@[x]).spec_names().len() > sl
                        && out@[x].spec_names().subrange(0, sl) == self.spec_names()
                        && seq_less(out@[x].spec_names()[sl], top) by {
                        assert(out@[x] == out_child[x]);
                        assert(out_child[x] == out_start[x]);
                    }
                    assert forall|x: int| 0 <= x < k implies (#[trigger] out@[out_start.len() + 1 + x]).spec_names() == below@[x].spec_names() by {
                        assert(out@[out_child.len() + x].spec_names() == below@[x].spec_names());
                    }
                    assert(out@[out_start.len() as int] == out_child[out_start.len() as int]);
                    lemma_order_after_push(out@, n, out_start.len() as int, below@, k as int, sl, self.spec_names(), top);
                    {
                        assert forall|x: int| 0 <= x < out_start.len() implies last_names(children@).subrange(0, i as int).contains(
                            (#[trigger] out@[x]).spec_names()[self.spec_names().len() as int],
                        ) by {
                            assert(out@[x] == out_child[x]);
                            assert(out_child[x] == out_start[x]);
                        }
                        assert(out@[out_start.len() as int] == out_child[out_start.len() as int]);
                        lemma_once_after_push(
                            out@,
                            n,
                            out_start.len() as int,
                            below@,
                            k as int,
                            child.spec_names(),
                            self.spec_names().len() as int,
                            last_names(children@).subrange(0, i as int),
                            child.spec_names().last(),
                        );
                    }
                }
                k = k + 1;
            }
            proof {
                let node = self.node_in(model);
                let n = child.spec_names().last();
                let c = child_pos(node.spec_children(), n);
                lemma_child_valid(model.spec_root(), self.spec_names(), n);
                assert(child.spec_names() == self.spec_names().push(n));
                assert(child.node_in(model) == node.spec_children()[c]);
                assert(last_names(children@).subrange(0, i + 1) =~= last_names(children@).subrange(0, i as int).push(n));
                assert forall|x: int| 0 <= x < out@.len() implies last_names(children@).subrange(0, i + 1).contains(
                    (#[trigger] out@[x]).spec_names()[self.spec_names().len() as int],
                ) by {
                    if x < out_start.len() {
                        assert(out@[x] == out_child[x]);
                        assert(out_child[x] == out_start[x]);
                        let w = choose|w: int| 0 <= w < i && last_names(children@).subrange(0, i as int)[w] == out_start[x].spec_names()[self.spec_names().len() as int];
                        assert(last_names(children@).subrange(0, i + 1)[w] == out_start[x].spec_names()[self.spec_names().len() as int]);
                    } else {
                        assert(last_names(children@).subrange(0, i + 1)[i as int] == n);
                    }
                }
                assert(out@.subrange(0, out_start.len() as int) =~= out_start) by {
                    assert(out@.subrange(0, out_child.len() as int) == out_child);
                    assert(out_child.subrange(0, out_start.len() as int) =~= out_start);
                }
                assert forall|q: Seq<Seq<char>>|
                    q.len() > 0 && (#[trigger] lookup(self.node_in(model), q)) is Some && last_names(
                        children@,
                    ).subrange(0, i + 1).contains(q[0]) implies listed(out@, self.spec_names() + q) by {
                    if last_names(children@).subrange(0, i as int).contains(q[0]) {
                        lemma_listed_prefix(out_start, out@, self.spec_names() + q);
                    } else {
                        let s0 = last_names(children@).subrange(0, i as int);
                        let s1 = last_names(children@).subrange(0, i + 1);
                        let w = choose|w: int| 0 <= w < s1.len() && #[trigger] s1[w] == q[0];
                        if w < i {
                            assert(s0[w] == q[0]);
                        }
                        assert(q[0] == n);
                        lemma_lookup_first(node, q);
                        if q.len() == 1 {
                            assert(self.spec_names() + q =~= child.spec_names());
                            lemma_listed_prefix(out_child, out@, child.spec_names());
                        } else {
                            let rest = q.drop_first();
                            assert(lookup(child.node_in(model), rest) is Some);
                            assert(listed(below@, child.spec_names() + rest));
                            let j = choose|j: int| 0 <= j < below@.len() && (#[trigger] below@[j]).spec_names() == child.spec_names() + rest;
                            assert(listed(out@, below@[j].spec_names()));
                            assert(self.spec_names() + q =~= child.spec_names() + rest);
                        }
                    }
                }
            }
            i = i + 1;
        }
        proof {
            let node = self.node_in(model);
            assert forall|q: Seq<Seq<char>>|
                q.len() > 0 && (#[trigger] lookup(self.node_in(model), q)) is Some implies listed(out@, self.spec_names() + q) by {
                let c = child_pos(node.spec_children(), q[0]);
                assert(c >= 0);
                lemma_child_pos(node.spec_children(), q[0]);
                assert(node.spec_children()[c].spec_name() == q[0]);
                assert(last_names(children@).contains(node.spec_children()[c].spec_name()));
                assert(last_names(children@).subrange(0, i as int) =~= last_names(children@));
            }
        }
        out
    }

    pub fn get_tags(&self, model: &TreeDataModel) -> (r: Vec<CommitTag>)
        requires
            self.valid_in(model),
        ensures
            r@.map_values(|t: CommitTag| t@) == self.node_in(model).spec_tags(),
    {
        let tags = self.get_node(model).get_tags();
        let mut out: Vec<CommitTag> = Vec::new();
        let mut i: usize = 0;
        while i < tags.len()
            invariant
                i <= tags@.len(),
                out@.map_values(|t: CommitTag| t@) == tags@.map_values(|t: CommitTag| t@).subrange(
                    0,
                    i as int,
                ),
            decreases tags@.len() - i,
        {
            let t = tags[i].clone();
            let ghost before = out@;
            out.push(t);
            assert(out@.map_values(|t: CommitTag| t@) =~= before.map_values(|t: CommitTag| t@).push(
                tags@[i as int]@,
            ));
            assert(out@.map_values(|t: CommitTag| t@) =~= tags@.map_values(|t: CommitTag| t@).subrange(
                0,
                i + 1,
            ));
            i = i + 1;
        }
        assert(tags@.map_values(|t: CommitTag| t@).subrange(0, i as int) =~= tags@.map_values(
            |t: CommitTag| t@,
        ));
        out
    }

    /// Whether the node has a tag named `tag`.
    pub fn has_tag(&self, model: &TreeDataModel, tag: &str) -> (r: bool)
        requires
            self.valid_in(model),
        ensures
            r == exists|i: int|
                0 <= i < self.node_in(model).spec_tags().len()
                    && #[trigger] self.node_in(model).spec_tags()[i].tag == tag@,
    {
        let tags = self.get_node(model).get_tags();
        let mut i: usize = 0;
        while i < tags.len()
            invariant
                i <= tags@.len(),
                tags@.map_values(|t: CommitTag| t@) == self.node_in(model).spec_tags(),
                forall|k: int|
                    0 <= k < i ==> (#[trigger] self.node_in(model).spec_tags()[k]).tag != tag@,
            decreases tags@.len() - i,
        {
            if str_eq(tags[i].get_tag().as_str(), tag) {
                assert(self.node_in(model).spec_tags()[i as int].tag == tag@);
                return true;
            }
            i = i + 1;
        }
        false
    }

    /// The branch data of the node.
    pub fn get_metadata(&self, model: &TreeDataModel) -> (r: BranchData)
        requires
            self.valid_in(model),
        ensures
            r@ == self.node_in(model).spec_branch(),
    {
        self.get_node(model).get_branch_data().clone()
    }

    /// The type of the node.
    pub fn get_actual_type(&self, model: &TreeDataModel) -> (r: NodeType)
        requires
            self.valid_in(model),
        ensures
            r == self.node_in(model).spec_type(),
    {
        *self.get_node(model).get_type()
    }

    /// The same path typed with any node type.
    pub fn as_any_type(&self) -> (r: NodePath<AnyNode>)
        ensures
            r.spec_names() == self.spec_names(),
            r.spec_unknown_mode() == self.spec_unknown_mode(),
            r.spec_head() == self.spec_head(),
    {
        NodePath::<AnyNode>::from_concrete(self)
    }

    /// The textual path: the empty name of the virtual root followed by the
    /// names, pointing to this path's version.
    pub fn to_normalized_path(&self) -> (r: NormalizedPath)
        ensures
            r@ == self.spec_normalized(),
    {
        let mut names: Vec<String> = Vec::new();
        names.push(String::new());
        let mut i: usize = 0;
        while i < self.path.len()
            invariant
                i <= self.path@.len(),
                views(names@) == seq![Seq::<char>::empty()] + views(self.path@).subrange(0, i as int),
            decreases self.path@.len() - i,
        {
            let ghost before = names@;
            let item = self.path[i].clone();
            names.push(item);
            assert(views(names@) == views(before).push(item@));
            assert(views(names@) =~= seq![Seq::<char>::empty()] + views(self.path@).subrange(0, i + 1));
            i = i + 1;
        }
        assert(views(self.path@).subrange(0, i as int) =~= views(self.path@));
        let mut path = NormalizedPath::from_vec(names);
        path.set_head(self.points_to.clone());
        path
    }

    /// Whether both paths print the same segments.
    pub fn equals<A: SymbolicNodeType>(&self, other: &NodePath<A>) -> (r: bool)
        ensures
            r == (self.spec_normalized().segments == other.spec_normalized().segments),
    {
        self.to_normalized_path().equals(&other.to_normalized_path())
    }
}

impl<T: SymbolicNodeType> ToNormalizedPath for NodePath<T> {
    fn to_normalized_path(&self) -> (r: NormalizedPath)
        ensures
            r@ == self.spec_normalized(),
    {
        NodePath::<T>::to_normalized_path(self)
    }
}

impl NodePath<AnyNode> {
    /// The path of `other`, typed with any node type.
    pub fn from_concrete<T: SymbolicNodeType>(other: &NodePath<T>) -> (r: Self)
        ensures
            r.spec_names() == other.spec_names(),
            r.spec_unknown_mode() == other.spec_unknown_mode(),
            r.spec_head() == other.spec_head(),
    {
        let path = other.path.clone();
        assert(path@ =~= other.path@);
        Self::new(path, other.unknown_mode, other.points_to.clone())
    }
}

/// Whether a path to a node of type `t` can be typed with `To`: always where
/// the tree has nodes of unknown type.
pub open spec fn typable<To: SymbolicNodeType>(unknown_mode: bool, t: NodeType) -> bool {
    unknown_mode || To::spec_compatible(t)
}

/// Whether one of `paths` has the view `v`.
pub open spec fn has_view<T: SymbolicNodeType>(paths: Seq<NodePath<T>>, v: NodePathView) -> bool {
    exists|m: int| 0 <= m < paths.len() && (#[trigger] paths[m])@ == v
}

/// The paths of `all` that can be typed with `To`, so typed, in order.
pub fn keep_typed<From: SymbolicNodeType, To: SymbolicNodeType>(all: &Vec<NodePath<From>>, model: &TreeDataModel) -> (r: Vec<NodePath<To>>)
    requires
        forall|m: int| 0 <= m < all@.len() ==> (#[trigger] all@[m]).valid_in(model),
    ensures
        forall|i: int|
            0 <= i < r@.len() ==> (#[trigger] r@[i]).valid_in(model) && typable::<To>(
                r@[i].spec_unknown_mode(),
                r@[i].node_in(model).spec_type(),
            ) && has_view(all@, r@[i]@),
        forall|m: int|
            0 <= m < all@.len() && typable::<To>(
                (#[trigger] all@[m]).spec_unknown_mode(),
                all@[m].node_in(model).spec_type(),
            ) ==> has_view(r@, all@[m]@),
{
    let mut out: Vec<NodePath<To>> = Vec::new();
    let mut i: usize = 0;
    while i < all.len()
        invariant
            i <= all@.len(),
            forall|m: int| 0 <= m < all@.len() ==> (#[trigger] all@[m]).valid_in(model),
            forall|k: int|
                0 <= k < out@.len() ==> (#[trigger] out@[k]).valid_in(model) && typable::<To>(
                    out@[k].spec_unknown_mode(),
                    out@[k].node_in(model).spec_type(),
                ) && has_view(all@, out@[k]@),
            forall|m: int|
                0 <= m < i && typable::<To>(
                    (#[trigger] all@[m]).spec_unknown_mode(),
                    all@[m].node_in(model).spec_type(),
                ) ==> has_view(out@, all@[m]@),
        decreases all@.len() - i,
    {
        let ghost before = out@;
        if let Some(f) = all[i].try_convert_to::<To>(model) {
            out.push(f);
            proof {
                assert(out@[before.len() as int] == f);
                assert(all@[i as int]@ == f@);
                assert(has_view(all@, f@));
                assert(has_view(out@, all@[i as int]@));
                assert forall|k: int| 0 <= k < out@.len() implies (#[trigger] out@[k]).valid_in(model) && typable::<To>(
                    out@[k].spec_unknown_mode(),
                    out@[k].node_in(model).spec_type(),
                ) && has_view(all@, out@[k]@) by {
                    if k < before.len() {
                        assert(out@[k] == before[k]);
                    }
                }
                assert forall|m: int|
                    0 <= m < i && typable::<To>(
                        (#[trigger] all@[m]).spec_unknown_mode(),
                        all@[m].node_in(model).spec_type(),
                    ) implies has_view(out@, all@[m]@) by {
                    let j = choose|j: int| 0 <= j < before.len() && (#[trigger] before[j])@ == all@[m]@;
                    assert(out@[j] == before[j]);
                }
            }
        }
        i = i + 1;
    }
    out
}

impl<T: HasFeatureChildren> NodePath<T> {
    pub fn move_to_feature(self, model: &TreeDataModel, path: &NormalizedPath) -> (r: Option<NodePath<Feature>>)
        requires
            self.valid_in(model),
        ensures
            r matches Some(p) ==> p.spec_names() == self.spec_names() + path@.segments && p.valid_in(
                model,
            ) && p.spec_unknown_mode() == self.spec_unknown_mode() && p.spec_head() == path@.head,
            r is Some <==> (lookup(model.spec_root(), self.spec_names() + path@.segments) is Some && typable::<
                Feature,
            >(
                self.spec_unknown_mode(),
                lookup(model.spec_root(), self.spec_names() + path@.segments).unwrap().spec_type(),
            )),
    {
        match self.move_to(model, path) {
            Some(p) => p.try_convert_to(model),
            None => None,
        }
    }

    /// The children, typed as features.
    pub fn iter_features(&self, model: &TreeDataModel) -> (r: Vec<NodePath<Feature>>)
        requires
            self.valid_in(model),
        ensures
            forall|i: int|
                0 <= i < r@.len() ==> (#[trigger] r@[i]).valid_in(model) && r@[i].spec_unknown_mode()
                    == self.spec_unknown_mode() && r@[i].spec_names() == self.spec_names().push(
                    r@[i].spec_names().last(),
                ) && typable::<Feature>(self.spec_unknown_mode(), r@[i].node_in(model).spec_type()),
            forall|name: Seq<char>|
                #![trigger child_pos(self.node_in(model).spec_children(), name)]
                child_pos(self.node_in(model).spec_children(), name) >= 0 && typable::<Feature>(
                    self.spec_unknown_mode(),
                    self.node_in(model).spec_children()[child_pos(self.node_in(model).spec_children(), name)].spec_type(),
                ) ==> listed(r@, self.spec_names().push(name)),
    {
        let all = self.iter_children(model);
        let r = keep_typed::<AnyNode, Feature>(&all, model);
        proof {
            let node = self.node_in(model);
            assert forall|i: int| 0 <= i < r@.len() implies (#[trigger] r@[i]).spec_unknown_mode()
                == self.spec_unknown_mode() && r@[i].spec_names() == self.spec_names().push(
                r@[i].spec_names().last(),
            ) by {
                let m = choose|m: int| 0 <= m < all@.len() && (#[trigger] all@[m])@ == r@[i]@;
                assert(all@[m].spec_names() == self.spec_names().push(all@[m].spec_names().last()));
            }
            assert forall|name: Seq<char>|
                #![trigger child_pos(self.node_in(model).spec_children(), name)]
                child_pos(node.spec_children(), name) >= 0 && typable::<Feature>(
                    self.spec_unknown_mode(),
                    node.spec_children()[child_pos(node.spec_children(), name)].spec_type(),
                ) implies listed(r@, self.spec_names().push(name)) by {
                let c = child_pos(node.spec_children(), name);
                lemma_child_pos(node.spec_children(), name);
                assert(node.spec_children()[c].spec_name() == name);
                assert(last_names(all@).contains(node.spec_children()[c].spec_name()));
                let m = choose|m: int| 0 <= m < last_names(all@).len() && last_names(all@)[m] == name;
                assert(all@[m].spec_names() == self.spec_names().push(name));
                lemma_child_valid(model.spec_root(), self.spec_names(), name);
                assert(all@[m].node_in(model) == node.spec_children()[c]);
                let j = choose|j: int| 0 <= j < r@.len() && (#[trigger] r@[j])@ == all@[m]@;
                assert(r@[j].spec_names() == all@[m].spec_names());
            }
        }
        r
    }

    /// All nodes below, typed as features.
    pub fn iter_features_req(&self, model: &TreeDataModel) -> (r: Vec<NodePath<Feature>>)
        requires
            self.valid_in(model),
        ensures
            forall|i: int|
                0 <= i < r@.len() ==> (#[trigger] r@[i]).valid_in(model) && r@[i].spec_unknown_mode()
                    == self.spec_unknown_mode() && r@[i].spec_names().len() > self.spec_names().len()
                    && r@[i].spec_names().subrange(0, self.spec_names().len() as int) == self.spec_names()
                    && typable::<Feature>(self.spec_unknown_mode(), r@[i].node_in(model).spec_type()),
            forall|q: Seq<Seq<char>>|
                q.len() > 0 && (#[trigger] lookup(self.node_in(model), q)) is Some && typable::<Feature>(
                    self.spec_unknown_mode(),
                    lookup(self.node_in(model), q).unwrap().spec_type(),
                ) ==> listed(r@, self.spec_names() + q),
    {
        let all = self.iter_children_req(model);
        let r = keep_typed::<AnyNode, Feature>(&all, model);
        proof {
            let node = self.node_in(model);
            assert forall|i: int| 0 <= i < r@.len() implies (#[trigger] r@[i]).spec_unknown_mode()
                == self.spec_unknown_mode() && r@[i].spec_names().len() > self.spec_names().len()
                && r@[i].spec_names().subrange(0, self.spec_names().len() as int) == self.spec_names() by {
                let m = choose|m: int| 0 <= m < all@.len() && (#[trigger] all@[m])@ == r@[i]@;
                assert(all@[m].spec_names().len() > self.spec_names().len());
            }
            assert forall|q: Seq<Seq<char>>|
                q.len() > 0 && (#[trigger] lookup(self.node_in(model), q)) is Some && typable::<Feature>(
                    self.spec_unknown_mode(),
                    lookup(self.node_in(model), q).unwrap().spec_type(),
                ) implies listed(r@, self.spec_names() + q) by {
                assert(listed(all@, self.spec_names() + q));
                let m = choose|m: int| 0 <= m < all@.len() && (#[trigger] all@[m]).spec_names() == self.spec_names() + q;
                lemma_lookup_append(model.spec_root(), self.spec_names(), q);
                assert(all@[m].node_in(model) == lookup(node, q).unwrap());
                let j = choose|j: int| 0 <= j < r@.len() && (#[trigger] r@[j])@ == all@[m]@;
                assert(r@[j].spec_names() == all@[m].spec_names());
            }
        }
        r
    }
}

impl<T: HasProductChildren> NodePath<T> {
    pub fn move_to_product(self, model: &TreeDataModel, path: &NormalizedPath) -> (r: Option<NodePath<Product>>)
        requires
            self.valid_in(model),
        ensures
            r matches Some(p) ==> p.spec_names() == self.spec_names() + path@.segments && p.valid_in(
                model,
            ) && p.spec_unknown_mode() == self.spec_unknown_mode() && p.spec_head() == path@.head,
            r is Some <==> (lookup(model.spec_root(), self.spec_names() + path@.segments) is Some && typable::<
                Product,
            >(
                self.spec_unknown_mode(),
                lookup(model.spec_root(), self.spec_names() + path@.segments).unwrap().spec_type(),
            )),
    {
        match self.move_to(model, path) {
            Some(p) => p.try_convert_to(model),
            None => None,
        }
    }

    /// The children, typed as products.
    pub fn iter_products(&self, model: &TreeDataModel) -> (r: Vec<NodePath<Product>>)
        requires
            self.valid_in(model),
        ensures
            forall|i: int|
                0 <= i < r@.len() ==> (#[trigger] r@[i]).valid_in(model) && r@[i].spec_unknown_mode()
                    == self.spec_unknown_mode() && r@[i].spec_names() == self.spec_names().push(
                    r@[i].spec_names().last(),
                ) && typable::<Product>(self.spec_unknown_mode(), r@[i].node_in(model).spec_type()),
            forall|name: Seq<char>|
                #![trigger child_pos(self.node_in(model).spec_children(), name)]
                child_pos(self.node_in(model).spec_children(), name) >= 0 && typable::<Product>(
                    self.spec_unknown_mode(),
                    self.node_in(model).spec_children()[child_pos(self.node_in(model).spec_children(), name)].spec_type(),
                ) ==> listed(r@, self.spec_names().push(name)),
    {
        let all = self.iter_children(model);
        let r = keep_typed::<AnyNode, Product>(&all, model);
        proof {
            let node = self.node_in(model);
            assert forall|i: int| 0 <= i < r@.len() implies (#[trigger] r@[i]).spec_unknown_mode()
                == self.spec_unknown_mode() && r@[i].spec_names() == self.spec_names().push(
                r@[i].spec_names().last(),
            ) by {
                let m = choose|m: int| 0 <= m < all@.len() && (#[trigger] all@[m])@ == r@[i]@;
                assert(all@[m].spec_names() == self.spec_names().push(all@[m].spec_names().last()));
            }
            assert forall|name: Seq<char>|
                #![trigger child_pos(self.node_in(model).spec_children(), name)]
                child_pos(node.spec_children(), name) >= 0 && typable::<Product>(
                    self.spec_unknown_mode(),
                    node.spec_children()[child_pos(node.spec_children(), name)].spec_type(),
                ) implies listed(r@, self.spec_names().push(name)) by {
                let c = child_pos(node.spec_children(), name);
                lemma_child_pos(node.spec_children(), name);
                assert(node.spec_children()[c].spec_name() == name);
                assert(last_names(all@).contains(node.spec_children()[c].spec_name()));
                let m = choose|m: int| 0 <= m < last_names(all@).len() && last_names(all@)[m] == name;
                assert(all@[m].spec_names() == self.spec_names().push(name));
                lemma_child_valid(model.spec_root(), self.spec_names(), name);
                assert(all@[m].node_in(model) == node.spec_children()[c]);
                let j = choose|j: int| 0 <= j < r@.len() && (#[trigger] r@[j])@ == all@[m]@;
                assert(r@[j].spec_names() == all@[m].spec_names());
            }
        }
        r
    }

    /// All nodes below, typed as products.
    pub fn iter_products_req(&self, model: &TreeDataModel) -> (r: Vec<NodePath<Product>>)
        requires
            self.valid_in(model),
        ensures
            forall|i: int|
                0 <= i < r@.len() ==> (#[trigger] r@[i]).valid_in(model) && r@[i].spec_unknown_mode()
                    == self.spec_unknown_mode() && r@[i].spec_names().len() > self.spec_names().len()
                    && r@[i].spec_names().subrange(0, self.spec_names().len() as int) == self.spec_names()
                    && typable::<Product>(self.spec_unknown_mode(), r@[i].node_in(model).spec_type()),
            forall|q: Seq<Seq<char>>|
                q.len() > 0 && (#[trigger] lookup(self.node_in(model), q)) is Some && typable::<Product>(
                    self.spec_unknown_mode(),
                    lookup(self.node_in(model), q).unwrap().spec_type(),
                ) ==> listed(r@, self.spec_names() + q),
    {
        let all = self.iter_children_req(model);
        let r = keep_typed::<AnyNode, Product>(&all, model);
        proof {
            let node = self.node_in(model);
            assert forall|i: int| 0 <= i < r@.len() implies (#[trigger] r@[i]).spec_unknown_mode()
                == self.spec_unknown_mode() && r@[i].spec_names().len() > self.spec_names().len()
                && r@[i].spec_names().subrange(0, self.spec_names().len() as int) == self.spec_names() by {
                let m = choose|m: int| 0 <= m < all@.len() && (#[trigger] all@[m])@ == r@[i]@;
                assert(all@[m].spec_names().len() > self.spec_names().len());
            }
            assert forall|q: Seq<Seq<char>>|
                q.len() > 0 && (#[trigger] lookup(self.node_in(model), q)) is Some && typable::<Product>(
                    self.spec_unknown_mode(),
                    lookup(self.node_in(model), q).unwrap().spec_type(),
                ) implies listed(r@, self.spec_names() + q) by {
                assert(listed(all@, self.spec_names() + q));
                let m = choose|m: int| 0 <= m < all@.len() && (#[trigger] all@[m]).spec_names() == self.spec_names() + q;
                lemma_lookup_append(model.spec_root(), self.spec_names(), q);
                assert(all@[m].node_in(model) == lookup(node, q).unwrap());
                let j = choose|j: int| 0 <= j < r@.len() && (#[trigger] r@[j])@ == all@[m]@;
                assert(r@[j].spec_names() == all@[m].spec_names());
            }
        }
        r
    }
}

impl<T: IsOnOrUnderArea> NodePath<T> {
    /// The path to the area this node is on or under.
    pub fn move_to_area(self, model: &TreeDataModel) -> (r: NodePath<ConcreteArea>)
        requires
            self.valid_in(model),
            self.spec_names().len() >= 1,
            self.spec_unknown_mode() || ConcreteArea::spec_compatible(
                lookup(model.spec_root(), self.spec_names().subrange(0, 1)).unwrap().spec_type(),
            ),
        ensures
            r.spec_names() == self.spec_names().subrange(0, 1),
    {
        let ghost names = self.spec_names();
        proof {
            lemma_lookup_append(model.spec_root(), names.subrange(0, 1), names.subrange(1, names.len() as int));
            assert(names.subrange(0, 1) + names.subrange(1, names.len() as int) =~= names);
        }
        self.move_to_index(1).try_convert_to(model).unwrap()
    }
}

impl<T: IsGitObject> NodePath<T> {
    /// The name of the node's git branch.
    pub fn get_ref_name(&self, model: &TreeDataModel) -> (r: String)
        requires
            self.valid_in(model),
            self.node_in(model).spec_branch().branch is Some,
        ensures
            r@ == self.node_in(model).spec_branch().branch.unwrap(),
    {
        self.get_node(model).get_branch_data().get_branch().unwrap().clone()
    }

    /// The git object the path points to: the head commit of the node, a
    /// commit, or a tag.
    pub fn get_raw_object(&self, model: &TreeDataModel) -> (r: String)
        requires
            self.valid_in(model),
            self.spec_head() is Head ==> self.node_in(model).spec_branch().head is Some,
        ensures
            r@ == match self.spec_head() {
                VersionPointerView::Head => self.node_in(model).spec_branch().head.unwrap(),
                VersionPointerView::Commit(c) => c,
                VersionPointerView::Tag(t) => t,
            },
    {
        match &self.points_to {
            VersionPointer::Head => self.get_node(model).get_branch_data().get_head().unwrap().get_full_hash().clone(),
            VersionPointer::Commit(hash) => hash.get_full_hash().clone(),
            VersionPointer::Tag(tag) => tag.clone(),
        }
    }

    /// The head commit of the node's branch.
    pub fn get_head(&self, model: &TreeDataModel) -> (r: CommitHash)
        requires
            self.valid_in(model),
            self.node_in(model).spec_branch().head is Some,
        ensures
            r@ == self.node_in(model).spec_branch().head.unwrap(),
    {
        self.get_node(model).get_branch_data().get_head().unwrap().clone()
    }

    pub fn get_version(&self) -> (r: &VersionPointer)
        ensures
            r@ == self.spec_head(),
    {
        &self.points_to
    }

    pub fn update_version(&mut self, head: VersionPointer)
        ensures
            final(self).spec_head() == head@,
            final(self).spec_names() == old(self).spec_names(),
            final(self).spec_unknown_mode() == old(self).spec_unknown_mode(),
    {
        self.points_to = head;
    }
}

impl NodePath<VirtualRoot> {
    /// The area at `area` below the virtual root.
    pub fn move_to_area(self, model: &TreeDataModel, area: &NormalizedPath) -> (r: Option<NodePath<ConcreteArea>>)
        requires
            self.spec_names().len() == 0,
        ensures
            r matches Some(p) ==> p.spec_names() == area@.segments && p.valid_in(model),
            r is None ==> lookup(model.spec_root(), area@.segments) is None || !(
            self.spec_unknown_mode() || ConcreteArea::spec_compatible(
                lookup(model.spec_root(), area@.segments).unwrap().spec_type(),
            )),
    {
        assert(lookup(model.spec_root(), self.spec_names()) is Some);
        assert(self.spec_names() + area@.segments =~= area@.segments);
        match self.move_to(model, area) {
            Some(p) => p.try_convert_to(model),
            None => None,
        }
    }
}

proof fn lemma_feature_word()
    ensures
        is_plain_word(FEATURE_ROOT@),
        is_plain_word(PRODUCT_ROOT@),
{
    reveal_strlit("feature");
    reveal_strlit("product");
}

/// Adding a plain word to any path is defined.
proof fn lemma_add_word_defined(l: QPathView, w: Seq<char>)
    requires
        is_plain_word(w),
    ensures
        spec_qadd_defined(l, spec_from_str(w)),
{
    lemma_plain_word(w);
    let r = spec_from_str(w).segments;
    assert(r[0] != seq!['.', '.']) by {
        if r[0] == seq!['.', '.'] {
            assert(w[0] == '.');
        }
    }
    let start = if l.segments.len() > 1 && l.segments.last().len() == 0 {
        spec_from_segments(l.segments.drop_last())
    } else {
        l
    };
    lemma_qadd_defined_without_parent(start, l.segments.len() as int, r, 0);
}

impl NodePath<ConcreteArea> {
    /// The textual path of the area's feature root.
    pub fn get_path_to_feature_root(&self) -> (r: NormalizedPath)
        requires
            self.spec_normalized().segments.len() < usize::MAX,
        ensures
            r@ == spec_qadd(self.spec_normalized(), spec_from_str(FEATURE_ROOT@)),
    {
        let rhs = NormalizedPath::from_str(FEATURE_ROOT);
        let lhs = self.to_normalized_path();
        proof {
            lemma_feature_word();
            lemma_plain_word(FEATURE_ROOT@);
            lemma_add_word_defined(lhs@, FEATURE_ROOT@);
        }
        lhs.add(rhs)
    }

    /// The textual path of the area's product root.
    pub fn get_path_to_product_root(&self) -> (r: NormalizedPath)
        requires
            self.spec_normalized().segments.len() < usize::MAX,
        ensures
            r@ == spec_qadd(self.spec_normalized(), spec_from_str(PRODUCT_ROOT@)),
    {
        let rhs = NormalizedPath::from_str(PRODUCT_ROOT);
        let lhs = self.to_normalized_path();
        proof {
            lemma_feature_word();
            lemma_plain_word(PRODUCT_ROOT@);
            lemma_add_word_defined(lhs@, PRODUCT_ROOT@);
        }
        lhs.add(rhs)
    }

    /// The area's feature root; in a tree with nodes of unknown type, the
    /// virtual root stands in for it.
    pub fn move_to_feature_root(self, model: &TreeDataModel) -> (r: Option<NodePath<FeatureRoot>>)
        requires
            self.valid_in(model),
        ensures
            self.spec_unknown_mode() ==> (r matches Some(p) && p.spec_names().len() == 0),
            !self.spec_unknown_mode() ==> (r matches Some(p) ==> p.valid_in(model)
                && p.spec_names() == self.spec_names().push(FEATURE_ROOT@)),
            !self.spec_unknown_mode() ==> (r is Some <==> (lookup(model.spec_root(), self.spec_names().push(FEATURE_ROOT@))
                is Some && FeatureRoot::spec_compatible(
                lookup(model.spec_root(), self.spec_names().push(FEATURE_ROOT@)).unwrap().spec_type(),
            ))),
    {
        if self.unknown_mode {
            Some(NodePath::<FeatureRoot>::new(Vec::new(), self.unknown_mode, VersionPointer::Head))
        } else {
            let target = NormalizedPath::from_str(FEATURE_ROOT);
            proof {
                lemma_feature_word();
                lemma_plain_word(FEATURE_ROOT@);
            }
            let ghost names = self.spec_names();
            assert(names + target@.segments =~= names.push(FEATURE_ROOT@));
            match self.move_to(model, &target) {
                Some(p) => p.try_convert_to(model),
                None => None,
            }
        }
    }

    /// The area's product root; in a tree with nodes of unknown type, the
    /// virtual root stands in for it.
    pub fn move_to_product_root(self, model: &TreeDataModel) -> (r: Option<NodePath<ProductRoot>>)
        requires
            self.valid_in(model),
        ensures
            self.spec_unknown_mode() ==> (r matches Some(p) && p.spec_names().len() == 0),
            !self.spec_unknown_mode() ==> (r matches Some(p) ==> p.valid_in(model)
                && p.spec_names() == self.spec_names().push(PRODUCT_ROOT@)),
            !self.spec_unknown_mode() ==> (r is Some <==> (lookup(model.spec_root(), self.spec_names().push(PRODUCT_ROOT@))
                is Some && ProductRoot::spec_compatible(
                lookup(model.spec_root(), self.spec_names().push(PRODUCT_ROOT@)).unwrap().spec_type(),
            ))),
    {
        if self.unknown_mode {
            Some(NodePath::<ProductRoot>::new(Vec::new(), self.unknown_mode, VersionPointer::Head))
        } else {
            let target = NormalizedPath::from_str(PRODUCT_ROOT);
            proof {
                lemma_feature_word();
                lemma_plain_word(PRODUCT_ROOT@);
            }
            let ghost names = self.spec_names();
            assert(names + target@.segments =~= names.push(PRODUCT_ROOT@));
            match self.move_to(model, &target) {
                Some(p) => p.try_convert_to(model),
                None => None,
            }
        }
    }
}

} // verus!
