//! The nodes of the repository tree: each has a name, a type, the git branch
//! that backs it (if any), its tags and its children.
use crate::model::node_type::{spec_next_type, NodeType};
use crate::model::qualified_path::{spec_from_str, NormalizedPath};
use crate::text::{join, str_eq, views};
use vstd::prelude::*;
use vstd::string::*;

verus! {

/// A commit, by its full hash of at least eight characters.
#[derive(Debug)]
pub struct CommitHash {
    full_hash: String,
}

impl View for CommitHash {
    type V = Seq<char>;

    closed spec fn view(&self) -> Seq<char> {
        self.full_hash@
    }
}

impl Clone for CommitHash {
    fn clone(&self) -> (r: Self)
        ensures
            r@ == self@,
    {
        CommitHash { full_hash: self.full_hash.clone() }
    }
}

impl CommitHash {
    /// A hash shorter than eight bytes is not a commit hash.
    pub fn new(full_hash: String) -> (r: Self)
        requires
            crate::text::utf8_len(full_hash@) >= 8,
        ensures
            r@ == full_hash@,
    {
        CommitHash { full_hash }
    }

    pub fn get_full_hash(&self) -> (r: &String)
        ensures
            r@ == self@,
    {
        &self.full_hash
    }

    /// The characters of the first eight bytes of the hash.
    pub fn get_short_hash(&self) -> (r: String)
        requires
            crate::model::qualified_path::has_short_hash(self@),
        ensures
            r@ == self@.subrange(0, crate::model::qualified_path::short_end(self@)),
    {
        crate::text::utf8_prefix(self.full_hash.as_str(), 8)
    }

    pub fn equals(&self, other: &CommitHash) -> (r: bool)
        ensures
            r == (self@ == other@),
    {
        str_eq(self.full_hash.as_str(), other.full_hash.as_str())
    }
}

/// The tag name of a tag path: the last segment of the path it parses to.
pub open spec fn spec_tag_name(full_path: Seq<char>) -> Seq<char> {
    spec_from_str(full_path).segments.last()
}

/// A tag: its full path and its name.
#[derive(Debug)]
pub struct CommitTag {
    tag: String,
    full_path: String,
}

pub struct CommitTagView {
    pub tag: Seq<char>,
    pub full_path: Seq<char>,
}

impl View for CommitTag {
    type V = CommitTagView;

    closed spec fn view(&self) -> CommitTagView {
        CommitTagView { tag: self.tag@, full_path: self.full_path@ }
    }
}

impl Clone for CommitTag {
    fn clone(&self) -> (r: Self)
        ensures
            r@ == self@,
    {
        CommitTag { tag: self.tag.clone(), full_path: self.full_path.clone() }
    }
}

impl CommitTag {
    /// The view of the tag made from its full path.
    pub open spec fn spec_new(full_path: Seq<char>) -> CommitTagView {
        CommitTagView { tag: spec_tag_name(full_path), full_path }
    }

    pub fn new(full_path: String) -> (r: Self)
        requires
            spec_from_str(full_path@).segments.len() > 0,
        ensures
            r@ == (CommitTagView { tag: spec_tag_name(full_path@), full_path: full_path@ }),
    {
        let normalized = NormalizedPath::from_str(full_path.as_str());
        let tag = normalized.last().unwrap().clone();
        CommitTag { tag, full_path }
    }

    pub fn get_full_path(&self) -> (r: &String)
        ensures
            r@ == self@.full_path,
    {
        &self.full_path
    }

    pub fn get_tag(&self) -> (r: &String)
        ensures
            r@ == self@.tag,
    {
        &self.tag
    }
}

/// The git branch behind a node and the commit it points to.
#[derive(Debug)]
pub struct BranchData {
    branch: Option<String>,
    head: Option<CommitHash>,
}

pub struct BranchDataView {
    pub branch: Option<Seq<char>>,
    pub head: Option<Seq<char>>,
}

impl View for BranchData {
    type V = BranchDataView;

    closed spec fn view(&self) -> BranchDataView {
        BranchDataView {
            branch: match self.branch {
                Some(b) => Some(b@),
                None => None,
            },
            head: match self.head {
                Some(h) => Some(h@),
                None => None,
            },
        }
    }
}

impl Clone for BranchData {
    fn clone(&self) -> (r: Self)
        ensures
            r@ == self@,
    {
        let branch = match &self.branch {
            Some(b) => Some(b.clone()),
            None => None,
        };
        let head = match &self.head {
            Some(h) => Some(h.clone()),
            None => None,
        };
        BranchData { branch, head }
    }
}

impl BranchData {
    /// The view of the branch data made from a branch name and a head.
    pub open spec fn spec_new(branch: Option<Seq<char>>, head: Option<Seq<char>>) -> BranchDataView {
        BranchDataView { branch, head }
    }

    pub fn new(branch: Option<String>, head: Option<CommitHash>) -> (r: Self)
        ensures
            r@.branch == (match branch {
                Some(b) => Some(b@),
                None => None,
            }),
            r@.head == (match head {
                Some(h) => Some(h@),
                None => None,
            }),
    {
        Self { branch, head }
    }

    pub fn empty() -> (r: Self)
        ensures
            r@.branch is None,
            r@.head is None,
    {
        Self { branch: None, head: None }
    }

    pub fn has_branch(&self) -> (r: bool)
        ensures
            r == self@.branch is Some,
    {
        self.branch.is_some()
    }

    pub fn get_branch(&self) -> (r: Option<&String>)
        ensures
            self@.branch is None ==> r is None,
            self@.branch matches Some(b) ==> (r matches Some(s) && s@ == b),
    {
        match &self.branch {
            Some(b) => Some(b),
            None => None,
        }
    }

    pub fn get_head(&self) -> (r: Option<&CommitHash>)
        ensures
            self@.head is None ==> r is None,
            self@.head matches Some(h) ==> (r matches Some(c) && c@ == h),
    {
        match &self.head {
            Some(h) => Some(h),
            None => None,
        }
    }
}

/// What is inserted at a path: a branch, or a tag.
pub enum PayloadType {
    Branch(BranchData),
    Tag(CommitTag),
}

/// What is inserted, in terms of characters.
pub enum PayloadView {
    Branch(BranchDataView),
    Tag(CommitTagView),
}

impl View for PayloadType {
    type V = PayloadView;

    open spec fn view(&self) -> PayloadView {
        match self {
            PayloadType::Branch(b) => PayloadView::Branch(b@),
            PayloadType::Tag(t) => PayloadView::Tag(t@),
        }
    }
}

/// A node of the repository tree.
#[derive(Debug)]
pub struct Node {
    name: String,
    node_type: NodeType,
    branch_data: BranchData,
    tags: Vec<CommitTag>,
    children: Vec<Node>,
}

impl Node {
    pub closed spec fn spec_name(self) -> Seq<char> {
        self.name@
    }

    pub closed spec fn spec_type(self) -> NodeType {
        self.node_type
    }

    pub closed spec fn spec_branch(self) -> BranchDataView {
        self.branch_data@
    }

    pub closed spec fn spec_tags(self) -> Seq<CommitTagView> {
        self.tags@.map_values(|t: CommitTag| t@)
    }

    pub closed spec fn spec_children(self) -> Seq<Node> {
        self.children@
    }
}

/// The index of the first of `cs` named `name`, or -1.
pub open spec fn child_pos(cs: Seq<Node>, name: Seq<char>) -> int
    decreases cs.len(),
{
    if cs.len() == 0 {
        -1
    } else {
        let k = child_pos(cs.drop_last(), name);
        if k >= 0 {
            k
        } else if cs.last().spec_name() == name {
            cs.len() - 1
        } else {
            -1
        }
    }
}

/// No two of the nodes have the same name.
pub open spec fn names_distinct(cs: Seq<Node>) -> bool {
    forall|a: int, b: int| 0 <= a < b < cs.len() ==> (#[trigger] cs[a]).spec_name() != (#[trigger] cs[b]).spec_name()
}

/// No node at or below `n` has two children of the same name.
pub closed spec fn tidy(n: Node) -> bool
    decreases n,
{
    &&& names_distinct(n.children@)
    &&& forall|j: int| 0 <= j < n.children@.len() ==> tidy(#[trigger] n.children@[j])
}

/// A tree is tidy when its children have distinct names and each of them
/// is tidy.
pub proof fn lemma_tidy(n: Node)
    ensures
        tidy(n) == (names_distinct(n.spec_children()) && forall|j: int|
            0 <= j < n.spec_children().len() ==> tidy(#[trigger] n.spec_children()[j])),
{
}

/// The node reached from `n` by following children named `names`.
pub open spec fn lookup(n: Node, names: Seq<Seq<char>>) -> Option<Node>
    decreases names.len(),
{
    if names.len() == 0 {
        Some(n)
    } else {
        let k = child_pos(n.spec_children(), names[0]);
        if k < 0 {
            None
        } else {
            lookup(n.spec_children()[k], names.drop_first())
        }
    }
}

/// The name under which a segment is inserted: the segment read as a path
/// and printed again.
pub open spec fn seg_name(seg: Seq<char>) -> Seq<char> {
    join(spec_from_str(seg).segments, seq!['/'])
}

/// The node names that inserting at a path with segments `segs` follows.
pub open spec fn insert_names(segs: Seq<Seq<char>>) -> Seq<Seq<char>> {
    segs.map_values(|s: Seq<char>| seg_name(s))
}

pub proof fn lemma_child_pos(cs: Seq<Node>, name: Seq<char>)
    ensures
        -1 <= child_pos(cs, name) < cs.len(),
        child_pos(cs, name) >= 0 ==> cs[child_pos(cs, name)].spec_name() == name,
        child_pos(cs, name) >= 0 ==> forall|j: int|
            0 <= j < child_pos(cs, name) ==> (#[trigger] cs[j]).spec_name() != name,
        child_pos(cs, name) < 0 ==> forall|j: int|
            0 <= j < cs.len() ==> (#[trigger] cs[j]).spec_name() != name,
    decreases cs.len(),
{
    if cs.len() > 0 {
        lemma_child_pos(cs.drop_last(), name);
        assert forall|j: int| 0 <= j < cs.len() - 1 implies #[trigger] cs[j] == cs.drop_last()[j] by {}
    }
}

/// Replacing a child by one with the same name keeps every position.
pub proof fn lemma_child_pos_update(cs: Seq<Node>, k: int, c: Node, name: Seq<char>)
    requires
        0 <= k < cs.len(),
        c.spec_name() == cs[k].spec_name(),
    ensures
        child_pos(cs.update(k, c), name) == child_pos(cs, name),
    decreases cs.len(),
{
    if cs.len() > 0 {
        if k < cs.len() - 1 {
            assert(cs.update(k, c).drop_last() =~= cs.drop_last().update(k, c));
            lemma_child_pos_update(cs.drop_last(), k, c, name);
        } else {
            assert(cs.update(k, c).drop_last() =~= cs.drop_last());
        }
    }
}

/// Appending a child keeps every position and finds the new child if no
/// earlier one has its name.
pub proof fn lemma_child_pos_push(cs: Seq<Node>, c: Node, name: Seq<char>)
    ensures
        child_pos(cs, name) >= 0 ==> child_pos(cs.push(c), name) == child_pos(cs, name),
        child_pos(cs, name) < 0 && c.spec_name() == name ==> child_pos(cs.push(c), name)
            == cs.len(),
        child_pos(cs, name) < 0 && c.spec_name() != name ==> child_pos(cs.push(c), name) < 0,
{
    assert(cs.push(c).drop_last() =~= cs);
}

/// A child is smaller than its parent.
pub proof fn lemma_child_decreases(n: Node, k: int)
    requires
        0 <= k < n.spec_children().len(),
    ensures
        decreases_to!(n => n.spec_children()[k]),
{
    assert(decreases_to!(n => n.children));
    assert(decreases_to!(n.children => n.children@));
    assert(decreases_to!(n.children@ => n.children@[k]));
}

/// Looking up a single name gives the first child of that name.
pub proof fn lemma_lookup_single(n: Node, name: Seq<char>)
    ensures
        lookup(n, seq![name]) == if child_pos(n.spec_children(), name) >= 0 {
            Some(n.spec_children()[child_pos(n.spec_children(), name)])
        } else {
            None::<Node>
        },
{
    assert(seq![name][0] == name);
    assert(seq![name].drop_first() =~= Seq::<Seq<char>>::empty());
    let k = child_pos(n.spec_children(), name);
    if k >= 0 {
        assert(lookup(n.spec_children()[k], Seq::<Seq<char>>::empty()) == Some(n.spec_children()[k]));
    }
}

/// Nodes reached by names depend only on the children.
pub proof fn lemma_lookup_same_children(a: Node, b: Node, names: Seq<Seq<char>>)
    requires
        a.spec_children() == b.spec_children(),
        names.len() > 0,
    ensures
        lookup(a, names) == lookup(b, names),
{
}

impl Node {
    pub fn new(name: String, node_type: NodeType, branch_data: BranchData, tags: Vec<CommitTag>) -> (r: Self)
        ensures
            r.spec_name() == name@,
            r.spec_type() == node_type,
            r.spec_branch() == branch_data@,
            r.spec_tags() == tags@.map_values(|t: CommitTag| t@),
            r.spec_children().len() == 0,
    {
        Self { name, node_type, branch_data, tags, children: Vec::new() }
    }

    pub fn update_branch_data(&mut self, metadata: BranchData)
        ensures
            final(self).spec_branch() == metadata@,
            final(self).spec_name() == old(self).spec_name(),
            final(self).spec_type() == old(self).spec_type(),
            final(self).spec_tags() == old(self).spec_tags(),
            final(self).spec_children() == old(self).spec_children(),
    {
        self.branch_data = metadata;
    }

    pub fn add_tag(&mut self, tag: CommitTag)
        ensures
            final(self).spec_tags() == old(self).spec_tags().push(tag@),
            final(self).spec_name() == old(self).spec_name(),
            final(self).spec_type() == old(self).spec_type(),
            final(self).spec_branch() == old(self).spec_branch(),
            final(self).spec_children() == old(self).spec_children(),
    {
        let ghost t = tag@;
        self.tags.push(tag);
        assert(self.tags@.map_values(|x: CommitTag| x@) =~= old(self).tags@.map_values(
            |x: CommitTag| x@,
        ).push(t));
    }

    pub fn update_type(&mut self, node_type: NodeType)
        ensures
            final(self).spec_type() == node_type,
            final(self).spec_name() == old(self).spec_name(),
            final(self).spec_branch() == old(self).spec_branch(),
            final(self).spec_tags() == old(self).spec_tags(),
            final(self).spec_children() == old(self).spec_children(),
    {
        self.node_type = node_type;
    }

    pub fn get_name(&self) -> (r: &String)
        ensures
            r@ == self.spec_name(),
    {
        &self.name
    }

    pub fn get_type(&self) -> (r: &NodeType)
        ensures
            *r == self.spec_type(),
    {
        &self.node_type
    }

    pub fn get_branch_data(&self) -> (r: &BranchData)
        ensures
            r@ == self.spec_branch(),
    {
        &self.branch_data
    }

    pub fn get_tags(&self) -> (r: &Vec<CommitTag>)
        ensures
            r@.map_values(|t: CommitTag| t@) == self.spec_tags(),
    {
        &self.tags
    }

    /// The position of the child named `name`.
    fn find_child(&self, name: &str) -> (r: Option<usize>)
        ensures
            r is None ==> child_pos(self.spec_children(), name@) < 0,
            r matches Some(k) ==> k == child_pos(self.spec_children(), name@),
    {
        proof {
            lemma_child_pos(self.children@, name@);
        }
        let mut i: usize = 0;
        while i < self.children.len()
            invariant
                i <= self.children@.len(),
                forall|j: int| 0 <= j < i ==> (#[trigger] self.children@[j]).spec_name() != name@,
                -1 <= child_pos(self.children@, name@) < self.children@.len(),
                child_pos(self.children@, name@) >= 0 ==> self.children@[child_pos(
                    self.children@,
                    name@,
                )].spec_name() == name@,
                child_pos(self.children@, name@) >= 0 ==> forall|j: int|
                    0 <= j < child_pos(self.children@, name@) ==> (
                    #[trigger] self.children@[j]).spec_name() != name@,
                child_pos(self.children@, name@) < 0 ==> forall|j: int|
                    0 <= j < self.children@.len() ==> (#[trigger] self.children@[j]).spec_name()
                        != name@,
            decreases self.children@.len() - i,
        {
            if str_eq(self.children[i].name.as_str(), name) {
                return Some(i);
            }
            i = i + 1;
        }
        None
    }

    /// The child named `name`.
    pub fn get_child(&self, name: &str) -> (r: Option<&Node>)
        ensures
            child_pos(self.spec_children(), name@) < 0 ==> r is None,
            child_pos(self.spec_children(), name@) >= 0 ==> (r matches Some(c) && *c
                == self.spec_children()[child_pos(self.spec_children(), name@)]),
    {
        proof {
            lemma_child_pos(self.children@, name@);
        }
        match self.find_child(name) {
            Some(k) => Some(&self.children[k]),
            None => None,
        }
    }

    pub fn has_children(&self) -> (r: bool)
        ensures
            r == (self.spec_children().len() > 0),
    {
        self.children.len() > 0
    }

    /// Whether the drawn tree shows the node's type after its name: for
    /// every type but abstract features and abstract products.
    pub fn shows_type_in_tree(&self) -> (r: bool)
        ensures
            r == !(self.spec_type() == NodeType::AbstractFeature || self.spec_type() == NodeType::AbstractProduct),
    {
        match self.node_type {
            NodeType::AbstractFeature => false,
            NodeType::AbstractProduct => false,
            _ => true,
        }
    }

    pub fn get_children(&self) -> (r: &Vec<Node>)
        ensures
            r@ == self.spec_children(),
    {
        &self.children
    }

    /// The node's name as a path.
    pub fn as_qualified_path(&self) -> (r: NormalizedPath)
        ensures
            r@ == spec_from_str(self.spec_name()),
    {
        NormalizedPath::from_str(self.name.as_str())
    }

    fn add_child(&mut self, name: String, metadata: PayloadType) -> (r: NodeType)
        requires
            child_pos(old(self).spec_children(), name@) < 0,
        ensures
            r == spec_next_type(
                old(self).spec_type(),
                name@,
                match metadata {
                    PayloadType::Branch(b) => b@.branch is Some,
                    PayloadType::Tag(_) => false,
                },
            ),
            final(self).spec_name() == old(self).spec_name(),
            final(self).spec_type() == old(self).spec_type(),
            final(self).spec_branch() == old(self).spec_branch(),
            final(self).spec_tags() == old(self).spec_tags(),
            final(self).spec_children().len() == old(self).spec_children().len() + 1,
            final(self).spec_children().drop_last() == old(self).spec_children(),
            final(self).spec_children().last().spec_name() == name@,
            final(self).spec_children().last().spec_type() == r,
            final(self).spec_children().last().spec_children().len() == 0,
            match metadata {
                PayloadType::Branch(b) => {
                    &&& final(self).spec_children().last().spec_branch() == b@
                    &&& final(self).spec_children().last().spec_tags().len() == 0
                },
                PayloadType::Tag(t) => {
                    &&& final(self).spec_children().last().spec_branch().branch is None
                    &&& final(self).spec_children().last().spec_branch().head is None
                    &&& final(self).spec_children().last().spec_tags() == seq![t@]
                },
            },
    {
        let (branch, tags) = match metadata {
            PayloadType::Branch(branch) => (branch, Vec::new()),
            PayloadType::Tag(tag) => {
                let mut tags = Vec::new();
                tags.push(tag);
                (BranchData::empty(), tags)
            },
        };
        let node_type = self.node_type.decide_next_type(name.as_str(), &branch);
        let child = Node::new(name, node_type, branch, tags);
        let ghost before = self.children@;
        self.children.push(child);
        assert(self.children@.drop_last() =~= before);
        proof {
            if tags@.len() == 1 {
                assert(tags@.map_values(|t: CommitTag| t@) =~= seq![tags@[0]@]);
            } else {
                assert(tags@.map_values(|t: CommitTag| t@) =~= Seq::<CommitTagView>::empty());
            }
        }
        node_type
    }

    fn update_child(&mut self, k: usize, metadata: PayloadType) -> (r: NodeType)
        requires
            k < old(self).spec_children().len(),
        ensures
            final(self).spec_name() == old(self).spec_name(),
            final(self).spec_type() == old(self).spec_type(),
            final(self).spec_branch() == old(self).spec_branch(),
            final(self).spec_tags() == old(self).spec_tags(),
            final(self).spec_children().len() == old(self).spec_children().len(),
            forall|j: int|
                0 <= j < final(self).spec_children().len() && j != k ==> (#[trigger] final(self).spec_children()[j]) == old(self).spec_children()[j],
            final(self).spec_children()[k as int].spec_name() == old(self).spec_children()[k as int].spec_name(),
            final(self).spec_children()[k as int].spec_children() == old(self).spec_children()[k as int].spec_children(),
            final(self).spec_children()[k as int].spec_type() == r,
            match metadata {
                PayloadType::Branch(b) => {
                    &&& r == spec_next_type(
                        old(self).spec_type(),
                        old(self).spec_children()[k as int].spec_name(),
                        b@.branch is Some,
                    )
                    &&& final(self).spec_children()[k as int].spec_branch() == b@
                    &&& final(self).spec_children()[k as int].spec_tags() == old(self).spec_children()[k as int].spec_tags()
                },
                PayloadType::Tag(t) => {
                    &&& r == old(self).spec_children()[k as int].spec_type()
                    &&& final(self).spec_children()[k as int].spec_branch() == old(self).spec_children()[k as int].spec_branch()
                    &&& final(self).spec_children()[k as int].spec_tags() == old(self).spec_children()[k as int].spec_tags().push(t@)
                },
            },
    {
        let mut child = self.children.remove(k);
        let node_type = match metadata {
            PayloadType::Branch(branch) => {
                let new_type = self.node_type.decide_next_type(child.name.as_str(), &branch);
                child.update_type(new_type);
                child.update_branch_data(branch);
                new_type
            },
            PayloadType::Tag(tag) => {
                child.add_tag(tag);
                child.node_type
            },
        };
        self.children.insert(k, child);
        assert(self.children@ =~= old(self).children@.update(k as int, child));
        node_type
    }

    /// Inserts along `names[i..]`, creating missing nodes on the way.
    #[verifier::rlimit(40)]
    #[verifier::spinoff_prover]
    fn insert_from(&mut self, names: &Vec<String>, i: usize, metadata: PayloadType) -> (r: NodeType)
        requires
            i <= names@.len(),
        ensures
            final(self).spec_name() == old(self).spec_name(),
            final(self).spec_type() == old(self).spec_type(),
            i == names@.len() ==> r == old(self).spec_type() && *final(self) == *old(self),
            final(self).spec_branch() == old(self).spec_branch(),
            final(self).spec_tags() == old(self).spec_tags(),
            tidy(*old(self)) ==> tidy(*final(self)),
            inserted(
                *old(self),
                *final(self),
                views(names@).subrange(i as int, names@.len() as int),
                metadata@,
                r,
            ),
        decreases names@.len() - i,
    {
        let n = names.len();
        let ghost s = views(names@).subrange(i as int, n as int);
        if i == n {
            proof {
                assert forall|q: Seq<Seq<char>>| lookup(*old(self), q) is Some implies #[trigger] lookup(
                    *self,
                    q,
                ) is Some by {}
            }
            return self.node_type;
        }
        let name = names[i].as_str();
        let ghost md = metadata@;
        assert(name@ == s[0]);
        proof {
            lemma_child_pos(self.children@, name@);
        }
        if i + 1 == n {
            assert(s.drop_last() =~= Seq::<Seq<char>>::empty());
            assert(s.drop_first() =~= Seq::<Seq<char>>::empty());
            assert(s.last() == s[0]);
            assert(lookup(*old(self), s.drop_last()) == Some(*old(self)));
            match self.find_child(name) {
                Some(k) => {
                    let ghost old_children = self.children@;
                    let ghost old_self = *self;
                    let r = self.update_child(k, metadata);
                    proof {
                        assert(self.children@ =~= old_children.update(k as int, self.children@[k as int]));
                        assert forall|nm: Seq<char>| #[trigger] child_pos(self.children@, nm) == child_pos(old_children, nm) by {
                            lemma_child_pos_update(old_children, k as int, self.children@[k as int], nm);
                        }
                        assert(child_pos(self.children@, s[0]) == k as int);
                        assert(child_pos(old_children, s[0]) == k as int);
                        assert(lookup(self.children@[k as int], s.drop_first()) == Some(self.children@[k as int]));
                        assert(lookup(old_children[k as int], s.drop_first()) == Some(old_children[k as int]));
                        assert(lookup(*self, s) == Some(self.children@[k as int]));
                        assert(lookup(old_self, s) == Some(old_children[k as int]));
                        assert forall|q: Seq<Seq<char>>| lookup(old_self, q) is Some implies #[trigger] lookup(
                            *self,
                            q,
                        ) is Some by {
                            if q.len() > 0 {
                                let j = child_pos(old_children, q[0]);
                                lemma_child_pos(old_children, q[0]);
                                assert(j >= 0);
                                assert(child_pos(self.children@, q[0]) == j);
                                if j == k {
                                    if q.drop_first().len() > 0 {
                                        lemma_lookup_same_children(old_children[j], self.children@[j], q.drop_first());
                                    }
                                } else {
                                    assert(self.children@[j] == old_children[j]);
                                }
                                assert(lookup(*self, q) == lookup(self.children@[j], q.drop_first()));
                            }
                        }
                        assert forall|q: Seq<Seq<char>>| lookup(old_self, q) is Some && q != s implies same_record(
                            lookup(old_self, q).unwrap(),
                            #[trigger] lookup(*self, q).unwrap(),
                        ) by {
                            if q.len() > 0 {
                                let j = child_pos(old_children, q[0]);
                                lemma_child_pos(old_children, q[0]);
                                assert(child_pos(self.children@, q[0]) == j);
                                if j == k {
                                    if q.len() == 1 {
                                        assert(q =~= s);
                                    }
                                    lemma_lookup_same_children(old_children[j], self.children@[j], q.drop_first());
                                } else {
                                    assert(self.children@[j] == old_children[j]);
                                }
                                assert(lookup(*self, q) == lookup(self.children@[j], q.drop_first()));
                            }
                        }
                        assert(inserted(old_self, *self, s, md, r));
                        if tidy(old_self) {
                            assert(tidy(self.children@[k as int]) == tidy(old_children[k as int]));
                            assert forall|a: int, b: int| 0 <= a < b < self.children@.len() implies (#[trigger] self.children@[a]).spec_name()
                                != (#[trigger] self.children@[b]).spec_name() by {
                                assert(old_children[a].spec_name() != old_children[b].spec_name());
                            }
                            assert forall|j: int| 0 <= j < self.children@.len() implies tidy(#[trigger] self.children@[j]) by {
                                assert(tidy(old_children[j]));
                            }
                        }
                    }
                    r
                },
                None => {
                    let ghost old_children = self.children@;
                    let ghost old_self = *self;
                    let r = self.add_child(names[i].clone(), metadata);
                    proof {
                        assert(self.children@ =~= old_children.push(self.children@.last()));
                        assert forall|nm: Seq<char>| child_pos(old_children, nm) >= 0 implies #[trigger] child_pos(self.children@, nm) == child_pos(old_children, nm) by {
                            lemma_child_pos_push(old_children, self.children@.last(), nm);
                        }
                        lemma_child_pos_push(old_children, self.children@.last(), s[0]);
                        assert(child_pos(self.children@, s[0]) == old_children.len());
                        assert(self.children@[old_children.len() as int] == self.children@.last());
                        assert(lookup(self.children@.last(), s.drop_first()) == Some(self.children@.last()));
                        assert(lookup(*self, s) == Some(self.children@.last()));
                        assert(lookup(old_self, s) is None);
                        assert forall|q: Seq<Seq<char>>| lookup(old_self, q) is Some implies #[trigger] lookup(
                            *self,
                            q,
                        ) is Some by {
                            if q.len() > 0 {
                                let j = child_pos(old_children, q[0]);
                                lemma_child_pos(old_children, q[0]);
                                assert(self.children@[j] == old_children[j]);
                            }
                        }
                        assert forall|q: Seq<Seq<char>>| lookup(old_self, q) is Some && q != s implies same_record(
                            lookup(old_self, q).unwrap(),
                            #[trigger] lookup(*self, q).unwrap(),
                        ) by {
                            if q.len() > 0 {
                                let j = child_pos(old_children, q[0]);
                                lemma_child_pos(old_children, q[0]);
                                assert(self.children@[j] == old_children[j]);
                                assert(lookup(*self, q) == lookup(self.children@[j], q.drop_first()));
                            }
                        }
                        let last = self.children@.last();
                        match md {
                            PayloadView::Branch(b) => {
                                assert(last.spec_tags() =~= Seq::<CommitTagView>::empty());
                            },
                            PayloadView::Tag(t) => {
                                assert(last.spec_tags() =~= Seq::<CommitTagView>::empty().push(t));
                            },
                        }
                        assert(inserted(old_self, *self, s, md, r));
                        if tidy(old_self) {
                            assert(tidy(last));
                            assert forall|a: int, b: int| 0 <= a < b < self.children@.len() implies (#[trigger] self.children@[a]).spec_name()
                                != (#[trigger] self.children@[b]).spec_name() by {
                                if b < old_children.len() {
                                    assert(old_children[a].spec_name() != old_children[b].spec_name());
                                } else {
                                    assert(old_children[a].spec_name() != s[0]);
                                }
                            }
                            assert forall|j: int| 0 <= j < self.children@.len() implies tidy(#[trigger] self.children@[j]) by {
                                if j < old_children.len() {
                                    assert(tidy(old_children[j]));
                                }
                            }
                        }
                    }
                    r
                },
            }
        } else {
            let ghost old_self = *self;
            let ghost old_children = self.children@;
            let found = self.find_child(name);
            let ghost existed = found is Some;
            let k = match found {
                Some(k) => k,
                None => {
                    self.add_child(names[i].clone(), PayloadType::Branch(BranchData::empty()));
                    proof {
                        let made = self.children@.last();
                        assert(made.spec_branch().branch is None && made.spec_branch().head is None);
                        assert(made.spec_tags().len() == 0);
                        assert(made.spec_type() == spec_next_type(self.spec_type(), s[0], false));
                        assert(self.children@ =~= old_children.push(self.children@.last()));
                        lemma_child_pos_push(old_children, self.children@.last(), s[0]);
                    }
                    self.children.len() - 1
                },
            };
            let ghost mid_children = self.children@;
            proof {
                assert forall|j: int| 0 <= j < old_children.len() implies #[trigger] mid_children[j]
                    == old_children[j] by {
                    if !existed {
                        assert(mid_children == old_children.push(mid_children.last()));
                    }
                }
                assert forall|nm: Seq<char>| child_pos(old_children, nm) >= 0 implies #[trigger] child_pos(
                    mid_children,
                    nm,
                ) == child_pos(old_children, nm) by {
                    if !existed {
                        lemma_child_pos_push(old_children, mid_children.last(), nm);
                    }
                }
            }
            let ghost before_child = mid_children[k as int];
            assert(child_pos(mid_children, s[0]) == k);
            assert(existed ==> before_child == old_children[k as int]);
            assert(!existed ==> before_child.spec_children().len() == 0 && k == old_children.len());
            let mut child = self.children.remove(k);
            let r = child.insert_from(names, i + 1, metadata);
            let ghost new_child = child;
            self.children.insert(k, child);
            proof {
                let s1 = views(names@).subrange(i + 1, n as int);
                assert(s1 =~= s.drop_first());
                assert(s.drop_last().drop_first() =~= s1.drop_last());
                assert(s.drop_last().len() > 0);
                assert(s.drop_last()[0] == s[0]);
                assert(s1.last() == s.last());
                assert(self.children@ =~= mid_children.update(k as int, new_child));
                assert forall|nm: Seq<char>| #[trigger] child_pos(self.children@, nm) == child_pos(
                    mid_children,
                    nm,
                ) by {
                    lemma_child_pos_update(mid_children, k as int, new_child, nm);
                }
                assert(self.children@[k as int] == new_child);
                assert(lookup(*self, s) == lookup(new_child, s1));
                assert(lookup(*self, s.drop_last()) == lookup(new_child, s1.drop_last()));
                if existed {
                    assert(lookup(old_self, s) == lookup(before_child, s1));
                } else {
                    lemma_child_pos(old_children, s[0]);
                    assert(lookup(old_self, s) is None);
                    assert(lookup(before_child, s1) is None);
                }
                assert forall|q: Seq<Seq<char>>| lookup(old_self, q) is Some implies #[trigger] lookup(
                    *self,
                    q,
                ) is Some by {
                    if q.len() > 0 {
                        let j = child_pos(old_children, q[0]);
                        lemma_child_pos(old_children, q[0]);
                        assert(j >= 0);
                        assert(child_pos(mid_children, q[0]) == j);
                        assert(child_pos(self.children@, q[0]) == j);
                        assert(lookup(old_self, q) == lookup(old_children[j], q.drop_first()));
                        if j == k {
                            assert(lookup(before_child, q.drop_first()) is Some);
                            assert(lookup(new_child, q.drop_first()) is Some);
                        } else {
                            assert(self.children@[j] == mid_children[j]);
                            assert(self.children@[j] == old_children[j]);
                        }
                        assert(lookup(*self, q) == lookup(self.children@[j], q.drop_first()));
                    }
                }
                assert(child_pos(self.children@, s[0]) == k);
                assert(existed ==> before_child.spec_name() == s[0]) by {
                    lemma_child_pos(mid_children, s[0]);
                }
                assert forall|q: Seq<Seq<char>>| lookup(old_self, q) is Some && q != s implies same_record(
                    lookup(old_self, q).unwrap(),
                    #[trigger] lookup(*self, q).unwrap(),
                ) by {
                    if q.len() > 0 {
                        let j = child_pos(old_children, q[0]);
                        lemma_child_pos(old_children, q[0]);
                        assert(child_pos(self.children@, q[0]) == j);
                        assert(lookup(old_self, q) == lookup(old_children[j], q.drop_first()));
                        assert(lookup(*self, q) == lookup(self.children@[j], q.drop_first()));
                        if j == k {
                            assert(q[0] == s[0]);
                            if q.drop_first() == s1 {
                                assert(q =~= seq![q[0]] + q.drop_first());
                                assert(s =~= seq![s[0]] + s1);
                            }
                            assert(lookup(before_child, q.drop_first()) is Some);
                            assert(lookup(new_child, q.drop_first()) is Some);
                        } else {
                            assert(self.children@[j] == mid_children[j]);
                            assert(self.children@[j] == old_children[j]);
                        }
                    }
                }
                assert forall|l: int|
                    #![trigger lookup(*self, s.subrange(0, l))]
                    1 <= l < s.len() && lookup(old_self, s.subrange(0, l)) is None implies made_on_the_way(*self, s, l) by {
                    let p = s.subrange(0, l);
                    assert(p[0] == s[0]);
                    assert(p.drop_first() =~= s1.subrange(0, l - 1));
                    assert(lookup(*self, p) == lookup(new_child, s1.subrange(0, l - 1)));
                    if existed {
                        assert(child_pos(old_children, s[0]) == k);
                        assert(lookup(old_self, p) == lookup(before_child, s1.subrange(0, l - 1)));
                    }
                    if l == 1 {
                        assert(existed ==> lookup(old_self, p) is Some);
                        assert(s1.subrange(0, 0) =~= Seq::<Seq<char>>::empty());
                        assert(s.subrange(0, 0) =~= Seq::<Seq<char>>::empty());
                    } else {
                        let p0 = s.subrange(0, l - 1);
                        assert(p0[0] == s[0]);
                        assert(p0.drop_first() =~= s1.subrange(0, l - 2));
                        assert(lookup(*self, p0) == lookup(new_child, s1.subrange(0, l - 2)));
                        if !existed {
                            assert(child_pos(before_child.spec_children(), s1[0]) < 0);
                            assert(s1.subrange(0, l - 1)[0] == s1[0]);
                        }
                        assert(lookup(before_child, s1.subrange(0, l - 1)) is None);
                        assert(made_on_the_way(new_child, s1, l - 1));
                        assert(s[l - 1] == s1[l - 2]);
                    }
                }
                if tidy(old_self) {
                    assert(tidy(before_child)) by {
                        if existed {
                            assert(tidy(old_children[k as int]));
                        }
                    }
                    assert(new_child.spec_name() == before_child.spec_name());
                    assert forall|a: int, b: int| 0 <= a < b < self.children@.len() implies (#[trigger] self.children@[a]).spec_name()
                        != (#[trigger] self.children@[b]).spec_name() by {
                        assert(self.children@[a].spec_name() == mid_children[a].spec_name());
                        assert(self.children@[b].spec_name() == mid_children[b].spec_name());
                        if existed {
                            assert(old_children[a].spec_name() != old_children[b].spec_name());
                        } else if b < old_children.len() {
                            assert(old_children[a].spec_name() != old_children[b].spec_name());
                        } else {
                            lemma_child_pos(old_children, s[0]);
                            assert(old_children[a].spec_name() != s[0]);
                        }
                    }
                    assert forall|j: int| 0 <= j < self.children@.len() implies tidy(#[trigger] self.children@[j]) by {
                        if j != k {
                            if j < old_children.len() {
                                assert(tidy(old_children[j]));
                            }
                        }
                    }
                }
            }
            r
        }
    }

    /// Inserts a branch or tag at `path`, creating missing nodes on the way,
    /// and returns the type of the node reached. Each segment is read as a
    /// path of its own and printed again to give the name of its node.
    pub fn insert_path(&mut self, path: &NormalizedPath, metadata: PayloadType) -> (r: NodeType)
        ensures
            final(self).spec_name() == old(self).spec_name(),
            final(self).spec_type() == old(self).spec_type(),
            path@.segments.len() == 0 ==> r == old(self).spec_type() && *final(self) == *old(self),
            tidy(*old(self)) ==> tidy(*final(self)),
            inserted(*old(self), *final(self), insert_names(path@.segments), metadata@, r),
    {
        let segs = path.iter_string();
        let mut names: Vec<String> = Vec::new();
        let mut i: usize = 0;
        while i < segs.len()
            invariant
                i <= segs@.len(),
                views(segs@) == path@.segments,
                views(names@) == insert_names(path@.segments).subrange(0, i as int),
            decreases segs@.len() - i,
        {
            let seg_path = NormalizedPath::from_str(segs[i].as_str());
            let name = seg_path.to_string();
            assert(name@ == seg_name(path@.segments[i as int]));
            let ghost before = names@;
            names.push(name);
            assert(views(names@) == views(before).push(name@));
            assert(views(names@) =~= insert_names(path@.segments).subrange(0, i + 1));
            i = i + 1;
        }
        assert(views(names@).subrange(0, names@.len() as int) =~= insert_names(path@.segments));
        self.insert_from(&names, 0, metadata)
    }
}

/// A branch inserted below a product root or a product makes a concrete
/// product there, and one inserted below a feature root or a feature a
/// concrete feature, whatever its name.
pub proof fn law_inserted_branch_is_concrete(
    old: Node,
    new: Node,
    names: Seq<Seq<char>>,
    b: BranchDataView,
    r: NodeType,
)
    requires
        inserted(old, new, names, PayloadView::Branch(b), r),
        names.len() > 0,
        b.branch is Some,
    ensures
        ({
            let parent = lookup(new, names.drop_last()).unwrap().spec_type();
            &&& (parent == NodeType::ProductRoot || parent == NodeType::ConcreteProduct || parent
                == NodeType::AbstractProduct) ==> r == NodeType::ConcreteProduct
                && lookup(new, names).unwrap().spec_type() == NodeType::ConcreteProduct
            &&& (parent == NodeType::FeatureRoot || parent == NodeType::ConcreteFeature || parent
                == NodeType::AbstractFeature) ==> r == NodeType::ConcreteFeature
                && lookup(new, names).unwrap().spec_type() == NodeType::ConcreteFeature
        }),
{
}

/// The two nodes carry the same type, branch data and tags.
pub open spec fn same_record(a: Node, b: Node) -> bool {
    &&& a.spec_type() == b.spec_type()
    &&& a.spec_branch() == b.spec_branch()
    &&& a.spec_tags() == b.spec_tags()
}

/// The node at the first `l` of `names` in `new` was made on the way: it has
/// no branch data and no tags, and its type is decided from its parent's
/// type and its name, without a branch.
pub open spec fn made_on_the_way(new: Node, names: Seq<Seq<char>>, l: int) -> bool {
    &&& lookup(new, names.subrange(0, l)) is Some
    &&& lookup(new, names.subrange(0, l - 1)) is Some
    &&& lookup(new, names.subrange(0, l)).unwrap().spec_branch().branch is None
    &&& lookup(new, names.subrange(0, l)).unwrap().spec_branch().head is None
    &&& lookup(new, names.subrange(0, l)).unwrap().spec_tags().len() == 0
    &&& lookup(new, names.subrange(0, l)).unwrap().spec_type() == spec_next_type(
        lookup(new, names.subrange(0, l - 1)).unwrap().spec_type(),
        names[l - 1],
        false,
    )
}

/// After inserting `metadata` along `names` into `old`, giving `new` and the
/// type `r`: every node of `old` is still reached in `new`, and all but the
/// one at `names` keep their type, branch data and tags; the nodes made on
/// the way carry nothing and get their types as without a branch; the node at
/// `names` exists with type `r`, carries the inserted branch data or tag, and
/// its type is decided from its parent's type, its name and whether it has a
/// branch (a tag on an existing node keeps that node's type and branch).
pub open spec fn inserted(
    old: Node,
    new: Node,
    names: Seq<Seq<char>>,
    metadata: PayloadView,
    r: NodeType,
) -> bool {
    &&& forall|q: Seq<Seq<char>>| lookup(old, q) is Some ==> #[trigger] lookup(new, q) is Some
    &&& forall|q: Seq<Seq<char>>|
        lookup(old, q) is Some && q != names ==> same_record(lookup(old, q).unwrap(), #[trigger] lookup(new, q).unwrap())
    &&& forall|l: int|
        #![trigger lookup(new, names.subrange(0, l))]
        1 <= l < names.len() && lookup(old, names.subrange(0, l)) is None ==> made_on_the_way(new, names, l)
    &&& names.len() > 0 ==> {
        &&& lookup(new, names) is Some
        &&& lookup(new, names.drop_last()) is Some
        &&& lookup(new, names).unwrap().spec_type() == r
        &&& match metadata {
            PayloadView::Branch(b) => {
                &&& lookup(new, names).unwrap().spec_branch() == b
                &&& r == spec_next_type(
                    lookup(new, names.drop_last()).unwrap().spec_type(),
                    names.last(),
                    b.branch is Some,
                )
                &&& lookup(new, names).unwrap().spec_tags() == match lookup(old, names) {
                    Some(o) => o.spec_tags(),
                    None => Seq::empty(),
                }
            },
            PayloadView::Tag(t) => {
                &&& lookup(new, names).unwrap().spec_tags() == match lookup(old, names) {
                    Some(o) => o.spec_tags(),
                    None => Seq::empty(),
                }.push(t)
                &&& lookup(old, names) matches Some(o) ==> r == o.spec_type()
                    && lookup(new, names).unwrap().spec_branch() == o.spec_branch()
                &&& lookup(old, names) is None ==> r == spec_next_type(
                    lookup(new, names.drop_last()).unwrap().spec_type(),
                    names.last(),
                    false,
                ) && lookup(new, names).unwrap().spec_branch().branch is None
            },
        }
    }
}

} // verus!
