//! The tree of all areas, features and products of a repository, built from
//! its branch and tag names.
use crate::model::error::{ModelError, PathNotFoundError, WrongNodeTypeError};
use crate::model::node::{
    insert_names, inserted, lemma_tidy, lookup, spec_tag_name, tidy, BranchData, CommitHash,
    CommitTag, Node, PayloadType, PayloadView,
};
use crate::model::node_path::NodePath;
use crate::model::node_type::{AnyNode, ConcreteArea, NodeType, SymbolicNodeType, VirtualRoot};
use crate::model::qualified_path::{
    spec_from_segments, spec_from_str, spec_push, NormalizedPath, QPathView, VersionPointer,
};
use crate::text::views;
use vstd::prelude::*;
use vstd::string::*;

verus! {

/// The repository tree: a virtual root whose children are the areas.
#[derive(Debug)]
pub struct TreeDataModel {
    virtual_root: Node,
    qualified_paths_with_branch: Vec<NormalizedPath>,
    unknowns_exist: bool,
}

/// The names that looking up a path follows from the virtual root: its
/// segments after the first (the empty segment of an absolute path), each
/// pushed again.
pub open spec fn query_names(path: QPathView) -> Seq<Seq<char>> {
    spec_from_segments(path.segments.subrange(1, path.segments.len() as int)).segments
}

impl TreeDataModel {
    pub closed spec fn spec_root(&self) -> Node {
        self.virtual_root
    }

    /// No node of the tree has two children of the same name.
    #[verifier::type_invariant]
    pub open spec fn well_formed(self) -> bool {
        tidy(self.spec_root())
    }

    pub closed spec fn spec_unknowns(&self) -> bool {
        self.unknowns_exist
    }

    pub closed spec fn spec_branch_paths(&self) -> Seq<QPathView> {
        self.qualified_paths_with_branch@.map_values(|p: NormalizedPath| p@)
    }

    /// The node at `names` below the virtual root.
    pub fn find(&self, names: &Vec<String>) -> (r: Option<&Node>)
        ensures
            lookup(self.spec_root(), views(names@)) is None ==> r is None,
            lookup(self.spec_root(), views(names@)) matches Some(n) ==> (r matches Some(m) && *m
                == n),
    {
        let mut node = &self.virtual_root;
        let mut i: usize = 0;
        assert(views(names@).subrange(0, names@.len() as int) =~= views(names@));
        while i < names.len()
            invariant
                i <= names@.len(),
                lookup(self.virtual_root, views(names@)) == lookup(
                    *node,
                    views(names@).subrange(i as int, names@.len() as int),
                ),
            decreases names@.len() - i,
        {
            let ghost rest = views(names@).subrange(i as int, names@.len() as int);
            assert(rest.drop_first() =~= views(names@).subrange(i + 1, names@.len() as int));
            assert(rest[0] == names@[i as int]@);
            match node.get_child(names[i].as_str()) {
                Some(child) => {
                    node = child;
                },
                None => {
                    return None;
                },
            }
            i = i + 1;
        }
        assert(views(names@).subrange(i as int, names@.len() as int) =~= Seq::<Seq<char>>::empty());
        Some(node)
    }
}

impl TreeDataModel {
    pub fn new() -> (r: Self)
        ensures
            r.spec_root().spec_name() == Seq::<char>::empty(),
            r.spec_root().spec_type() == NodeType::VirtualRoot,
            r.spec_root().spec_children().len() == 0,
            !r.spec_unknowns(),
            r.spec_branch_paths().len() == 0,
    {
        let root = Node::new(String::new(), NodeType::VirtualRoot, BranchData::empty(), Vec::new());
        proof {
            lemma_tidy(root);
        }
        let r = Self {
            virtual_root: root,
            qualified_paths_with_branch: Vec::new(),
            unknowns_exist: false,
        };
        assert(r.spec_branch_paths() =~= Seq::<QPathView>::empty());
        r
    }

    /// Inserts `metadata` at the names read from `path` below the virtual
    /// root.
    fn insert_at_root(&mut self, path: &NormalizedPath, metadata: PayloadType) -> (r: NodeType)
        ensures
            inserted(old(self).spec_root(), final(self).spec_root(), insert_names(path@.segments), metadata@, r),
            path@.segments.len() == 0 ==> r == old(self).spec_root().spec_type(),
            final(self).spec_root().spec_type() == old(self).spec_root().spec_type(),
            final(self).spec_unknowns() == old(self).spec_unknowns(),
            final(self).spec_branch_paths() == old(self).spec_branch_paths(),
    {
        proof {
            use_type_invariant(&*self);
        }
        let mut root = Node::new(String::new(), NodeType::VirtualRoot, BranchData::empty(), Vec::new());
        proof {
            lemma_tidy(root);
        }
        std::mem::swap(&mut root, &mut self.virtual_root);
        let r = root.insert_path(path, metadata);
        self.virtual_root = root;
        r
    }

    /// Inserts the branch `path` (a git branch name such as `_main/_feature/foo`)
    /// whose head is the commit `head`, and records its absolute path (an
    /// empty first segment, then the segments of the name) among the paths
    /// with branches.
    pub fn insert_git_branch(&mut self, path: String, head: String) -> (r: NodeType)
        requires
            head@.len() >= 8,
        ensures
            inserted(
                old(self).spec_root(),
                final(self).spec_root(),
                insert_names(spec_from_str(path@).segments),
                PayloadView::Branch(BranchData::spec_new(Some(path@), Some(head@))),
                r,
            ),
            insert_names(spec_from_str(path@).segments).len() == 0 ==> r == old(self).spec_root().spec_type(),
            final(self).spec_root().spec_type() == old(self).spec_root().spec_type(),
            final(self).spec_unknowns() == (old(self).spec_unknowns() || r == NodeType::Unknown),
            final(self).spec_branch_paths() == old(self).spec_branch_paths().push(
                spec_push(spec_from_str(Seq::<char>::empty()), path@),
            ),
    {
        let normalized = NormalizedPath::from_str(path.as_str());
        let mut absolute = NormalizedPath::from_str("");
        proof {
            reveal_strlit("");
            assert(("")@ =~= Seq::<char>::empty());
        }
        absolute.push(path.as_str());
        proof {
            crate::text::lemma_utf8_len_at_least(head@);
        }
        let hash = CommitHash::new(head);
        let branch_data = BranchData::new(Some(path), Some(hash));
        let node_type = self.insert_at_root(&normalized, PayloadType::Branch(branch_data));
        proof {
            use_type_invariant(&*self);
        }
        if node_type == NodeType::Unknown {
            self.unknowns_exist = true;
        }
        let ghost before = self.qualified_paths_with_branch@;
        let ghost v = absolute@;
        let mut paths: Vec<NormalizedPath> = Vec::new();
        std::mem::swap(&mut paths, &mut self.qualified_paths_with_branch);
        paths.push(absolute);
        self.qualified_paths_with_branch = paths;
        assert(self.spec_branch_paths() =~= before.map_values(|p: NormalizedPath| p@).push(v));
        node_type
    }

    /// Inserts the tag `path`: the tag is recorded at the node of the path
    /// without its last segment.
    pub fn insert_tag(&mut self, path: String)
        requires
            spec_from_str(path@).segments.len() > 0,
        ensures
            exists|r: NodeType|
                #[trigger] inserted(
                    old(self).spec_root(),
                    final(self).spec_root(),
                    insert_names(
                        spec_from_segments(
                            spec_from_str(path@).segments.subrange(
                                0,
                                spec_from_str(path@).segments.len() - 1,
                            ),
                        ).segments,
                    ),
                    PayloadView::Tag(CommitTag::spec_new(path@)),
                    r,
                ),
            final(self).spec_root().spec_type() == old(self).spec_root().spec_type(),
            final(self).spec_unknowns() == old(self).spec_unknowns(),
            final(self).spec_branch_paths() == old(self).spec_branch_paths(),
    {
        let normalized = NormalizedPath::from_str(path.as_str());
        let tag = CommitTag::new(path);
        let parent = normalized.strip_n_right(normalized.len() - 1);
        let ghost t = tag@;
        assert(t == CommitTag::spec_new(path@));
        assert(parent@.segments == spec_from_segments(
            spec_from_str(path@).segments.subrange(0, spec_from_str(path@).segments.len() - 1),
        ).segments);
        let r = self.insert_at_root(&parent, PayloadType::Tag(tag));
        assert(inserted(
            old(self).spec_root(),
            self.spec_root(),
            insert_names(parent@.segments),
            PayloadView::Tag(t),
            r,
        ));
    }

    /// Inserts the path `path`, read from the virtual root (its first segment,
    /// the empty segment of an absolute path, is skipped). With `has_branch`,
    /// the node gets the branch named by the path's text, and the path is
    /// recorded among the paths with branches.
    pub fn insert_qualified_path(&mut self, path: NormalizedPath, has_branch: bool) -> (r: NodeType)
        requires
            path@.segments.len() > 0,
        ensures
            inserted(
                old(self).spec_root(),
                final(self).spec_root(),
                insert_names(query_names(path@)),
                PayloadView::Branch(
                    BranchData::spec_new(
                        if has_branch {
                            Some(crate::text::join(path@.segments, seq!['/']))
                        } else {
                            None
                        },
                        None,
                    ),
                ),
                r,
            ),
            final(self).spec_root().spec_type() == old(self).spec_root().spec_type(),
            final(self).spec_unknowns() == (old(self).spec_unknowns() || r == NodeType::Unknown),
            final(self).spec_branch_paths() == if has_branch {
                old(self).spec_branch_paths().push(path@)
            } else {
                old(self).spec_branch_paths()
            },
    {
        let relative = path.strip_n_left(1);
        let branch = if has_branch {
            Some(path.to_string())
        } else {
            None
        };
        let branch_data = BranchData::new(branch, None);
        let ghost bd = branch_data@;
        let node_type = self.insert_at_root(&relative, PayloadType::Branch(branch_data));
        proof {
            use_type_invariant(&*self);
        }
        assert(bd == BranchData::spec_new(
            if has_branch {
                Some(crate::text::join(path@.segments, seq!['/']))
            } else {
                None
            },
            None,
        ));
        if node_type == NodeType::Unknown {
            self.unknowns_exist = true;
        }
        if has_branch {
            let ghost before = self.qualified_paths_with_branch@;
            let ghost v = path@;
            let mut paths: Vec<NormalizedPath> = Vec::new();
            std::mem::swap(&mut paths, &mut self.qualified_paths_with_branch);
            paths.push(path);
            self.qualified_paths_with_branch = paths;
            assert(self.spec_branch_paths() =~= before.map_values(|p: NormalizedPath| p@).push(v));
        }
        node_type
    }

    /// The path of the virtual root.
    pub fn get_virtual_root(&self) -> (r: NodePath<VirtualRoot>)
        ensures
            r.spec_names().len() == 0,
            r.spec_unknown_mode() == self.spec_unknowns(),
            r.spec_head() == crate::model::qualified_path::VersionPointerView::Head,
    {
        NodePath::<VirtualRoot>::new(Vec::new(), self.unknowns_exist, VersionPointer::Head)
    }

    /// The area named by `path`.
    pub fn get_area(&self, path: &NormalizedPath) -> (r: Option<NodePath<ConcreteArea>>)
        ensures
            r matches Some(p) ==> p.spec_names() == path@.segments && p.valid_in(self),
            r is None ==> lookup(self.spec_root(), path@.segments) is None || !(
            self.spec_unknowns() || ConcreteArea::spec_compatible(
                lookup(self.spec_root(), path@.segments).unwrap().spec_type(),
            )),
    {
        self.get_virtual_root().move_to_area(self, path)
    }

    /// The node path of type `T` at the absolute path `path`.
    pub fn get_node_path<T: SymbolicNodeType>(&self, path: &NormalizedPath) -> (r: Option<NodePath<T>>)
        requires
            path@.segments.len() > 0,
        ensures
            r matches Some(p) ==> p.spec_names() == query_names(path@) && p.valid_in(self)
                && p.spec_unknown_mode() == self.spec_unknowns()
                && (self.spec_unknowns() || T::spec_compatible(p.node_in(self).spec_type())),
            r is None ==> lookup(self.spec_root(), query_names(path@)) is None || !(
            self.spec_unknowns() || T::spec_compatible(
                lookup(self.spec_root(), query_names(path@)).unwrap().spec_type(),
            )),
    {
        let initial_path = self.get_virtual_root();
        let new_path = path.strip_n_left(1);
        match initial_path.move_to(self, &new_path) {
            Some(p) => p.try_convert_to::<T>(self),
            None => None,
        }
    }

    /// Whether `qualified_path` is among the recorded paths with branches.
    pub fn has_branch(&self, qualified_path: &NormalizedPath) -> (r: bool)
        ensures
            r == exists|i: int|
                0 <= i < self.spec_branch_paths().len()
                    && #[trigger] self.spec_branch_paths()[i].segments == qualified_path@.segments,
    {
        let mut i: usize = 0;
        while i < self.qualified_paths_with_branch.len()
            invariant
                i <= self.qualified_paths_with_branch@.len(),
                forall|k: int|
                    0 <= k < i ==> (#[trigger] self.spec_branch_paths()[k]).segments
                        != qualified_path@.segments,
            decreases self.qualified_paths_with_branch@.len() - i,
        {
            if self.qualified_paths_with_branch[i].equals(qualified_path) {
                assert(self.spec_branch_paths()[i as int].segments == qualified_path@.segments);
                return true;
            }
            i = i + 1;
        }
        false
    }

    pub fn get_qualified_paths_with_branches(&self) -> (r: &Vec<NormalizedPath>)
        ensures
            r@.map_values(|p: NormalizedPath| p@) == self.spec_branch_paths(),
    {
        &self.qualified_paths_with_branch
    }

    /// The node path of type `T` at `path`, or why there is none.
    pub fn assert_path<T: SymbolicNodeType>(&self, path: &NormalizedPath) -> (r: Result<NodePath<T>, ModelError>)
        requires
            path@.segments.len() > 0,
        ensures
            r matches Ok(p) ==> p.spec_names() == query_names(path@) && p.valid_in(self)
                && (self.spec_unknowns() || T::spec_compatible(p.node_in(self).spec_type())),
            r matches Err(ModelError::PathNotFound(_)) ==> lookup(
                self.spec_root(),
                query_names(path@),
            ) is None,
            r matches Err(ModelError::WrongNodeType(_)) ==> lookup(
                self.spec_root(),
                query_names(path@),
            ) is Some && !(self.spec_unknowns() || T::spec_compatible(
                lookup(self.spec_root(), query_names(path@)).unwrap().spec_type(),
            )),
            lookup(self.spec_root(), query_names(path@)) is Some && (self.spec_unknowns()
                || T::spec_compatible(
                lookup(self.spec_root(), query_names(path@)).unwrap().spec_type(),
            )) ==> r is Ok,
            r matches Err(ModelError::PathNotFound(e)) ==> e.spec_message() == ("Path ")@ + crate::text::join(
                path@.segments,
                seq!['/'],
            ) + (" does not exist")@,
            r matches Err(ModelError::WrongNodeType(e)) ==> e.spec_message() == ("NodeTypeError for ")@
                + crate::text::join(crate::model::node_path::normalized_segments(query_names(path@)), seq!['/'])
                + (": expected to be of type '")@ + T::spec_identifier() + ("', but is of type '")@
                + crate::model::node_type::spec_type_name(
                lookup(self.spec_root(), query_names(path@)).unwrap().spec_type(),
            ) + ("'")@,
    {
        if let Some(node_path) = self.get_node_path::<AnyNode>(path) {
            if let Some(concrete) = node_path.try_convert_to::<T>(self) {
                Ok(concrete)
            } else {
                let mut msg = String::from_str("NodeTypeError for ");
                msg.append(node_path.to_normalized_path().to_string().as_str());
                msg.append(": expected to be of type '");
                msg.append(T::identifier().as_str());
                msg.append("', but is of type '");
                msg.append(node_path.get_actual_type(self).get_type_name().as_str());
                msg.append("'");
                Err(ModelError::WrongNodeType(WrongNodeTypeError::new(msg)))
            }
        } else {
            let mut msg = String::from_str("Path ");
            msg.append(path.to_string().as_str());
            msg.append(" does not exist");
            Err(ModelError::PathNotFound(PathNotFoundError::new(msg)))
        }
    }

    /// The node paths of type `T` at each of `paths`, or the first error.
    pub fn assert_all<T: SymbolicNodeType>(&self, paths: &Vec<NormalizedPath>) -> (r: Result<Vec<NodePath<T>>, ModelError>)
        requires
            forall|i: int| 0 <= i < paths@.len() ==> (#[trigger] paths@[i])@.segments.len() > 0,
        ensures
            r matches Ok(v) ==> v@.len() == paths@.len() && forall|i: int|
                0 <= i < v@.len() ==> (#[trigger] v@[i]).spec_names() == query_names(paths@[i]@)
                    && v@[i].valid_in(self),
            (forall|i: int|
                0 <= i < paths@.len() ==> lookup(self.spec_root(), query_names(#[trigger] paths@[i]@))
                    is Some && (self.spec_unknowns() || T::spec_compatible(
                    lookup(self.spec_root(), query_names(paths@[i]@)).unwrap().spec_type(),
                ))) ==> r is Ok,
    {
        let mut final_paths: Vec<NodePath<T>> = Vec::new();
        let mut i: usize = 0;
        while i < paths.len()
            invariant
                i <= paths@.len(),
                forall|k: int| 0 <= k < paths@.len() ==> (#[trigger] paths@[k])@.segments.len() > 0,
                final_paths@.len() == i,
                forall|k: int|
                    0 <= k < i ==> (#[trigger] final_paths@[k]).spec_names() == query_names(
                        paths@[k]@,
                    ) && final_paths@[k].valid_in(self),
            decreases paths@.len() - i,
        {
            match self.assert_path::<T>(&paths[i]) {
                Ok(p) => final_paths.push(p),
                Err(e) => return Err(e),
            }
            i = i + 1;
        }
        Ok(final_paths)
    }
}

} // verus!
