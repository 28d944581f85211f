//! Filters over lists of node paths: by whether a node has a branch, by
//! textual path, by glob pattern and by node type.
use crate::model::node::lookup;
use crate::model::node_path::{normalized_segments, path_views, NodePath, NodePathView};
use crate::model::node_type::SymbolicNodeType;
use crate::model::qualified_path::{NormalizedPath, QPathView};
use crate::model::tree::TreeDataModel;
use crate::text::join;
use std::marker::PhantomData;
use vstd::prelude::*;

verus! {

/// A transformation of node paths of type `A` into node paths of type `B`
/// that keeps some of them unchanged and drops the others.
pub trait NodePathTransformer<A: SymbolicNodeType, B: SymbolicNodeType> {
    /// Whether the transformer keeps the node path `v`.
    spec fn keeps(&self, model: &TreeDataModel, v: NodePathView) -> bool;

    /// The node path if the transformer keeps it, else `None`.
    fn apply(&self, model: &TreeDataModel, node_path: Option<NodePath<A>>) -> (r: Option<
        NodePath<B>,
    >)
        requires
            node_path matches Some(p) ==> p.valid_in(model),
        ensures
            r is Some <==> (node_path matches Some(p) && self.keeps(model, p@)),
            r matches Some(q) ==> (node_path matches Some(p) && q@ == p@),
    ;

    /// The node paths that the transformer keeps, in their order.
    fn transform(&self, model: &TreeDataModel, node_paths: Vec<NodePath<A>>) -> (r: Vec<
        NodePath<B>,
    >)
        requires
            forall|i: int| 0 <= i < node_paths@.len() ==> (#[trigger] node_paths@[i]).valid_in(model),
        ensures
            path_views(r@) == path_views(node_paths@).filter(|v: NodePathView| self.keeps(model, v)),
    {
        let mut out: Vec<NodePath<B>> = Vec::new();
        let mut i: usize = 0;
        while i < node_paths.len()
            invariant
                i <= node_paths@.len(),
                forall|k: int| 0 <= k < node_paths@.len() ==> (#[trigger] node_paths@[k]).valid_in(model),
                path_views(out@) == path_views(node_paths@).subrange(0, i as int).filter(
                    |v: NodePathView| self.keeps(model, v),
                ),
            decreases node_paths@.len() - i,
        {
            let p = node_paths[i].duplicate();
            let ghost before = out@;
            let ghost pv = p@;
            assert(path_views(node_paths@).subrange(0, i + 1).drop_last() =~= path_views(
                node_paths@,
            ).subrange(0, i as int));
            assert(path_views(node_paths@).subrange(0, i + 1).last() == pv);
            match self.apply(model, Some(p)) {
                Some(q) => {
                    out.push(q);
                    assert(path_views(out@) =~= path_views(before).push(pv));
                },
                None => {},
            }
            proof {
                reveal(Seq::filter);
            }
            i = i + 1;
        }
        assert(path_views(node_paths@).subrange(0, i as int) =~= path_views(node_paths@));
        out
    }
}

/// Keeps the node paths whose node has a branch, or those whose node has
/// none.
pub struct HasBranchFilteringNodePathTransformer {
    has_branch: bool,
}

impl HasBranchFilteringNodePathTransformer {
    pub closed spec fn spec_has_branch(&self) -> bool {
        self.has_branch
    }

    pub fn new(has_branch: bool) -> (r: HasBranchFilteringNodePathTransformer)
        ensures
            r.spec_has_branch() == has_branch,
    {
        Self { has_branch }
    }
}

impl<A: SymbolicNodeType> NodePathTransformer<A, A> for HasBranchFilteringNodePathTransformer {
    open spec fn keeps(&self, model: &TreeDataModel, v: NodePathView) -> bool {
        (lookup(model.spec_root(), v.names).unwrap().spec_branch().branch is Some)
            == self.spec_has_branch()
    }

    fn apply(&self, model: &TreeDataModel, node_path: Option<NodePath<A>>) -> (r: Option<
        NodePath<A>,
    >) {
        match node_path {
            None => None,
            Some(path) => {
                if path.get_metadata(model).has_branch() == self.has_branch {
                    Some(path)
                } else {
                    None
                }
            },
        }
    }
}

/// Whether a filter keeps what matches or what does not.
#[derive(Debug, Clone, Copy, PartialEq, Eq, Structural)]
pub enum FilteringMode {
    INCLUDE,
    EXCLUDE,
}

/// Keeps the node paths whose textual path is (`INCLUDE`) or is not
/// (`EXCLUDE`) one of the given paths.
pub struct ByQPathFilteringNodePathTransformer {
    paths: Vec<NormalizedPath>,
    mode: FilteringMode,
}

impl ByQPathFilteringNodePathTransformer {
    pub closed spec fn spec_paths(&self) -> Seq<QPathView> {
        self.paths@.map_values(|p: NormalizedPath| p@)
    }

    pub closed spec fn spec_mode(&self) -> FilteringMode {
        self.mode
    }

    /// Whether the segments are those of one of the paths.
    pub open spec fn listed(&self, segments: Seq<Seq<char>>) -> bool {
        exists|k: int| 0 <= k < self.spec_paths().len() && #[trigger] self.spec_paths()[k].segments == segments
    }

    pub fn new(paths: Vec<NormalizedPath>, mode: FilteringMode) -> (r: Self)
        ensures
            r.spec_paths() == paths@.map_values(|p: NormalizedPath| p@),
            r.spec_mode() == mode,
    {
        Self { paths, mode }
    }

    /// Whether `path` is among the paths (same segments).
    fn contains(&self, path: &NormalizedPath) -> (r: bool)
        ensures
            r == self.listed(path@.segments),
    {
        let mut i: usize = 0;
        while i < self.paths.len()
            invariant
                i <= self.paths@.len(),
                forall|k: int| 0 <= k < i ==> (#[trigger] self.spec_paths()[k]).segments != path@.segments,
            decreases self.paths@.len() - i,
        {
            if self.paths[i].equals(path) {
                assert(self.spec_paths()[i as int].segments == path@.segments);
                return true;
            }
            i = i + 1;
        }
        false
    }
}

impl<A: SymbolicNodeType> NodePathTransformer<A, A> for ByQPathFilteringNodePathTransformer {
    open spec fn keeps(&self, model: &TreeDataModel, v: NodePathView) -> bool {
        self.listed(normalized_segments(v.names)) == (self.spec_mode() == FilteringMode::INCLUDE)
    }

    fn apply(&self, model: &TreeDataModel, node_path: Option<NodePath<A>>) -> (r: Option<
        NodePath<A>,
    >) {
        match node_path {
            None => None,
            Some(path) => {
                let found = self.contains(&path.to_normalized_path());
                let wanted = match self.mode {
                    FilteringMode::INCLUDE => true,
                    FilteringMode::EXCLUDE => false,
                };
                if found == wanted {
                    Some(path)
                } else {
                    None
                }
            },
        }
    }
}

#[verifier::external_type_specification]
#[verifier::external_body]
pub struct ExGlobError(globset::Error);

/// Whether `GlobBuilder::build` accepts the glob pattern.
pub uninterp spec fn glob_builds(pattern: Seq<char>) -> bool;

/// Whether `GlobSetBuilder::build` succeeds on the set of the one built
/// pattern (it fails where the regex compiled from the pattern exceeds
/// globset's size limits).
pub uninterp spec fn glob_compiles(pattern: Seq<char>) -> bool;

/// Whether the set compiled from the one glob pattern matches the text
/// (`GlobSet::is_match`).
pub uninterp spec fn glob_matches(pattern: Seq<char>, text: Seq<char>) -> bool;

/// A pattern that can be used to match: it builds and its matcher compiles.
pub open spec fn glob_usable(pattern: Seq<char>) -> bool {
    glob_builds(pattern) && glob_compiles(pattern)
}

/// Calls `globset::GlobBuilder::build` with the default options, then
/// `GlobSetBuilder::build` on a set of that one glob. Claimed: it succeeds
/// exactly when the pattern builds and its set compiles, functions of the
/// pattern alone named `glob_builds` and `glob_compiles`. What either rejects
/// is not stated.
#[verifier::external_body]
fn build_glob(pattern: &str) -> (r: Result<(), globset::Error>)
    ensures
        r is Ok == (glob_builds(pattern@) && glob_compiles(pattern@)),
{
    let glob = globset::GlobBuilder::new(pattern).build()?;
    globset::GlobSetBuilder::new().add(glob).build()?;
    Ok(())
}

/// Builds the pattern with `globset::GlobBuilder::build`, compiles the set of
/// that one glob with `GlobSetBuilder::build` and calls `GlobSet::is_match`
/// on the text. Claimed: the answer is a function of pattern and text, named
/// `glob_matches`. Left unsaid: the literal strategies of `GlobSet::new`
/// unwrap an Aho-Corasick construction, which fails only for automata beyond
/// its state limits.
#[verifier::external_body]
fn glob_is_match(pattern: &str, text: &str) -> (r: bool)
    requires
        glob_usable(pattern@),
    ensures
        r == glob_matches(pattern@, text@),
{
    match globset::GlobBuilder::new(pattern).build() {
        Ok(glob) => match globset::GlobSetBuilder::new().add(glob).build() {
            Ok(set) => set.is_match(text),
            Err(_) => false,
        },
        Err(_) => false,
    }
}

/// The message of a `globset::Error` (its `Display`). Nothing is claimed of
/// the text.
#[verifier::external_body]
fn glob_error_message(error: &globset::Error) -> String {
    error.to_string()
}

/// A glob pattern that does not build.
#[derive(Debug)]
pub struct GlobPatternError {
    pattern: String,
    message: String,
}

impl GlobPatternError {
    pub closed spec fn spec_pattern(&self) -> Seq<char> {
        self.pattern@
    }

    pub fn get_pattern(&self) -> (r: &String)
        ensures
            r@ == self.spec_pattern(),
    {
        &self.pattern
    }

    pub closed spec fn spec_message(&self) -> Seq<char> {
        self.message@
    }

    pub fn get_message(&self) -> (r: &String)
        ensures
            r@ == self.spec_message(),
    {
        &self.message
    }
}

/// Keeps the node paths whose textual path matches (`INCLUDE`) or matches
/// none (`EXCLUDE`) of the glob patterns.
pub struct ByGlobFilteringNodePathTransformer {
    globs: Vec<String>,
    filtering_mode: FilteringMode,
}

impl ByGlobFilteringNodePathTransformer {
    pub closed spec fn spec_globs(&self) -> Seq<Seq<char>> {
        self.globs@.map_values(|g: String| g@)
    }

    pub closed spec fn spec_mode(&self) -> FilteringMode {
        self.filtering_mode
    }

    /// Every pattern builds and compiles.
    #[verifier::type_invariant]
    spec fn wf(&self) -> bool {
        forall|k: int| 0 <= k < self.globs@.len() ==> glob_usable(#[trigger] self.globs@[k]@)
    }

    /// Whether one of the patterns matches the text.
    pub open spec fn any_match(&self, text: Seq<char>) -> bool {
        exists|k: int| 0 <= k < self.spec_globs().len() && #[trigger] glob_matches(self.spec_globs()[k], text)
    }

    /// The filter of the textual forms of `globs`; the first pattern that does
    /// not build is the error.
    pub fn new(globs: &Vec<NormalizedPath>, filtering_mode: FilteringMode) -> (r: Result<
        Self,
        GlobPatternError,
    >)
        ensures
            r matches Ok(t) ==> t.spec_mode() == filtering_mode && t.spec_globs()
                == globs@.map_values(|g: NormalizedPath| join(g@.segments, seq!['/'])),
            r is Ok <==> forall|k: int|
                0 <= k < globs@.len() ==> glob_usable(join(#[trigger] globs@[k]@.segments, seq!['/'])),
            r matches Err(e) ==> exists|k: int|
                0 <= k < globs@.len() && !glob_usable(#[trigger] join(globs@[k]@.segments, seq!['/']))
                    && e.spec_pattern() == join(globs@[k]@.segments, seq!['/']),
    {
        let mut built: Vec<String> = Vec::new();
        let mut i: usize = 0;
        while i < globs.len()
            invariant
                i <= globs@.len(),
                built@.len() == i,
                forall|k: int|
                    0 <= k < i ==> (#[trigger] built@[k])@ == join(globs@[k]@.segments, seq!['/']),
                forall|k: int| 0 <= k < i ==> glob_usable(#[trigger] built@[k]@),
            decreases globs@.len() - i,
        {
            let pattern = globs[i].to_string();
            match build_glob(pattern.as_str()) {
                Ok(()) => {},
                Err(e) => {
                    let message = glob_error_message(&e);
                    return Err(GlobPatternError { pattern, message });
                },
            }
            built.push(pattern);
            i = i + 1;
        }
        let r = Self { globs: built, filtering_mode };
        assert(r.spec_globs() =~= globs@.map_values(|g: NormalizedPath| join(g@.segments, seq!['/'])));
        assert forall|k: int| 0 <= k < globs@.len() implies glob_usable(
            join(#[trigger] globs@[k]@.segments, seq!['/']),
        ) by {
            assert(built@[k]@ == join(globs@[k]@.segments, seq!['/']));
        }
        Ok(r)
    }

    /// Whether one of the patterns matches `text`.
    fn matches_any(&self, text: &str) -> (r: bool)
        ensures
            r == self.any_match(text@),
    {
        proof {
            use_type_invariant(self);
        }
        let mut found = false;
        let mut i: usize = 0;
        while i < self.globs.len()
            invariant
                forall|k: int| 0 <= k < self.globs@.len() ==> glob_usable(#[trigger] self.globs@[k]@),
                i <= self.globs@.len(),
                found == exists|k: int| 0 <= k < i && #[trigger] glob_matches(self.spec_globs()[k], text@),
            decreases self.globs@.len() - i,
        {
            assert(self.spec_globs()[i as int] == self.globs@[i as int]@);
            if glob_is_match(self.globs[i].as_str(), text) {
                found = true;
            }
            i = i + 1;
        }
        found
    }
}

impl<A: SymbolicNodeType> NodePathTransformer<A, A> for ByGlobFilteringNodePathTransformer {
    open spec fn keeps(&self, model: &TreeDataModel, v: NodePathView) -> bool {
        self.any_match(join(normalized_segments(v.names), seq!['/'])) == (self.spec_mode()
            == FilteringMode::INCLUDE)
    }

    fn apply(&self, model: &TreeDataModel, node_path: Option<NodePath<A>>) -> (r: Option<
        NodePath<A>,
    >) {
        match node_path {
            None => None,
            Some(path) => {
                let text = path.to_normalized_path().to_string();
                let found = self.matches_any(text.as_str());
                let wanted = match self.filtering_mode {
                    FilteringMode::INCLUDE => true,
                    FilteringMode::EXCLUDE => false,
                };
                if found == wanted {
                    Some(path)
                } else {
                    None
                }
            },
        }
    }
}

/// Keeps the node paths whose node is of a type in `Out` (all of them where
/// the tree has nodes of unknown type), typed with `Out`.
pub struct ByTypeFilteringNodePathTransformer<In: SymbolicNodeType, Out: SymbolicNodeType> {
    _in: PhantomData<In>,
    _out: PhantomData<Out>,
}

impl<In: SymbolicNodeType, Out: SymbolicNodeType> ByTypeFilteringNodePathTransformer<In, Out> {
    pub fn new() -> Self {
        Self { _in: PhantomData, _out: PhantomData }
    }
}

impl<In: SymbolicNodeType, Out: SymbolicNodeType> NodePathTransformer<
    In,
    Out,
> for ByTypeFilteringNodePathTransformer<In, Out> {
    open spec fn keeps(&self, model: &TreeDataModel, v: NodePathView) -> bool {
        v.unknown_mode || Out::spec_compatible(lookup(model.spec_root(), v.names).unwrap().spec_type())
    }

    fn apply(&self, model: &TreeDataModel, node_path: Option<NodePath<In>>) -> (r: Option<
        NodePath<Out>,
    >) {
        match node_path {
            None => None,
            Some(path) => path.try_convert_to::<Out>(model),
        }
    }
}

/// A glob filter followed by a type filter.
pub struct GlobToTypeNodePathTransformer<In: SymbolicNodeType, Out: SymbolicNodeType> {
    glob_filter: ByGlobFilteringNodePathTransformer,
    type_filter: ByTypeFilteringNodePathTransformer<In, Out>,
}

impl<In: SymbolicNodeType, Out: SymbolicNodeType> GlobToTypeNodePathTransformer<In, Out> {
    pub closed spec fn spec_glob_filter(&self) -> ByGlobFilteringNodePathTransformer {
        self.glob_filter
    }

    pub fn new(globs: &Vec<NormalizedPath>, mode: FilteringMode) -> (r: Result<
        Self,
        GlobPatternError,
    >)
        ensures
            r matches Ok(t) ==> t.spec_glob_filter().spec_mode()
                == mode && t.spec_glob_filter().spec_globs() == globs@.map_values(
                |g: NormalizedPath| join(g@.segments, seq!['/']),
            ),
            r is Ok <==> forall|k: int|
                0 <= k < globs@.len() ==> glob_usable(join(#[trigger] globs@[k]@.segments, seq!['/'])),
    {
        let glob_filter = match ByGlobFilteringNodePathTransformer::new(globs, mode) {
            Ok(f) => f,
            Err(e) => {
                return Err(e);
            },
        };
        let type_filter = ByTypeFilteringNodePathTransformer::new();
        Ok(Self { glob_filter, type_filter })
    }
}

impl<In: SymbolicNodeType, Out: SymbolicNodeType> NodePathTransformer<
    In,
    Out,
> for GlobToTypeNodePathTransformer<In, Out> {
    open spec fn keeps(&self, model: &TreeDataModel, v: NodePathView) -> bool {
        (self.spec_glob_filter().any_match(join(normalized_segments(v.names), seq!['/']))
            == (self.spec_glob_filter().spec_mode() == FilteringMode::INCLUDE)) && (v.unknown_mode || Out::spec_compatible(
            lookup(model.spec_root(), v.names).unwrap().spec_type(),
        ))
    }

    fn apply(&self, model: &TreeDataModel, node_path: Option<NodePath<In>>) -> (r: Option<
        NodePath<Out>,
    >) {
        let filtered = NodePathTransformer::<In, In>::apply(&self.glob_filter, model, node_path);
        self.type_filter.apply(model, filtered)
    }
}

} // verus!
