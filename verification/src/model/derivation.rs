//! Derivation records kept as plain strings: the features of a derivation by
//! their textual paths, its state by name.
use crate::model::node_path::NodePath;
use crate::model::node_type::ConcreteFeature;
use crate::model::qualified_path::{spec_from_str, NormalizedPath};
use crate::text::{join, views};
use vstd::prelude::*;
use vstd::string::*;

verus! {

/// The segments of the path that `s` reads as.
pub open spec fn parsed_segments(s: Seq<char>) -> Seq<Seq<char>> {
    spec_from_str(s).segments
}

/// The textual form of path segments.
pub open spec fn path_text(segments: Seq<Seq<char>>) -> Seq<char> {
    join(segments, seq!['/'])
}

/// A feature of a derivation, by its textual path.
#[derive(Debug)]
pub struct FeatureMetadata {
    path: String,
}

impl View for FeatureMetadata {
    type V = Seq<char>;

    closed spec fn view(&self) -> Seq<char> {
        self.path@
    }
}

impl Clone for FeatureMetadata {
    fn clone(&self) -> (r: Self)
        ensures
            r@ == self@,
    {
        FeatureMetadata { path: self.path.clone() }
    }
}

/// The textual paths of features.
pub open spec fn feature_views(s: Seq<FeatureMetadata>) -> Seq<Seq<char>> {
    s.map_values(|f: FeatureMetadata| f@)
}

/// The segments of paths.
pub open spec fn segment_views(s: Seq<NormalizedPath>) -> Seq<Seq<Seq<char>>> {
    s.map_values(|p: NormalizedPath| p@.segments)
}

/// A copy of features.
fn copy_features(s: &Vec<FeatureMetadata>) -> (r: Vec<FeatureMetadata>)
    ensures
        feature_views(r@) == feature_views(s@),
{
    let mut out: Vec<FeatureMetadata> = Vec::new();
    let mut i: usize = 0;
    while i < s.len()
        invariant
            i <= s@.len(),
            feature_views(out@) == feature_views(s@).subrange(0, i as int),
        decreases s@.len() - i,
    {
        let ghost before = out@;
        let x = s[i].clone();
        out.push(x);
        assert(feature_views(out@) =~= feature_views(before).push(x@));
        assert(feature_views(s@).subrange(0, i + 1) =~= feature_views(s@).subrange(0, i as int).push(
            s@[i as int]@,
        ));
        i = i + 1;
    }
    assert(feature_views(s@).subrange(0, i as int) =~= feature_views(s@));
    out
}

impl FeatureMetadata {
    pub fn new(path: String) -> (r: Self)
        ensures
            r@ == path@,
    {
        Self { path }
    }

    /// The features of `paths`, each by its textual form.
    pub fn from_qualified_paths(paths: &Vec<NormalizedPath>) -> (r: Vec<Self>)
        ensures
            feature_views(r@) == segment_views(paths@).map_values(|s: Seq<Seq<char>>| path_text(s)),
    {
        let mut out: Vec<Self> = Vec::new();
        let mut i: usize = 0;
        while i < paths.len()
            invariant
                i <= paths@.len(),
                feature_views(out@) == segment_views(paths@).subrange(0, i as int).map_values(
                    |s: Seq<Seq<char>>| path_text(s),
                ),
            decreases paths@.len() - i,
        {
            let ghost before = out@;
            let f = Self::new(paths[i].to_string());
            out.push(f);
            assert(feature_views(out@) =~= feature_views(before).push(f@));
            assert(segment_views(paths@).subrange(0, i + 1) =~= segment_views(paths@).subrange(
                0,
                i as int,
            ).push(paths@[i as int]@.segments));
            i = i + 1;
        }
        assert(segment_views(paths@).subrange(0, i as int) =~= segment_views(paths@));
        out
    }

    /// The features of the given feature nodes, each by the textual form of
    /// its path.
    pub fn from_features(features: &Vec<NodePath<ConcreteFeature>>) -> (r: Vec<Self>)
        ensures
            r@.len() == features@.len(),
            forall|i: int|
                0 <= i < r@.len() ==> (#[trigger] r@[i])@ == path_text(
                    features@[i].spec_normalized().segments,
                ),
    {
        let mut out: Vec<Self> = Vec::new();
        let mut i: usize = 0;
        while i < features.len()
            invariant
                i <= features@.len(),
                out@.len() == i,
                forall|k: int|
                    0 <= k < i ==> (#[trigger] out@[k])@ == path_text(
                        features@[k].spec_normalized().segments,
                    ),
            decreases features@.len() - i,
        {
            let path = features[i].to_normalized_path();
            out.push(Self::new(path.to_string()));
            i = i + 1;
        }
        out
    }

    /// The paths that the features read as.
    pub fn qualified_paths(metadata: &Vec<Self>) -> (r: Vec<NormalizedPath>)
        ensures
            r@.len() == metadata@.len(),
            forall|i: int| 0 <= i < r@.len() ==> (#[trigger] r@[i])@ == spec_from_str(metadata@[i]@),
    {
        let mut out: Vec<NormalizedPath> = Vec::new();
        let mut i: usize = 0;
        while i < metadata.len()
            invariant
                i <= metadata@.len(),
                out@.len() == i,
                forall|k: int| 0 <= k < i ==> (#[trigger] out@[k])@ == spec_from_str(metadata@[k]@),
            decreases metadata@.len() - i,
        {
            out.push(metadata[i].get_qualified_path());
            i = i + 1;
        }
        out
    }

    /// The path that the feature reads as.
    pub fn get_qualified_path(&self) -> (r: NormalizedPath)
        ensures
            r@ == spec_from_str(self@),
    {
        NormalizedPath::from_str(self.path.as_str())
    }
}

/// Whether a derivation is running.
#[derive(Debug, Clone, Copy, PartialEq, Eq, Structural)]
pub enum DerivationState {
    InProgress,
    Idle,
}

/// `in_progress`
pub open spec fn in_progress_name() -> Seq<char> {
    seq!['i', 'n', '_', 'p', 'r', 'o', 'g', 'r', 'e', 's', 's']
}

/// `none`
pub open spec fn idle_name() -> Seq<char> {
    seq!['n', 'o', 'n', 'e']
}

/// The state that a name reads as: `in_progress` is in progress, anything
/// else is not.
pub open spec fn spec_state_of(name: Seq<char>) -> DerivationState {
    if name == in_progress_name() {
        DerivationState::InProgress
    } else {
        DerivationState::Idle
    }
}

/// The name of a state.
pub open spec fn spec_state_name(s: DerivationState) -> Seq<char> {
    match s {
        DerivationState::InProgress => in_progress_name(),
        DerivationState::Idle => idle_name(),
    }
}

impl DerivationState {
    /// The state that `from` names (see `spec_state_of`).
    pub fn from_string(from: &str) -> (r: Self)
        ensures
            r == spec_state_of(from@),
    {
        let name = "in_progress";
        proof {
            reveal_strlit("in_progress");
            assert(name@ =~= in_progress_name());
        }
        if crate::text::str_eq(from, name) {
            DerivationState::InProgress
        } else {
            DerivationState::Idle
        }
    }

    /// `in_progress` or `none`.
    pub fn to_string(&self) -> (r: String)
        ensures
            r@ == spec_state_name(*self),
    {
        proof {
            reveal_strlit("in_progress");
            reveal_strlit("none");
            assert(("in_progress")@ =~= in_progress_name());
            assert(("none")@ =~= idle_name());
        }
        match self {
            DerivationState::InProgress => String::from_str("in_progress"),
            DerivationState::Idle => String::from_str("none"),
        }
    }
}

/// Naming a state and reading the name back gives the state.
pub proof fn law_state_name_roundtrip(s: DerivationState)
    ensures
        spec_state_of(spec_state_name(s)) == s,
{
    if s == DerivationState::Idle {
        assert(idle_name()[0] != in_progress_name()[0]);
    }
}

/// A derivation record in terms of characters.
pub struct DerivationRecordView {
    pub id: Seq<char>,
    pub state: Seq<char>,
    pub initial_commit: Seq<char>,
    pub completed: Seq<Seq<char>>,
    pub missing: Seq<Seq<char>>,
    pub total: Seq<Seq<char>>,
}

/// The first of `missing` that reads as `feature`.
pub open spec fn first_reading_as(missing: Seq<Seq<char>>, feature: Seq<Seq<char>>) -> Option<Seq<char>>
    decreases missing.len(),
{
    if missing.len() == 0 {
        None
    } else if parsed_segments(missing[0]) == feature {
        Some(missing[0])
    } else {
        first_reading_as(missing.drop_first(), feature)
    }
}

/// Marking one feature as merged: where a missing feature reads as it, the
/// first such moves to the completed ones and every such leaves the missing
/// ones.
pub open spec fn record_mark(v: DerivationRecordView, feature: Seq<Seq<char>>) -> DerivationRecordView {
    match first_reading_as(v.missing, feature) {
        Some(m) => DerivationRecordView {
            missing: v.missing.filter(|x: Seq<char>| parsed_segments(x) != feature),
            completed: v.completed.push(m),
            ..v
        },
        None => v,
    }
}

/// Marking each of `features` in turn.
pub open spec fn record_mark_all(v: DerivationRecordView, features: Seq<Seq<Seq<char>>>) -> DerivationRecordView
    decreases features.len(),
{
    if features.len() == 0 {
        v
    } else {
        record_mark_all(record_mark(v, features[0]), features.drop_first())
    }
}

/// The data of a derivation, with its state by name and its features by
/// their textual paths.
#[derive(Debug)]
pub struct DerivationData {
    id: String,
    state: String,
    initial_commit: String,
    completed: Vec<FeatureMetadata>,
    missing: Vec<FeatureMetadata>,
    total: Vec<FeatureMetadata>,
}

impl View for DerivationData {
    type V = DerivationRecordView;

    closed spec fn view(&self) -> DerivationRecordView {
        DerivationRecordView {
            id: self.id@,
            state: self.state@,
            initial_commit: self.initial_commit@,
            completed: feature_views(self.completed@),
            missing: feature_views(self.missing@),
            total: feature_views(self.total@),
        }
    }
}

impl Clone for DerivationData {
    fn clone(&self) -> (r: Self)
        ensures
            r@ == self@,
    {
        DerivationData {
            id: self.id.clone(),
            state: self.state.clone(),
            initial_commit: self.initial_commit.clone(),
            completed: copy_features(&self.completed),
            missing: copy_features(&self.missing),
            total: copy_features(&self.total),
        }
    }
}

impl DerivationData {
    /// A derivation of `features` from `initial_commit`. After a derivation
    /// in progress, that derivation as it is; after a finished one, a new
    /// derivation (fresh id, in progress, nothing completed, the features
    /// missing) that keeps the previous total; with no previous derivation,
    /// a new one whose total is the features.
    pub fn new(features: Vec<FeatureMetadata>, initial_commit: String, previously_finished: Option<&Self>) -> (r:
        Self)
        ensures
            previously_finished matches Some(p) ==> (spec_state_of(p@.state)
                == DerivationState::InProgress ==> r@ == p@),
            previously_finished matches Some(p) ==> (spec_state_of(p@.state) == DerivationState::Idle
                ==> r@.id.len() == 36 && r@.state == in_progress_name() && r@.initial_commit
                == initial_commit@ && r@.completed.len() == 0 && r@.missing == feature_views(features@)
                && r@.total == p@.total),
            previously_finished is None ==> r@.id.len() == 36 && r@.state == in_progress_name()
                && r@.initial_commit == initial_commit@ && r@.completed.len() == 0 && r@.missing
                == feature_views(features@) && r@.total == feature_views(features@),
    {
        let uuid = crate::spl::derivation::new_uuid();
        match previously_finished {
            Some(prev) => match prev.get_state() {
                DerivationState::InProgress => prev.clone(),
                DerivationState::Idle => {
                    let total = copy_features(prev.get_total());
                    let r = Self {
                        id: uuid,
                        initial_commit,
                        state: DerivationState::InProgress.to_string(),
                        completed: Vec::new(),
                        missing: features,
                        total,
                    };
                    assert(r@.completed =~= Seq::<Seq<char>>::empty());
                    r
                },
            },
            None => {
                let missing = copy_features(&features);
                let r = Self {
                    id: uuid,
                    initial_commit,
                    state: DerivationState::InProgress.to_string(),
                    completed: Vec::new(),
                    missing,
                    total: features,
                };
                assert(r@.completed =~= Seq::<Seq<char>>::empty());
                r
            },
        }
    }

    /// Sets the state to finished.
    pub fn as_finished(&mut self)
        ensures
            final(self)@ == (DerivationRecordView { state: idle_name(), ..old(self)@ }),
    {
        self.state = DerivationState::Idle.to_string();
    }

    /// Sets the state to in progress.
    pub fn as_in_progress(&mut self)
        ensures
            final(self)@ == (DerivationRecordView { state: in_progress_name(), ..old(self)@ }),
    {
        self.state = DerivationState::InProgress.to_string();
    }

    /// Marks one feature: see `record_mark`.
    fn mark_one(&mut self, feature: &NormalizedPath)
        ensures
            final(self)@ == record_mark(old(self)@, feature@.segments),
    {
        let ghost v = self@;
        let ghost target = feature@.segments;
        let mut found: Option<usize> = None;
        let mut i: usize = 0;
        assert(v.missing.subrange(0, v.missing.len() as int) =~= v.missing);
        while i < self.missing.len()
            invariant
                i <= self.missing@.len(),
                self@ == v,
                target == feature@.segments,
                found is None ==> first_reading_as(v.missing, target) == first_reading_as(
                    v.missing.subrange(i as int, v.missing.len() as int),
                    target,
                ),
                found matches Some(k) ==> k < self.missing@.len() && first_reading_as(v.missing, target)
                    == Some(v.missing[k as int]),
            decreases self.missing@.len() - i,
        {
            let ghost rest = v.missing.subrange(i as int, v.missing.len() as int);
            assert(rest.drop_first() =~= v.missing.subrange(i + 1, v.missing.len() as int));
            if found.is_none() {
                let parsed = self.missing[i].get_qualified_path();
                if parsed.equals(feature) {
                    found = Some(i);
                }
            }
            i = i + 1;
        }
        if let Some(k) = found {
            let entry = self.missing[k].clone();
            let mut kept: Vec<FeatureMetadata> = Vec::new();
            let mut j: usize = 0;
            while j < self.missing.len()
                invariant
                    j <= self.missing@.len(),
                    self@ == v,
                    target == feature@.segments,
                    feature_views(kept@) == v.missing.subrange(0, j as int).filter(
                        |x: Seq<char>| parsed_segments(x) != target,
                    ),
                decreases self.missing@.len() - j,
            {
                let ghost before = kept@;
                assert(v.missing.subrange(0, j + 1).drop_last() =~= v.missing.subrange(0, j as int));
                assert(v.missing.subrange(0, j + 1).last() == self.missing@[j as int]@);
                let parsed = self.missing[j].get_qualified_path();
                if !parsed.equals(feature) {
                    let m = self.missing[j].clone();
                    kept.push(m);
                    assert(feature_views(kept@) =~= feature_views(before).push(m@));
                }
                proof {
                    reveal(Seq::filter);
                }
                j = j + 1;
            }
            assert(v.missing.subrange(0, j as int) =~= v.missing);
            self.missing = kept;
            let ghost before = self.completed@;
            let ghost ev = entry@;
            self.completed.push(entry);
            assert(feature_views(self.completed@) =~= feature_views(before).push(ev));
        } else {
            assert(v.missing.subrange(i as int, v.missing.len() as int) =~= Seq::<Seq<char>>::empty());
        }
    }

    /// Marks each of `features` in turn as merged: see `record_mark_all`.
    pub fn mark_as_completed(&mut self, features: &Vec<NormalizedPath>)
        ensures
            final(self)@ == record_mark_all(old(self)@, segment_views(features@)),
    {
        let ghost start = self@;
        let ghost fs = segment_views(features@);
        let mut i: usize = 0;
        assert(fs.subrange(0, fs.len() as int) =~= fs);
        while i < features.len()
            invariant
                i <= features@.len(),
                fs == segment_views(features@),
                record_mark_all(start, fs) == record_mark_all(self@, fs.subrange(i as int, fs.len() as int)),
            decreases features@.len() - i,
        {
            let ghost rest = fs.subrange(i as int, fs.len() as int);
            assert(rest.drop_first() =~= fs.subrange(i + 1, fs.len() as int));
            assert(rest[0] == features@[i as int]@.segments);
            self.mark_one(&features[i]);
            i = i + 1;
        }
        assert(fs.subrange(i as int, fs.len() as int) =~= Seq::<Seq<Seq<char>>>::empty());
    }

    /// Sets the missing features to `new_order`, each by its textual form.
    /// Each of `new_order` must be one of the missing features.
    pub fn reorder_missing(&mut self, new_order: &Vec<NormalizedPath>)
        requires
            forall|j: int|
                0 <= j < new_order@.len() ==> exists|i: int|
                    0 <= i < old(self)@.missing.len() && #[trigger] parsed_segments(old(self)@.missing[i])
                        == (#[trigger] new_order@[j])@.segments,
        ensures
            final(self)@ == (DerivationRecordView {
                missing: segment_views(new_order@).map_values(|s: Seq<Seq<char>>| path_text(s)),
                ..old(self)@
            }),
    {
        self.missing = FeatureMetadata::from_qualified_paths(new_order);
    }

    pub fn get_completed(&self) -> (r: &Vec<FeatureMetadata>)
        ensures
            feature_views(r@) == self@.completed,
    {
        &self.completed
    }

    pub fn get_missing(&self) -> (r: &Vec<FeatureMetadata>)
        ensures
            feature_views(r@) == self@.missing,
    {
        &self.missing
    }

    pub fn get_total(&self) -> (r: &Vec<FeatureMetadata>)
        ensures
            feature_views(r@) == self@.total,
    {
        &self.total
    }

    /// The state that the record's state name reads as.
    pub fn get_state(&self) -> (r: DerivationState)
        ensures
            r == spec_state_of(self@.state),
    {
        DerivationState::from_string(self.state.as_str())
    }

    pub fn get_id(&self) -> (r: &String)
        ensures
            r@ == self@.id,
    {
        &self.id
    }

    pub fn get_initial_commit(&self) -> (r: &String)
        ensures
            r@ == self@.initial_commit,
    {
        &self.initial_commit
    }
}

/// Derivation metadata: either a pointer to the commit that holds the data,
/// or the data itself.
#[derive(Debug)]
pub struct DerivationMetadata {
    pointer: Option<String>,
    data: Option<DerivationData>,
}

impl DerivationMetadata {
    pub closed spec fn spec_pointer(&self) -> Option<Seq<char>> {
        match self.pointer {
            Some(p) => Some(p@),
            None => None,
        }
    }

    pub closed spec fn spec_data(&self) -> Option<DerivationRecordView> {
        match self.data {
            Some(d) => Some(d@),
            None => None,
        }
    }

    /// Metadata of exactly one of a pointer and data.
    pub fn new(pointer: Option<String>, data: Option<DerivationData>) -> (r: Self)
        requires
            pointer is Some != data is Some,
        ensures
            r.spec_pointer() == match pointer {
                Some(p) => Some(p@),
                None => None::<Seq<char>>,
            },
            r.spec_data() == match data {
                Some(d) => Some(d@),
                None => None::<DerivationRecordView>,
            },
    {
        Self { pointer, data }
    }

    pub fn get_pointer(&self) -> (r: &Option<String>)
        ensures
            match r {
                Some(p) => self.spec_pointer() == Some(p@),
                None => self.spec_pointer() is None,
            },
    {
        &self.pointer
    }

    pub fn get_data(&self) -> (r: &Option<DerivationData>)
        ensures
            match r {
                Some(d) => self.spec_data() == Some(d@),
                None => self.spec_data() is None,
            },
    {
        &self.data
    }
}

} // verus!
