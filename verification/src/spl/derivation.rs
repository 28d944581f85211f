//! The state of deriving a product: which features are merged, which are
//! still missing, and what the product holds in total.
use crate::base::model::path::normalized_path::{spec_set_version_appendix, NormalizedPath};
use crate::git::conflict::{
    MergeChainStatistic, MergeChainView, MergeKind, MergeStatistic, MergeStatisticView,
    counters_consistent, lemma_count_bound, law_chain_push_keeps_counters,
};
use crate::model::commit::Commit;
use crate::model::qualified_path::CommitHash;
use crate::spl::error::{
    AbortDerivationError, ContinueDerivationError, InitializeDerivationError, ResetDerivationError,
    UpdateProductError,
};
use vstd::prelude::*;
use vstd::string::*;

verus! {

/// Calls `uuid::Uuid::new_v4()` and formats it with `to_string`. Claimed, as
/// uuid's hyphenated lowercase form has it: 36 characters with hyphens at
/// positions 8, 13, 18 and 23. The value is random and not stated; `new_v4`
/// panics where the system's random source fails, which is not excluded.
#[verifier::external_body]
pub(crate) fn new_uuid() -> (r: String)
    ensures
        r@.len() == 36,
        r@[8] == '-' && r@[13] == '-' && r@[18] == '-' && r@[23] == '-',
{
    uuid::Uuid::new_v4().to_string()
}

/// What a merge of a feature into the product came to.
#[derive(Debug)]
pub enum MergeResult {
    Success,
    UpToDate,
    Conflict,
    Merging,
    Error(String),
}

/// A merge result in terms of characters.
pub enum MergeResultView {
    Success,
    UpToDate,
    Conflict,
    Merging,
    Error(Seq<char>),
}

impl View for MergeResult {
    type V = MergeResultView;

    open spec fn view(&self) -> MergeResultView {
        match self {
            MergeResult::Success => MergeResultView::Success,
            MergeResult::UpToDate => MergeResultView::UpToDate,
            MergeResult::Conflict => MergeResultView::Conflict,
            MergeResult::Merging => MergeResultView::Merging,
            MergeResult::Error(e) => MergeResultView::Error(e@),
        }
    }
}

impl Clone for MergeResult {
    fn clone(&self) -> (r: Self)
        ensures
            r@ == self@,
    {
        match self {
            MergeResult::Success => MergeResult::Success,
            MergeResult::UpToDate => MergeResult::UpToDate,
            MergeResult::Conflict => MergeResult::Conflict,
            MergeResult::Merging => MergeResult::Merging,
            MergeResult::Error(e) => MergeResult::Error(e.clone()),
        }
    }
}

impl MergeResult {
    pub fn equals(&self, other: &MergeResult) -> (r: bool)
        ensures
            r == (self@ == other@),
    {
        match (self, other) {
            (MergeResult::Success, MergeResult::Success) => true,
            (MergeResult::UpToDate, MergeResult::UpToDate) => true,
            (MergeResult::Conflict, MergeResult::Conflict) => true,
            (MergeResult::Merging, MergeResult::Merging) => true,
            (MergeResult::Error(a), MergeResult::Error(b)) => crate::text::str_eq(a.as_str(), b.as_str()),
            _ => false,
        }
    }
}

/// A feature path with the result of merging it.
#[derive(Debug)]
pub struct NormalizedMergeStatistic {
    path: NormalizedPath,
    stat: MergeResult,
}

/// A feature path and a merge result, in terms of characters.
pub struct MergeEntryView {
    pub path: Seq<Seq<char>>,
    pub stat: MergeResultView,
}

impl View for NormalizedMergeStatistic {
    type V = MergeEntryView;

    closed spec fn view(&self) -> MergeEntryView {
        MergeEntryView { path: self.path@, stat: self.stat@ }
    }
}

impl Clone for NormalizedMergeStatistic {
    fn clone(&self) -> (r: Self)
        ensures
            r@ == self@,
    {
        NormalizedMergeStatistic { path: self.path.clone(), stat: self.stat.clone() }
    }
}

impl NormalizedMergeStatistic {
    pub fn new(path: NormalizedPath, stat: MergeResult) -> (r: Self)
        ensures
            r@ == (MergeEntryView { path: path@, stat: stat@ }),
    {
        Self { path, stat }
    }

    pub fn get_path(&self) -> (r: &NormalizedPath)
        ensures
            r@ == self@.path,
    {
        &self.path
    }

    pub fn get_stat(&self) -> (r: &MergeResult)
        ensures
            r@ == self@.stat,
    {
        &self.stat
    }

    /// Same path and same result.
    pub fn equals(&self, other: &NormalizedMergeStatistic) -> (r: bool)
        ensures
            r == (self@ == other@),
    {
        self.path.equals(&other.path) && self.stat.equals(&other.stat)
    }
}

/// The views of merge entries.
pub open spec fn entry_views(s: Seq<NormalizedMergeStatistic>) -> Seq<MergeEntryView> {
    s.map_values(|x: NormalizedMergeStatistic| x@)
}

/// The views of paths.
pub open spec fn path_views(s: Seq<NormalizedPath>) -> Seq<Seq<Seq<char>>> {
    s.map_values(|x: NormalizedPath| x@)
}

/// Whether a derivation is running.
#[derive(Debug, Clone, Copy, PartialEq, Eq, Structural)]
pub enum DerivationState {
    InProgress,
    Idle,
}

impl DerivationState {
    /// `in_progress` or `none`.
    pub fn to_string(&self) -> (r: String)
        ensures
            *self == DerivationState::InProgress ==> r@ == seq!['i', 'n', '_', 'p', 'r', 'o', 'g', 'r', 'e', 's', 's'],
            *self == DerivationState::Idle ==> r@ == seq!['n', 'o', 'n', 'e'],
    {
        proof {
            reveal_strlit("in_progress");
            reveal_strlit("none");
            assert(("in_progress")@ =~= seq!['i', 'n', '_', 'p', 'r', 'o', 'g', 'r', 'e', 's', 's']);
            assert(("none")@ =~= seq!['n', 'o', 'n', 'e']);
        }
        match self {
            DerivationState::InProgress => String::from_str("in_progress"),
            DerivationState::Idle => String::from_str("none"),
        }
    }
}

/// A derivation in terms of characters.
pub struct DerivationDataView {
    pub id: Seq<char>,
    pub state: DerivationState,
    pub initial_commit: Seq<char>,
    pub completed: Seq<MergeEntryView>,
    pub missing: Seq<MergeEntryView>,
    pub total: Seq<Seq<Seq<char>>>,
}

/// The path without its version.
pub open spec fn unversioned(p: Seq<Seq<char>>) -> Seq<Seq<char>> {
    spec_set_version_appendix(p, None)
}

/// The first of `features` whose path without version is that of `p`.
pub open spec fn first_match(features: Seq<MergeEntryView>, p: Seq<Seq<char>>) -> Option<MergeEntryView>
    decreases features.len(),
{
    if features.len() == 0 {
        None
    } else if unversioned(features[0].path) == unversioned(p) {
        Some(features[0])
    } else {
        first_match(features.drop_first(), p)
    }
}

/// A path of the previous total, updated by the new features: the feature's
/// path where one matches and was not up to date, else the path itself.
pub open spec fn updated_entry(features: Seq<MergeEntryView>, p: Seq<Seq<char>>) -> Seq<Seq<char>> {
    match first_match(features, p) {
        Some(f) => if f.stat == MergeResultView::UpToDate {
            p
        } else {
            f.path
        },
        None => p,
    }
}

/// Whether `f` is the match of some path of `total`.
pub open spec fn matched_by(features: Seq<MergeEntryView>, total: Seq<Seq<Seq<char>>>, f: MergeEntryView) -> bool {
    exists|i: int| 0 <= i < total.len() && #[trigger] first_match(features, total[i]) == Some(f)
}

/// The total of a new derivation: the previous total updated by the
/// features, then the paths of the features that matched none of it.
pub open spec fn new_total(features: Seq<MergeEntryView>, previous: Seq<Seq<Seq<char>>>) -> Seq<Seq<Seq<char>>> {
    previous.map_values(|p: Seq<Seq<char>>| updated_entry(features, p)) + features.filter(
        |f: MergeEntryView| !matched_by(features, previous, f),
    ).map_values(|f: MergeEntryView| f.path)
}

/// Marking `feature` as merged: the first missing entry on that path, if
/// any, is recorded as a success, every missing entry on that path is
/// dropped, and without missing entries the derivation is over.
pub open spec fn spec_mark(v: DerivationDataView, feature: Seq<Seq<char>>) -> DerivationDataView {
    let found = exists|i: int| 0 <= i < v.missing.len() && #[trigger] v.missing[i].path == feature;
    let missing = v.missing.filter(|m: MergeEntryView| m.path != feature);
    DerivationDataView {
        id: v.id,
        state: if missing.len() == 0 {
            DerivationState::Idle
        } else {
            v.state
        },
        initial_commit: v.initial_commit,
        completed: if found {
            v.completed.push(MergeEntryView { path: feature, stat: MergeResultView::Success })
        } else {
            v.completed
        },
        missing: if found {
            missing
        } else {
            v.missing
        },
        total: v.total,
    }
}

/// `r` is a derivation started after `previous` with `features` at
/// `commit`: a fresh id of 36 characters, in progress, nothing completed,
/// the features missing, and the previous total updated by them.
pub open spec fn started_from(
    previous: DerivationDataView,
    features: Seq<MergeEntryView>,
    commit: Seq<char>,
    r: DerivationDataView,
) -> bool {
    &&& r.id.len() == 36
    &&& r.state == DerivationState::InProgress
    &&& r.initial_commit == commit
    &&& r.completed.len() == 0
    &&& r.missing == features
    &&& r.total == new_total(features, previous.total)
}

/// Marking each of `paths` in turn as merged.
pub open spec fn spec_mark_all(v: DerivationDataView, paths: Seq<Seq<Seq<char>>>) -> DerivationDataView
    decreases paths.len(),
{
    if paths.len() == 0 {
        v
    } else {
        spec_mark_all(spec_mark(v, paths[0]), paths.drop_first())
    }
}

/// Whether every entry was up to date.
pub open spec fn all_entries_up_to_date(entries: Seq<MergeEntryView>) -> bool {
    forall|i: int| 0 <= i < entries.len() ==> (#[trigger] entries[i]).stat == MergeResultView::UpToDate
}

/// The chain still to merge: none without missing features; otherwise the
/// missing features, the first shown as merging while a merge is pending.
pub open spec fn spec_pending_chain(missing: Seq<MergeEntryView>, pending_merge: bool) -> Option<
    Seq<MergeEntryView>,
> {
    if missing.len() == 0 {
        None
    } else if pending_merge {
        Some(missing.update(0, MergeEntryView { path: missing[0].path, stat: MergeResultView::Merging }))
    } else {
        Some(missing)
    }
}

/// The data of a derivation.
#[derive(Debug)]
pub struct DerivationData {
    id: String,
    state: DerivationState,
    initial_commit: CommitHash,
    completed: Vec<NormalizedMergeStatistic>,
    missing: Vec<NormalizedMergeStatistic>,
    total: Vec<NormalizedPath>,
}

impl View for DerivationData {
    type V = DerivationDataView;

    closed spec fn view(&self) -> DerivationDataView {
        DerivationDataView {
            id: self.id@,
            state: self.state,
            initial_commit: self.initial_commit@,
            completed: entry_views(self.completed@),
            missing: entry_views(self.missing@),
            total: path_views(self.total@),
        }
    }
}

/// A copy of merge entries.
fn copy_entries(s: &Vec<NormalizedMergeStatistic>) -> (r: Vec<NormalizedMergeStatistic>)
    ensures
        entry_views(r@) == entry_views(s@),
{
    let mut out: Vec<NormalizedMergeStatistic> = Vec::new();
    let mut i: usize = 0;
    while i < s.len()
        invariant
            i <= s@.len(),
            entry_views(out@) == entry_views(s@).subrange(0, i as int),
        decreases s@.len() - i,
    {
        let ghost before = out@;
        let x = s[i].clone();
        out.push(x);
        assert(entry_views(out@) =~= entry_views(before).push(x@));
        assert(entry_views(s@).subrange(0, i + 1) =~= entry_views(s@).subrange(0, i as int).push(s@[i as int]@));
        i = i + 1;
    }
    assert(entry_views(s@).subrange(0, i as int) =~= entry_views(s@));
    out
}

/// A copy of paths.
fn copy_paths(s: &Vec<NormalizedPath>) -> (r: Vec<NormalizedPath>)
    ensures
        path_views(r@) == path_views(s@),
{
    let mut out: Vec<NormalizedPath> = Vec::new();
    let mut i: usize = 0;
    while i < s.len()
        invariant
            i <= s@.len(),
            path_views(out@) == path_views(s@).subrange(0, i as int),
        decreases s@.len() - i,
    {
        let ghost before = out@;
        let x = s[i].clone();
        out.push(x);
        assert(path_views(out@) =~= path_views(before).push(x@));
        assert(path_views(s@).subrange(0, i + 1) =~= path_views(s@).subrange(0, i as int).push(s@[i as int]@));
        i = i + 1;
    }
    assert(path_views(s@).subrange(0, i as int) =~= path_views(s@));
    out
}

impl Clone for DerivationData {
    fn clone(&self) -> (r: Self)
        ensures
            r@ == self@,
    {
        DerivationData {
            id: self.id.clone(),
            state: self.state,
            initial_commit: self.initial_commit.clone(),
            completed: copy_entries(&self.completed),
            missing: copy_entries(&self.missing),
            total: copy_paths(&self.total),
        }
    }
}

/// The first of `features` whose path without version is that of `p`, by
/// position.
fn find_match(features: &Vec<NormalizedMergeStatistic>, p: &NormalizedPath) -> (r: Option<usize>)
    ensures
        r matches Some(k) ==> k < features@.len() && first_match(entry_views(features@), p@) == Some(
            entry_views(features@)[k as int],
        ),
        r is None ==> first_match(entry_views(features@), p@) is None,
{
    let target = p.strip_version();
    let mut i: usize = 0;
    assert(entry_views(features@).subrange(0, features@.len() as int) =~= entry_views(features@));
    while i < features.len()
        invariant
            i <= features@.len(),
            target@ == unversioned(p@),
            first_match(entry_views(features@), p@) == first_match(entry_views(features@).subrange(i as int, features@.len() as int), p@),
        decreases features@.len() - i,
    {
        let ghost rest = entry_views(features@).subrange(i as int, features@.len() as int);
        assert(rest.drop_first() =~= entry_views(features@).subrange(i + 1, features@.len() as int));
        let candidate = features[i].get_path().strip_version();
        if candidate.equals(&target) {
            return Some(i);
        }
        i = i + 1;
    }
    assert(entry_views(features@).subrange(i as int, features@.len() as int) =~= Seq::<MergeEntryView>::empty());
    None
}

impl DerivationData {
    /// A derivation of `features` onto the product, starting at
    /// `initial_commit`. Where `previous` is still in progress, it stays as it
    /// is; otherwise a new derivation starts with a fresh id, nothing
    /// completed, the features missing, and the previous total updated by
    /// them.
    pub fn new_in_progress(
        features: Vec<NormalizedMergeStatistic>,
        initial_commit: CommitHash,
        previous: &Self,
    ) -> (r: Self)
        ensures
            previous@.state == DerivationState::InProgress ==> r@ == previous@,
            previous@.state == DerivationState::Idle ==> started_from(
                previous@,
                entry_views(features@),
                initial_commit@,
                r@,
            ),
    {
        match previous.state {
            DerivationState::InProgress => previous.clone(),
            DerivationState::Idle => {
                let uuid = new_uuid();
                let ghost fs = entry_views(features@);
                let ghost prev = previous@.total;
                let mut intermediate: Vec<NormalizedPath> = Vec::new();
                let mut i: usize = 0;
                while i < previous.total.len()
                    invariant
                        i <= previous.total@.len(),
                        fs == entry_views(features@),
                        prev == path_views(previous.total@),
                        path_views(intermediate@) == prev.subrange(0, i as int).map_values(
                            |p: Seq<Seq<char>>| updated_entry(fs, p),
                        ),
                    decreases previous.total@.len() - i,
                {
                    let p = &previous.total[i];
                    let entry = match find_match(&features, p) {
                        Some(k) => {
                            let is_up_to_date = match features[k].get_stat() {
                                MergeResult::UpToDate => true,
                                _ => false,
                            };
                            if is_up_to_date {
                                p.clone()
                            } else {
                                features[k].get_path().clone()
                            }
                        },
                        None => p.clone(),
                    };
                    let ghost before = intermediate@;
                    intermediate.push(entry);
                    assert(path_views(intermediate@) =~= path_views(before).push(entry@));
                    assert(prev.subrange(0, i + 1) =~= prev.subrange(0, i as int).push(prev[i as int]));
                    i = i + 1;
                }
                assert(prev.subrange(0, i as int) =~= prev);
                let mut rest: Vec<NormalizedPath> = Vec::new();
                let mut j: usize = 0;
                while j < features.len()
                    invariant
                        j <= features@.len(),
                        fs == entry_views(features@),
                        prev == path_views(previous.total@),
                        path_views(rest@) == fs.subrange(0, j as int).filter(
                            |f: MergeEntryView| !matched_by(fs, prev, f),
                        ).map_values(|f: MergeEntryView| f.path),
                    decreases features@.len() - j,
                {
                    let matched = Self::is_matched(&features, &previous.total, &features[j]);
                    let ghost before = rest@;
                    assert(fs.subrange(0, j + 1).drop_last() =~= fs.subrange(0, j as int));
                    assert(fs.subrange(0, j + 1).last() == features@[j as int]@);
                    if !matched {
                        let p = features[j].get_path().clone();
                        rest.push(p);
                        assert(path_views(rest@) =~= path_views(before).push(p@));
                    }
                    proof {
                        reveal(Seq::filter);
                    }
                    j = j + 1;
                }
                assert(fs.subrange(0, j as int) =~= fs);
                let ghost inter = path_views(intermediate@);
                let mut total = intermediate;
                let mut x: usize = 0;
                while x < rest.len()
                    invariant
                        x <= rest@.len(),
                        path_views(total@) == inter + path_views(rest@).subrange(0, x as int),
                    decreases rest@.len() - x,
                {
                    let ghost before = total@;
                    let p = rest[x].clone();
                    total.push(p);
                    assert(path_views(total@) =~= path_views(before).push(p@));
                    assert(inter + path_views(rest@).subrange(0, x + 1) =~= (inter + path_views(rest@).subrange(0, x as int)).push(rest@[x as int]@));
                    x = x + 1;
                }
                assert(path_views(rest@).subrange(0, x as int) =~= path_views(rest@));
                let missing = copy_entries(&features);
                let r = Self {
                    id: uuid,
                    initial_commit,
                    state: DerivationState::InProgress,
                    completed: Vec::new(),
                    missing,
                    total,
                };
                assert(r@.completed =~= Seq::<MergeEntryView>::empty());
                r
            },
        }
    }

    /// The data with exactly these parts (as read back from a commit).
    pub fn from_parts(
        id: String,
        state: DerivationState,
        initial_commit: CommitHash,
        completed: Vec<NormalizedMergeStatistic>,
        missing: Vec<NormalizedMergeStatistic>,
        total: Vec<NormalizedPath>,
    ) -> (r: Self)
        ensures
            r@ == (DerivationDataView {
                id: id@,
                state,
                initial_commit: initial_commit@,
                completed: entry_views(completed@),
                missing: entry_views(missing@),
                total: path_views(total@),
            }),
    {
        DerivationData { id, state, initial_commit, completed, missing, total }
    }

    /// Whether `f` is the match of some path of `total`.
    fn is_matched(features: &Vec<NormalizedMergeStatistic>, total: &Vec<NormalizedPath>, f: &NormalizedMergeStatistic) -> (r: bool)
        ensures
            r == matched_by(entry_views(features@), path_views(total@), f@),
    {
        let ghost fs = entry_views(features@);
        let ghost tv = path_views(total@);
        let mut i: usize = 0;
        while i < total.len()
            invariant
                i <= total@.len(),
                fs == entry_views(features@),
                tv == path_views(total@),
                forall|k: int| 0 <= k < i ==> #[trigger] first_match(fs, tv[k]) != Some(f@),
            decreases total@.len() - i,
        {
            match find_match(features, &total[i]) {
                Some(k) => {
                    if features[k].equals(f) {
                        assert(first_match(fs, tv[i as int]) == Some(f@));
                        return true;
                    }
                },
                None => {},
            }
            i = i + 1;
        }
        false
    }

    /// A derivation that has not started: a fresh id, nothing in it.
    pub fn new_initial(initial_commit: CommitHash) -> (r: Self)
        ensures
            r@.id.len() == 36,
            r@.state == DerivationState::Idle,
            r@.initial_commit == initial_commit@,
            r@.completed.len() == 0 && r@.missing.len() == 0 && r@.total.len() == 0,
    {
        let uuid = new_uuid();
        let r = Self {
            id: uuid,
            initial_commit,
            state: DerivationState::Idle,
            completed: Vec::new(),
            missing: Vec::new(),
            total: Vec::new(),
        };
        assert(r@.completed.len() == 0);
        r
    }

    /// Marks `feature` as merged: see `spec_mark`.
    pub fn mark_as_completed(&mut self, feature: &NormalizedPath)
        ensures
            final(self)@ == spec_mark(old(self)@, feature@),
    {
        let ghost v = self@;
        let mut found: Option<usize> = None;
        let mut i: usize = 0;
        while i < self.missing.len()
            invariant
                i <= self.missing@.len(),
                self@ == v,
                found is None ==> forall|k: int| 0 <= k < i ==> (#[trigger] v.missing[k]).path != feature@,
                found matches Some(k) ==> k < self.missing@.len() && v.missing[k as int].path == feature@,
            decreases self.missing@.len() - i,
        {
            if found.is_none() && self.missing[i].get_path().equals(feature) {
                found = Some(i);
            }
            i = i + 1;
        }
        if let Some(k) = found {
            let entry = NormalizedMergeStatistic::new(self.missing[k].get_path().clone(), MergeResult::Success);
            let mut kept: Vec<NormalizedMergeStatistic> = Vec::new();
            let mut j: usize = 0;
            while j < self.missing.len()
                invariant
                    j <= self.missing@.len(),
                    self@ == v,
                    entry_views(kept@) == v.missing.subrange(0, j as int).filter(|m: MergeEntryView| m.path != feature@),
                decreases self.missing@.len() - j,
            {
                let ghost before = kept@;
                assert(v.missing.subrange(0, j + 1).drop_last() =~= v.missing.subrange(0, j as int));
                assert(v.missing.subrange(0, j + 1).last() == self.missing@[j as int]@);
                if !self.missing[j].get_path().equals(feature) {
                    let m = self.missing[j].clone();
                    kept.push(m);
                    assert(entry_views(kept@) =~= entry_views(before).push(m@));
                }
                proof {
                    reveal(Seq::filter);
                }
                j = j + 1;
            }
            assert(v.missing.subrange(0, j as int) =~= v.missing);
            self.missing = kept;
            let ghost before = self.completed@;
            let ghost ev = entry@;
            self.completed.push(entry);
            assert(entry_views(self.completed@) =~= entry_views(before).push(ev));
        }
        if self.missing.len() == 0 {
            self.state = DerivationState::Idle;
        }
        proof {
            if found is None {
                assert(!(exists|x: int| 0 <= x < v.missing.len() && #[trigger] v.missing[x].path == feature@));
                lemma_filter_all(v.missing, |m: MergeEntryView| m.path != feature@);
            }
        }
    }

    /// Sets the missing entries to `new_order`.
    pub fn update_missing(&mut self, new_order: &Vec<NormalizedMergeStatistic>)
        ensures
            final(self)@ == (DerivationDataView { missing: entry_views(new_order@), ..old(self)@ }),
    {
        self.missing = copy_entries(new_order);
    }

    pub fn get_completed(&self) -> (r: &Vec<NormalizedMergeStatistic>)
        ensures
            entry_views(r@) == self@.completed,
    {
        &self.completed
    }

    pub fn get_missing(&self) -> (r: &Vec<NormalizedMergeStatistic>)
        ensures
            entry_views(r@) == self@.missing,
    {
        &self.missing
    }

    pub fn get_total(&self) -> (r: &Vec<NormalizedPath>)
        ensures
            path_views(r@) == self@.total,
    {
        &self.total
    }

    /// The total, each path without its version.
    pub fn get_total_without_versions(&self) -> (r: Vec<NormalizedPath>)
        ensures
            path_views(r@) == self@.total.map_values(|p: Seq<Seq<char>>| unversioned(p)),
    {
        let mut out: Vec<NormalizedPath> = Vec::new();
        let mut i: usize = 0;
        while i < self.total.len()
            invariant
                i <= self.total@.len(),
                path_views(out@) == self@.total.subrange(0, i as int).map_values(|p: Seq<Seq<char>>| unversioned(p)),
            decreases self.total@.len() - i,
        {
            let ghost before = out@;
            let p = self.total[i].strip_version();
            out.push(p);
            assert(path_views(out@) =~= path_views(before).push(p@));
            assert(self@.total.subrange(0, i + 1) =~= self@.total.subrange(0, i as int).push(self.total@[i as int]@));
            i = i + 1;
        }
        assert(self@.total.subrange(0, i as int) =~= self@.total);
        out
    }

    pub fn get_state(&self) -> (r: &DerivationState)
        ensures
            *r == self@.state,
    {
        &self.state
    }

    pub fn get_id(&self) -> (r: &String)
        ensures
            r@ == self@.id,
    {
        &self.id
    }

    pub fn get_initial_commit(&self) -> (r: &CommitHash)
        ensures
            r@ == self@.initial_commit,
    {
        &self.initial_commit
    }
}

/// Marking a feature twice is marking it once.
pub proof fn law_mark_idempotent(v: DerivationDataView, feature: Seq<Seq<char>>)
    ensures
        spec_mark(spec_mark(v, feature), feature) == spec_mark(v, feature),
{
    let once = spec_mark(v, feature);
    let pred = |m: MergeEntryView| m.path != feature;
    if exists|i: int| 0 <= i < v.missing.len() && #[trigger] v.missing[i].path == feature {
        v.missing.lemma_filter_len(pred);
        assert forall|i: int| 0 <= i < once.missing.len() implies #[trigger] once.missing[i].path != feature by {
            v.missing.lemma_filter_pred(pred, i);
        }
    }
    if !(exists|i: int| 0 <= i < once.missing.len() && #[trigger] once.missing[i].path == feature) {
        assert(once.missing.filter(pred) =~= once.missing) by {
            lemma_filter_all(once.missing, pred);
        }
    }
}

/// The paths of the missing entries.
pub open spec fn missing_paths(v: DerivationDataView) -> Seq<Seq<Seq<char>>> {
    v.missing.map_values(|m: MergeEntryView| m.path)
}

/// Marking every missing feature, in any order that names each of them
/// (other paths may come too), leaves nothing missing and finishes the
/// derivation.
pub proof fn law_marking_all_missing_finishes(v: DerivationDataView, paths: Seq<Seq<Seq<char>>>)
    requires
        paths.len() > 0,
        forall|k: int| 0 <= k < v.missing.len() ==> paths.contains(#[trigger] v.missing[k].path),
    ensures
        spec_mark_all(v, paths).missing.len() == 0,
        spec_mark_all(v, paths).state == DerivationState::Idle,
    decreases paths.len(),
{
    let p0 = paths[0];
    let rest = paths.drop_first();
    let pred = |m: MergeEntryView| m.path != p0;
    let next = spec_mark(v, p0);
    v.missing.lemma_filter_len(pred);
    assert forall|i: int| 0 <= i < v.missing.filter(pred).len() implies #[trigger] v.missing.filter(pred)[i].path
        != p0 by {
        v.missing.lemma_filter_pred(pred, i);
    }
    assert forall|k: int| 0 <= k < next.missing.len() implies rest.contains(#[trigger] next.missing[k].path) by {
        let x = next.missing[k];
        if exists|i: int| 0 <= i < v.missing.len() && #[trigger] v.missing[i].path == p0 {
            v.missing.lemma_filter_contains_rev(pred, x);
            assert(v.missing.filter(pred).contains(x)) by {
                assert(v.missing.filter(pred)[k] == x);
            }
            let j = choose|j: int| 0 <= j < v.missing.len() && v.missing[j] == x;
            assert(paths.contains(v.missing[j].path));
        } else {
            assert(paths.contains(v.missing[k].path));
            assert(v.missing[k].path != p0);
        }
        let t = choose|t: int| 0 <= t < paths.len() && paths[t] == x.path;
        assert(t != 0);
        assert(rest[t - 1] == x.path);
    }
    if rest.len() == 0 {
        assert(next.missing.len() == 0) by {
            if next.missing.len() > 0 {
                assert(rest.contains(next.missing[0].path));
            }
        }
        assert(spec_mark_all(next, rest) == next);
        if exists|i: int| 0 <= i < v.missing.len() && #[trigger] v.missing[i].path == p0 {
        } else {
            assert(v.missing.len() == 0) by {
                if v.missing.len() > 0 {
                    assert(paths.contains(v.missing[0].path));
                }
            }
            assert(v.missing.filter(pred).len() == 0);
        }
    } else {
        law_marking_all_missing_finishes(next, rest);
    }
}

/// A derivation just started returns, on abort, to the commit it started
/// from, and is in progress with every feature still missing.
pub proof fn law_start_then_abort_target(
    previous: DerivationDataView,
    features: Seq<MergeEntryView>,
    commit: Seq<char>,
    r: DerivationDataView,
)
    requires
        started_from(previous, features, commit, r),
    ensures
        r.initial_commit == commit,
        r.state == DerivationState::InProgress,
        r.missing == features,
        r.completed.len() == 0,
{
}

/// The features of a derivation: those completed and those missing.
pub open spec fn derivation_features(v: DerivationDataView) -> Seq<Seq<Seq<char>>> {
    (v.completed + v.missing).map_values(|m: MergeEntryView| m.path)
}

/// Marking a feature moves it from the missing to the completed ones: a
/// path is among the features of the derivation after marking iff it was
/// before; the id, the commit started from and the total stay.
pub proof fn law_mark_keeps_features(v: DerivationDataView, feature: Seq<Seq<char>>)
    ensures
        forall|x: Seq<Seq<char>>|
            derivation_features(spec_mark(v, feature)).contains(x) <==> #[trigger] derivation_features(v).contains(x),
        spec_mark(v, feature).id == v.id,
        spec_mark(v, feature).initial_commit == v.initial_commit,
        spec_mark(v, feature).total == v.total,
{
    let pred = |m: MergeEntryView| m.path != feature;
    let after = spec_mark(v, feature);
    if exists|i: int| 0 <= i < v.missing.len() && #[trigger] v.missing[i].path == feature {
        let w = choose|i: int| 0 <= i < v.missing.len() && #[trigger] v.missing[i].path == feature;
        let kept = v.missing.filter(pred);
        let added = MergeEntryView { path: feature, stat: MergeResultView::Success };
        assert(after.completed == v.completed.push(added));
        assert(after.missing == kept);
        assert forall|x: Seq<Seq<char>>| derivation_features(after).contains(x) implies #[trigger] derivation_features(
            v,
        ).contains(x) by {
            let all = after.completed + after.missing;
            let i = choose|i: int| 0 <= i < derivation_features(after).len() && derivation_features(after)[i] == x;
            assert(all[i].path == x);
            if i < v.completed.len() {
                assert((v.completed + v.missing)[i] == v.completed[i]);
                assert(derivation_features(v)[i] == x);
            } else if i == v.completed.len() {
                assert(x == feature);
                assert((v.completed + v.missing)[v.completed.len() + w] == v.missing[w]);
                assert(derivation_features(v)[v.completed.len() + w] == x);
            } else {
                let j = i - v.completed.len() - 1;
                assert(all[i] == kept[j]);
                v.missing.lemma_filter_contains_rev(pred, kept[j]);
                assert(kept.contains(kept[j]));
                let t = choose|t: int| 0 <= t < v.missing.len() && v.missing[t] == kept[j];
                assert((v.completed + v.missing)[v.completed.len() + t] == v.missing[t]);
                assert(derivation_features(v)[v.completed.len() + t] == x);
            }
        }
        assert forall|x: Seq<Seq<char>>| #[trigger] derivation_features(v).contains(x) implies derivation_features(
            after,
        ).contains(x) by {
            let all = v.completed + v.missing;
            let i = choose|i: int| 0 <= i < derivation_features(v).len() && derivation_features(v)[i] == x;
            assert(all[i].path == x);
            if i < v.completed.len() {
                assert((after.completed + after.missing)[i] == v.completed[i]);
                assert(derivation_features(after)[i] == x);
            } else {
                let t = i - v.completed.len();
                assert(all[i] == v.missing[t]);
                if v.missing[t].path == feature {
                    assert((after.completed + after.missing)[v.completed.len() as int] == added);
                    assert(derivation_features(after)[v.completed.len() as int] == x);
                } else {
                    v.missing.lemma_filter_contains(pred, t);
                    let j = choose|j: int| 0 <= j < kept.len() && kept[j] == v.missing[t];
                    assert((after.completed + after.missing)[v.completed.len() + 1 + j] == kept[j]);
                    assert(derivation_features(after)[v.completed.len() + 1 + j] == x);
                }
            }
        }
    } else {
        assert(after.completed == v.completed);
        assert(after.missing == v.missing);
        assert(derivation_features(after) == derivation_features(v));
    }
}

/// Filtering keeps everything where everything passes.
pub proof fn lemma_filter_all(s: Seq<MergeEntryView>, pred: spec_fn(MergeEntryView) -> bool)
    requires
        forall|i: int| 0 <= i < s.len() ==> pred(#[trigger] s[i]),
    ensures
        s.filter(pred) == s,
    decreases s.len(),
{
    reveal(Seq::filter);
    if s.len() > 0 {
        lemma_filter_all(s.drop_last(), pred);
        assert(s.drop_last().push(s.last()) =~= s);
        assert(pred(s[s.len() - 1]));
    }
}

/// The metadata of a derivation commit: the commit before it and the
/// derivation's data.
#[derive(Debug)]
pub struct DerivationMetadata {
    previous: CommitHash,
    data: Option<DerivationData>,
}

impl Clone for DerivationMetadata {
    fn clone(&self) -> (r: Self)
        ensures
            r.spec_previous() == self.spec_previous(),
            r.spec_data() == self.spec_data(),
    {
        let data = match &self.data {
            Some(d) => Some(d.clone()),
            None => None,
        };
        DerivationMetadata { previous: self.previous.clone(), data }
    }
}

impl DerivationMetadata {
    pub closed spec fn spec_previous(&self) -> Seq<char> {
        self.previous@
    }

    pub closed spec fn spec_data(&self) -> Option<DerivationDataView> {
        match self.data {
            Some(d) => Some(d@),
            None => None,
        }
    }

    /// The header of derivation metadata in a commit message.
    pub fn header() -> (r: String)
        ensures
            r@ == seq![
                '-', '-', '-', 'd', 'e', 'r', 'i', 'v', 'a', 't', 'i', 'o', 'n', '-', 'm', 'e', 't',
                'a', 'd', 'a', 't', 'a', '-', '-', '-',
            ],
    {
        proof {
            reveal_strlit("---derivation-metadata---");
            assert(("---derivation-metadata---")@ =~= seq![
                '-', '-', '-', 'd', 'e', 'r', 'i', 'v', 'a', 't', 'i', 'o', 'n', '-', 'm', 'e', 't',
                'a', 'd', 'a', 't', 'a', '-', '-', '-',
            ]);
        }
        String::from_str("---derivation-metadata---")
    }

    pub fn new(previous: CommitHash, data: Option<DerivationData>) -> (r: Self)
        ensures
            r.spec_previous() == previous@,
            r.spec_data() == match data {
                Some(d) => Some(d@),
                None => None::<DerivationDataView>,
            },
    {
        Self { previous, data }
    }

    pub fn get_previous(&self) -> (r: &CommitHash)
        ensures
            r@ == self.spec_previous(),
    {
        &self.previous
    }

    pub fn get_data(&self) -> (r: Option<&DerivationData>)
        ensures
            match r {
                Some(d) => self.spec_data() == Some(d@),
                None => self.spec_data() is None,
            },
    {
        match &self.data {
            Some(d) => Some(d),
            None => None,
        }
    }
}

/// A commit that carries derivation metadata.
pub struct DerivationCommit {
    commit: Commit,
    metadata: DerivationMetadata,
}

impl DerivationCommit {
    pub closed spec fn spec_commit(&self) -> Commit {
        self.commit
    }

    pub closed spec fn spec_metadata(&self) -> DerivationMetadata {
        self.metadata
    }

    pub fn new(commit: Commit, metadata: DerivationMetadata) -> (r: Self)
        ensures
            r.spec_commit() == commit,
            r.spec_metadata() == metadata,
    {
        Self { commit, metadata }
    }

    pub fn get_commit(&self) -> (r: &Commit)
        ensures
            *r == self.spec_commit(),
    {
        &self.commit
    }

    pub fn get_metadata(&self) -> (r: &DerivationMetadata)
        ensures
            *r == self.spec_metadata(),
    {
        &self.metadata
    }
}

/// Starting a derivation needs none in progress.
pub fn initialize_allowed(state: &DerivationState) -> (r: Result<(), InitializeDerivationError>)
    ensures
        r is Ok <==> *state == DerivationState::Idle,
        r matches Err(e) ==> e is DerivationInProgress,
{
    match state {
        DerivationState::Idle => Ok(()),
        DerivationState::InProgress => Err(InitializeDerivationError::DerivationInProgress),
    }
}

/// Continuing a derivation needs one in progress.
pub fn continue_allowed(state: &DerivationState) -> (r: Result<(), ContinueDerivationError>)
    ensures
        r is Ok <==> *state == DerivationState::InProgress,
        r matches Err(e) ==> e is NoDerivationInProgress,
{
    match state {
        DerivationState::InProgress => Ok(()),
        DerivationState::Idle => Err(ContinueDerivationError::NoDerivationInProgress),
    }
}

/// Updating a product needs no derivation in progress.
pub fn update_allowed(state: &DerivationState) -> (r: Result<(), UpdateProductError>)
    ensures
        r is Ok <==> *state == DerivationState::Idle,
        r matches Err(e) ==> e is DerivationInProgress,
{
    match state {
        DerivationState::Idle => Ok(()),
        DerivationState::InProgress => Err(UpdateProductError::DerivationInProgress),
    }
}

/// Aborting a derivation in progress resets to the commit it started from.
pub fn abort_target(data: &DerivationData) -> (r: Result<CommitHash, AbortDerivationError>)
    ensures
        data@.state == DerivationState::InProgress ==> (r matches Ok(c) && c@ == data@.initial_commit),
        data@.state == DerivationState::Idle ==> (r matches Err(e) && e is NoDerivationInProgress),
{
    match data.get_state() {
        DerivationState::InProgress => Ok(data.get_initial_commit().clone()),
        DerivationState::Idle => Err(AbortDerivationError::NoDerivationInProgress),
    }
}

/// Reverting a derivation step in progress resets to the commit before it.
pub fn revert_target(metadata: &DerivationMetadata, state: &DerivationState) -> (r: Result<
    CommitHash,
    ResetDerivationError,
>)
    ensures
        *state == DerivationState::InProgress ==> (r matches Ok(c) && c@ == metadata.spec_previous()),
        *state == DerivationState::Idle ==> (r matches Err(e) && e is NoDerivationInProgress),
{
    match state {
        DerivationState::InProgress => Ok(metadata.get_previous().clone()),
        DerivationState::Idle => Err(ResetDerivationError::NoDerivationInProgress),
    }
}

/// The message of a derivation commit after a run: progress while features
/// are missing, finished when none are.
pub fn progress_message(state: &DerivationState) -> (r: String)
    ensures
        *state == DerivationState::InProgress ==> r@ == seq![
            'D', 'e', 'r', 'i', 'v', 'a', 't', 'i', 'o', 'n', ' ', 'p', 'r', 'o', 'g', 'r', 'e', 's', 's',
        ],
        *state == DerivationState::Idle ==> r@ == seq![
            'D', 'e', 'r', 'i', 'v', 'a', 't', 'i', 'o', 'n', ' ', 'f', 'i', 'n', 'i', 's', 'h', 'e', 'd',
        ],
{
    proof {
        reveal_strlit("Derivation progress");
        reveal_strlit("Derivation finished");
        assert(("Derivation progress")@ =~= seq![
            'D', 'e', 'r', 'i', 'v', 'a', 't', 'i', 'o', 'n', ' ', 'p', 'r', 'o', 'g', 'r', 'e', 's', 's',
        ]);
        assert(("Derivation finished")@ =~= seq![
            'D', 'e', 'r', 'i', 'v', 'a', 't', 'i', 'o', 'n', ' ', 'f', 'i', 'n', 'i', 's', 'h', 'e', 'd',
        ]);
    }
    match state {
        DerivationState::InProgress => String::from_str("Derivation progress"),
        DerivationState::Idle => String::from_str("Derivation finished"),
    }
}


/// The decisions of deriving a product: which state a derivation is in,
/// what to commit after each step, and where to reset to. The merges and
/// commits themselves are made by the caller, which hands their results in.
pub struct DerivationManager {
    product: NormalizedPath,
    current_state: DerivationMetadata,
}

impl DerivationManager {
    #[verifier::type_invariant]
    spec fn has_data(self) -> bool {
        self.current_state.spec_data() is Some
    }

    pub closed spec fn spec_product(&self) -> Seq<Seq<char>> {
        self.product@
    }

    pub closed spec fn spec_previous(&self) -> Seq<char> {
        self.current_state.spec_previous()
    }

    pub closed spec fn spec_data(&self) -> DerivationDataView {
        self.current_state.spec_data().unwrap()
    }

    /// A manager of the derivation of `product` whose last derivation
    /// metadata is `current_state`.
    pub fn new(product: NormalizedPath, current_state: DerivationMetadata) -> (r: Self)
        requires
            current_state.spec_data() is Some,
        ensures
            r.spec_product() == product@,
            r.spec_previous() == current_state.spec_previous(),
            Some(r.spec_data()) == current_state.spec_data(),
    {
        Self { product, current_state }
    }

    fn current_data(&self) -> (r: &DerivationData)
        ensures
            r@ == self.spec_data(),
    {
        proof {
            use_type_invariant(self);
        }
        self.current_state.data.as_ref().unwrap()
    }

    pub fn get_current_state(&self) -> (r: &DerivationMetadata)
        ensures
            r.spec_previous() == self.spec_previous(),
            r.spec_data() == Some(self.spec_data()),
    {
        proof {
            use_type_invariant(self);
        }
        &self.current_state
    }

    pub fn get_product(&self) -> (r: &NormalizedPath)
        ensures
            r@ == self.spec_product(),
    {
        &self.product
    }

    /// The features still to merge (see `spec_pending_chain`), given whether
    /// a merge is pending in the repository.
    pub fn get_pending_chain(&self, pending_merge: bool) -> (r: Option<Vec<NormalizedMergeStatistic>>)
        ensures
            match r {
                Some(v) => spec_pending_chain(self.spec_data().missing, pending_merge) == Some(
                    entry_views(v@),
                ),
                None => spec_pending_chain(self.spec_data().missing, pending_merge) is None,
            },
    {
        let data = self.current_data();
        if data.missing.len() == 0 {
            return None;
        }
        let mut chain = copy_entries(&data.missing);
        if pending_merge {
            let ghost before = entry_views(chain@);
            let first = chain.remove(0);
            let merging = NormalizedMergeStatistic::new(first.path, MergeResult::Merging);
            chain.insert(0, merging);
            assert(entry_views(chain@) =~= before.update(
                0,
                MergeEntryView { path: before[0].path, stat: MergeResultView::Merging },
            ));
        }
        Some(chain)
    }

    /// Starts a derivation of the predicted `chain` (the features in merge
    /// order with their predicted results) at `current_commit`. Refused while
    /// one is in progress; where every feature is up to date nothing starts
    /// (`None`); otherwise the new metadata, which becomes the current state
    /// and is to be committed.
    pub fn initialize_derivation(
        &mut self,
        chain: Vec<NormalizedMergeStatistic>,
        current_commit: CommitHash,
    ) -> (r: Result<Option<DerivationMetadata>, InitializeDerivationError>)
        ensures
            old(self).spec_data().state == DerivationState::InProgress ==> (r matches Err(e)
                && e is DerivationInProgress),
            old(self).spec_data().state == DerivationState::Idle && all_entries_up_to_date(
                entry_views(chain@),
            ) ==> r matches Ok(None),
            old(self).spec_data().state == DerivationState::Idle && !all_entries_up_to_date(
                entry_views(chain@),
            ) ==> (r matches Ok(Some(m)) && m.spec_previous() == current_commit@ && m.spec_data()
                == Some(final(self).spec_data()) && started_from(
                old(self).spec_data(),
                entry_views(chain@),
                current_commit@,
                final(self).spec_data(),
            )),
            final(self).spec_product() == old(self).spec_product(),
            (r is Err || r matches Ok(None)) ==> final(self).spec_data() == old(self).spec_data()
                && final(self).spec_previous() == old(self).spec_previous(),
            r matches Ok(Some(m)) ==> final(self).spec_previous() == m.spec_previous(),
    {
        proof {
            use_type_invariant(&*self);
        }
        let data = self.current_data();
        match initialize_allowed(data.get_state()) {
            Err(e) => return Err(e),
            Ok(()) => {},
        }
        let ghost views = entry_views(chain@);
        let mut all_up_to_date = true;
        let mut i: usize = 0;
        while i < chain.len()
            invariant
                i <= chain@.len(),
                views == entry_views(chain@),
                all_up_to_date <==> forall|k: int| 0 <= k < i ==> (#[trigger] views[k]).stat
                    == MergeResultView::UpToDate,
            decreases chain@.len() - i,
        {
            let up = match chain[i].get_stat() {
                MergeResult::UpToDate => true,
                _ => false,
            };
            assert(views[i as int] == chain@[i as int]@);
            if !up {
                all_up_to_date = false;
            }
            i = i + 1;
        }
        if all_up_to_date {
            return Ok(None);
        }
        let new_data = DerivationData::new_in_progress(chain, current_commit.clone(), data);
        let new_state = DerivationMetadata::new(current_commit, Some(new_data));
        let result = new_state.clone();
        self.current_state = new_state;
        Ok(Some(result))
    }

    /// Records a step of the derivation at `current_commit`: each of
    /// `merged` (the missing features merged without conflict, in order) is
    /// marked as completed. Refused where no derivation is in progress;
    /// otherwise the new metadata, which becomes the current state, and the
    /// message to commit it with.
    pub fn continue_derivation(&mut self, current_commit: CommitHash, merged: &Vec<NormalizedPath>) -> (r: Result<
        (DerivationMetadata, String),
        ContinueDerivationError,
    >)
        ensures
            old(self).spec_data().state == DerivationState::Idle ==> (r matches Err(e)
                && e is NoDerivationInProgress && final(self).spec_data() == old(self).spec_data()
                && final(self).spec_previous() == old(self).spec_previous()),
            old(self).spec_data().state == DerivationState::InProgress ==> (r matches Ok((m, msg))
                && final(self).spec_data() == spec_mark_all(old(self).spec_data(), path_views(merged@))
                && m.spec_data() == Some(final(self).spec_data()) && m.spec_previous() == current_commit@
                && final(self).spec_previous() == current_commit@
                && (final(self).spec_data().state == DerivationState::InProgress ==> msg@ == seq![
                'D', 'e', 'r', 'i', 'v', 'a', 't', 'i', 'o', 'n', ' ', 'p', 'r', 'o', 'g', 'r', 'e', 's', 's',
            ]) && (final(self).spec_data().state == DerivationState::Idle ==> msg@ == seq![
                'D', 'e', 'r', 'i', 'v', 'a', 't', 'i', 'o', 'n', ' ', 'f', 'i', 'n', 'i', 's', 'h', 'e', 'd',
            ])),
            final(self).spec_product() == old(self).spec_product(),
    {
        proof {
            use_type_invariant(&*self);
        }
        let data = self.current_data();
        match continue_allowed(data.get_state()) {
            Err(e) => return Err(e),
            Ok(()) => {},
        }
        let ghost start = data@;
        let mut new_data = data.clone();
        let mut i: usize = 0;
        assert(path_views(merged@).subrange(0, merged@.len() as int) =~= path_views(merged@));
        while i < merged.len()
            invariant
                i <= merged@.len(),
                spec_mark_all(start, path_views(merged@)) == spec_mark_all(
                    new_data@,
                    path_views(merged@).subrange(i as int, merged@.len() as int),
                ),
            decreases merged@.len() - i,
        {
            let ghost rest = path_views(merged@).subrange(i as int, merged@.len() as int);
            assert(rest.drop_first() =~= path_views(merged@).subrange(i + 1, merged@.len() as int));
            new_data.mark_as_completed(&merged[i]);
            i = i + 1;
        }
        proof {
            assert(path_views(merged@).subrange(i as int, merged@.len() as int) =~= Seq::<
                Seq<Seq<char>>,
            >::empty());
        }
        let message = progress_message(new_data.get_state());
        let metadata = DerivationMetadata::new(current_commit, Some(new_data));
        let result = metadata.clone();
        self.current_state = metadata;
        Ok((result, message))
    }

    /// Adopts `new_order` for the missing features at `current_commit` where
    /// it differs from `old_order` (or there was none): the new metadata,
    /// which becomes the current state and is to be committed; `None` where
    /// the order stays.
    pub fn optimize_merge_order(
        &mut self,
        old_order: &Option<Vec<NormalizedMergeStatistic>>,
        new_order: &Vec<NormalizedMergeStatistic>,
        current_commit: CommitHash,
    ) -> (r: Option<DerivationMetadata>)
        ensures
            final(self).spec_product() == old(self).spec_product(),
            match old_order {
                Some(o) => entry_views(o@) == entry_views(new_order@),
                None => false,
            } ==> r is None && final(self).spec_data() == old(self).spec_data()
                && final(self).spec_previous() == old(self).spec_previous(),
            !match old_order {
                Some(o) => entry_views(o@) == entry_views(new_order@),
                None => false,
            } ==> (r matches Some(m) && final(self).spec_data() == (DerivationDataView {
                missing: entry_views(new_order@),
                ..old(self).spec_data()
            }) && m.spec_data() == Some(final(self).spec_data()) && m.spec_previous() == current_commit@
                && final(self).spec_previous() == current_commit@),
    {
        proof {
            use_type_invariant(&*self);
        }
        let same = match old_order {
            Some(o) => entries_equal(o, new_order),
            None => false,
        };
        if same {
            return None;
        }
        let mut new_state = self.current_data().clone();
        new_state.update_missing(new_order);
        let metadata = DerivationMetadata::new(current_commit, Some(new_state));
        let result = metadata.clone();
        self.current_state = metadata;
        Some(result)
    }

    /// Aborting: the commit the derivation in progress started from, to
    /// reset to.
    pub fn abort_derivation(&self) -> (r: Result<CommitHash, AbortDerivationError>)
        ensures
            self.spec_data().state == DerivationState::InProgress ==> (r matches Ok(c) && c@
                == self.spec_data().initial_commit),
            self.spec_data().state == DerivationState::Idle ==> (r matches Err(e)
                && e is NoDerivationInProgress),
    {
        abort_target(self.current_data())
    }

    /// Reverting: the commit before the last derivation step, to reset to.
    pub fn revert_derivation(&self) -> (r: Result<CommitHash, ResetDerivationError>)
        ensures
            self.spec_data().state == DerivationState::InProgress ==> (r matches Ok(c) && c@
                == self.spec_previous()),
            self.spec_data().state == DerivationState::Idle ==> (r matches Err(e)
                && e is NoDerivationInProgress),
    {
        proof {
            use_type_invariant(self);
        }
        revert_target(&self.current_state, self.current_data().get_state())
    }

    /// Updating the product: refused while a derivation is in progress;
    /// otherwise the features of its total, without versions, to derive
    /// anew.
    pub fn update_product(&self) -> (r: Result<Vec<NormalizedPath>, UpdateProductError>)
        ensures
            self.spec_data().state == DerivationState::InProgress ==> (r matches Err(e)
                && e is DerivationInProgress),
            self.spec_data().state == DerivationState::Idle ==> (r matches Ok(v) && path_views(v@)
                == self.spec_data().total.map_values(|p: Seq<Seq<char>>| unversioned(p))),
    {
        let data = self.current_data();
        match update_allowed(data.get_state()) {
            Err(e) => Err(e),
            Ok(()) => Ok(data.get_total_without_versions()),
        }
    }
}

/// What a derivation run does after merging the next missing feature.
#[derive(Debug, Clone, Copy, PartialEq, Eq, Structural)]
pub enum RunStep {
    /// The feature is merged; it counts as completed and the run goes on
    /// with the next missing feature.
    MarkAndContinue,
    /// The merge conflicted; it is aborted and the run stops.
    AbortAndStop,
}

/// The step after a merge with the given outcome: a conflict aborts the
/// merge and stops the run, any other outcome marks the feature completed
/// and goes on.
pub fn step_after_merge(outcome: crate::git::interface::MergeOutcome) -> (r: RunStep)
    ensures
        r == (if outcome == crate::git::interface::MergeOutcome::Conflict {
            RunStep::AbortAndStop
        } else {
            RunStep::MarkAndContinue
        }),
{
    match outcome {
        crate::git::interface::MergeOutcome::Conflict => RunStep::AbortAndStop,
        _ => RunStep::MarkAndContinue,
    }
}

/// Whether two lists of entries are equal, entry by entry.
fn entries_equal(a: &Vec<NormalizedMergeStatistic>, b: &Vec<NormalizedMergeStatistic>) -> (r: bool)
    ensures
        r == (entry_views(a@) == entry_views(b@)),
{
    if a.len() != b.len() {
        proof {
            assert(entry_views(a@).len() != entry_views(b@).len());
        }
        return false;
    }
    let mut i: usize = 0;
    while i < a.len()
        invariant
            i <= a@.len(),
            a@.len() == b@.len(),
            forall|k: int| 0 <= k < i ==> entry_views(a@)[k] == entry_views(b@)[k],
        decreases a@.len() - i,
    {
        if !a[i].equals(&b[i]) {
            proof {
                assert(entry_views(a@)[i as int] != entry_views(b@)[i as int]);
            }
            return false;
        }
        i = i + 1;
    }
    proof {
        assert(entry_views(a@) =~= entry_views(b@));
    }
    true
}

} // verus!
