//! Results of test merges: single merge outcomes, chains of merges onto a
//! base, their counters and weights, and the matrix of pairwise outcomes that
//! predicts conflicts and proposes a merge order.
use crate::model::qualified_path::{
    head_printable, spec_formatted, NormalizedPath, QPathView,
};
use crate::text::join;
use vstd::prelude::*;
use vstd::string::*;

verus! {

/// A merge that went through.
#[derive(Debug)]
pub struct MergeSuccess {
    path: NormalizedPath,
}

impl MergeSuccess {
    pub closed spec fn spec_path(&self) -> QPathView {
        self.path@
    }

    pub fn new(path: NormalizedPath) -> (r: Self)
        ensures
            r.spec_path() == path@,
    {
        Self { path }
    }
}

/// A merge still in progress.
#[derive(Debug)]
pub struct MergePending {
    path: NormalizedPath,
}

impl MergePending {
    pub closed spec fn spec_path(&self) -> QPathView {
        self.path@
    }

    pub fn new(path: NormalizedPath) -> (r: Self)
        ensures
            r.spec_path() == path@,
    {
        Self { path }
    }
}

/// A merge that stopped on a conflict.
#[derive(Debug)]
pub struct MergeConflict {
    path: NormalizedPath,
}

impl MergeConflict {
    pub closed spec fn spec_path(&self) -> QPathView {
        self.path@
    }

    pub fn new(path: NormalizedPath) -> (r: Self)
        ensures
            r.spec_path() == path@,
    {
        Self { path }
    }
}

/// The kinds of merge outcome.
#[derive(Debug, Clone, Copy, PartialEq, Eq, Structural)]
pub enum MergeKind {
    Base,
    Success,
    UpToDate,
    Conflict,
    Merging,
    Aborted,
}

/// A merge outcome: its kind and the path merged.
pub struct MergeStatisticView {
    pub kind: MergeKind,
    pub path: QPathView,
}

/// The outcome of merging one path in a chain.
#[derive(Debug)]
pub enum MergeStatistic {
    Base(NormalizedPath),
    Success(MergeSuccess),
    UpToDate(NormalizedPath),
    Conflict(MergeConflict),
    Merging(MergePending),
    Aborted(NormalizedPath),
}

impl View for MergeStatistic {
    type V = MergeStatisticView;

    open spec fn view(&self) -> MergeStatisticView {
        match self {
            MergeStatistic::Base(p) => MergeStatisticView { kind: MergeKind::Base, path: p@ },
            MergeStatistic::Success(s) => MergeStatisticView {
                kind: MergeKind::Success,
                path: s.spec_path(),
            },
            MergeStatistic::UpToDate(p) => MergeStatisticView {
                kind: MergeKind::UpToDate,
                path: p@,
            },
            MergeStatistic::Conflict(c) => MergeStatisticView {
                kind: MergeKind::Conflict,
                path: c.spec_path(),
            },
            MergeStatistic::Merging(m) => MergeStatisticView {
                kind: MergeKind::Merging,
                path: m.spec_path(),
            },
            MergeStatistic::Aborted(p) => MergeStatisticView { kind: MergeKind::Aborted, path: p@ },
        }
    }
}

/// The label printed after the path of an outcome.
pub open spec fn spec_label(kind: MergeKind) -> Seq<char> {
    match kind {
        MergeKind::Base => seq!['B', 'a', 's', 'e'],
        MergeKind::Success => seq!['O', 'k'],
        MergeKind::UpToDate => seq!['U', 'p', ' ', 't', 'o', ' ', 'd', 'a', 't', 'e'],
        MergeKind::Conflict => seq!['C', 'o', 'n', 'f', 'l', 'i', 'c', 't'],
        MergeKind::Merging => seq!['M', 'e', 'r', 'g', 'i', 'n', 'g'],
        MergeKind::Aborted => seq!['A', 'b', 'o', 'r', 't', 'e', 'd'],
    }
}

/// Whether the path of an outcome of this kind is printed with its version.
pub open spec fn shows_head(kind: MergeKind) -> bool {
    kind == MergeKind::Success || kind == MergeKind::UpToDate || kind == MergeKind::Conflict
}

/// The text of an outcome: the path (with its version for successes,
/// up-to-date merges and conflicts), then the label in brackets.
pub open spec fn spec_statistic_text(v: MergeStatisticView) -> Seq<char> {
    spec_formatted(v.path, shows_head(v.kind)) + seq![' ', '('] + spec_label(v.kind) + seq![')']
}

/// The texts of the outcomes.
pub open spec fn statistic_texts(chain: Seq<MergeStatisticView>) -> Seq<Seq<char>> {
    chain.map_values(|s: MergeStatisticView| spec_statistic_text(s))
}

/// An outcome can be printed: where its version is shown, a commit hash has
/// at least eight ASCII characters.
pub open spec fn printable(v: MergeStatisticView) -> bool {
    shows_head(v.kind) ==> head_printable(v.path)
}

impl Clone for MergeStatistic {
    fn clone(&self) -> (r: Self)
        ensures
            r@ == self@,
    {
        match self {
            MergeStatistic::Base(p) => MergeStatistic::Base(p.clone()),
            MergeStatistic::Success(s) => MergeStatistic::Success(MergeSuccess::new(s.path.clone())),
            MergeStatistic::UpToDate(p) => MergeStatistic::UpToDate(p.clone()),
            MergeStatistic::Conflict(c) => MergeStatistic::Conflict(MergeConflict::new(c.path.clone())),
            MergeStatistic::Merging(m) => MergeStatistic::Merging(MergePending::new(m.path.clone())),
            MergeStatistic::Aborted(p) => MergeStatistic::Aborted(p.clone()),
        }
    }
}

impl MergeStatistic {
    /// The path merged.
    pub fn get_path(&self) -> (r: &NormalizedPath)
        ensures
            r@ == self@.path,
    {
        match self {
            MergeStatistic::Base(path) => path,
            MergeStatistic::Aborted(path) => path,
            MergeStatistic::UpToDate(path) => path,
            MergeStatistic::Success(success) => &success.path,
            MergeStatistic::Merging(pending) => &pending.path,
            MergeStatistic::Conflict(conflict) => &conflict.path,
        }
    }

    /// The kind of outcome.
    pub fn kind(&self) -> (r: MergeKind)
        ensures
            r == self@.kind,
    {
        match self {
            MergeStatistic::Base(_) => MergeKind::Base,
            MergeStatistic::Success(_) => MergeKind::Success,
            MergeStatistic::UpToDate(_) => MergeKind::UpToDate,
            MergeStatistic::Conflict(_) => MergeKind::Conflict,
            MergeStatistic::Merging(_) => MergeKind::Merging,
            MergeStatistic::Aborted(_) => MergeKind::Aborted,
        }
    }

    /// The outcome as text.
    pub fn to_string(&self) -> (r: String)
        requires
            printable(self@),
        ensures
            r@ == spec_statistic_text(self@),
    {
        let kind = self.kind();
        let show = match kind {
            MergeKind::Success => true,
            MergeKind::UpToDate => true,
            MergeKind::Conflict => true,
            _ => false,
        };
        let mut out = self.get_path().formatted(show);
        let open = " (";
        let close = ")";
        proof {
            reveal_strlit(" (");
            reveal_strlit(")");
        }
        out.append(open);
        out.append(label(kind));
        out.append(close);
        proof {
            assert(out@ =~= spec_statistic_text(self@));
        }
        out
    }

    /// Whether two outcomes are of the same kind on the same segments.
    pub fn same_as(&self, other: &MergeStatistic) -> (r: bool)
        ensures
            r == (self@.kind == other@.kind && self@.path.segments == other@.path.segments),
    {
        self.kind() == other.kind() && self.get_path().equals(other.get_path())
    }
}

/// The label of an outcome kind.
fn label(kind: MergeKind) -> (r: &'static str)
    ensures
        r@ == spec_label(kind),
{
    proof {
        reveal_strlit("Base");
        reveal_strlit("Ok");
        reveal_strlit("Up to date");
        reveal_strlit("Conflict");
        reveal_strlit("Merging");
        reveal_strlit("Aborted");
    }
    match kind {
        MergeKind::Base => "Base",
        MergeKind::Success => "Ok",
        MergeKind::UpToDate => "Up to date",
        MergeKind::Conflict => "Conflict",
        MergeKind::Merging => "Merging",
        MergeKind::Aborted => "Aborted",
    }
}

/// The views of a sequence of outcomes.
pub open spec fn statistic_views(s: Seq<MergeStatistic>) -> Seq<MergeStatisticView> {
    s.map_values(|x: MergeStatistic| x@)
}

/// The paths of the outcomes.
pub fn to_normalized_paths(statistics: &Vec<MergeStatistic>) -> (r: Vec<NormalizedPath>)
    ensures
        r@.len() == statistics@.len(),
        forall|i: int| 0 <= i < r@.len() ==> (#[trigger] r@[i])@ == statistics@[i]@.path,
{
    let mut out: Vec<NormalizedPath> = Vec::new();
    let mut i: usize = 0;
    while i < statistics.len()
        invariant
            i <= statistics@.len(),
            out@.len() == i,
            forall|k: int| 0 <= k < i ==> (#[trigger] out@[k])@ == statistics@[k]@.path,
        decreases statistics@.len() - i,
    {
        out.push(statistics[i].get_path().clone());
        i = i + 1;
    }
    out
}

/// How many outcomes of the chain are of kind `k`.
pub open spec fn count_kind(chain: Seq<MergeStatisticView>, k: MergeKind) -> nat
    decreases chain.len(),
{
    if chain.len() == 0 {
        0
    } else {
        count_kind(chain.drop_last(), k) + if chain.last().kind == k {
            1nat
        } else {
            0nat
        }
    }
}

/// A chain of merges onto a base, with counters of successes, up-to-date
/// merges and conflicts.
pub struct MergeChainView {
    pub chain: Seq<MergeStatisticView>,
    pub n_merged: nat,
    pub n_up_to_date: nat,
    pub n_conflict: nat,
}

/// The counter kept for outcomes of kind `k` (0 for kinds without one).
pub open spec fn counter(v: MergeChainView, k: MergeKind) -> nat {
    match k {
        MergeKind::Success => v.n_merged,
        MergeKind::UpToDate => v.n_up_to_date,
        MergeKind::Conflict => v.n_conflict,
        _ => 0,
    }
}

/// The counters with the one of kind `k` raised by one.
pub open spec fn counted_in(v: MergeChainView, chain: Seq<MergeStatisticView>, k: MergeKind) -> MergeChainView {
    MergeChainView {
        chain,
        n_merged: if k == MergeKind::Success { v.n_merged + 1 } else { v.n_merged },
        n_up_to_date: if k == MergeKind::UpToDate { v.n_up_to_date + 1 } else { v.n_up_to_date },
        n_conflict: if k == MergeKind::Conflict { v.n_conflict + 1 } else { v.n_conflict },
    }
}

/// The counters with the one of kind `k` lowered by one.
pub open spec fn uncounted_in(v: MergeChainView, chain: Seq<MergeStatisticView>, k: MergeKind) -> MergeChainView {
    MergeChainView {
        chain,
        n_merged: if k == MergeKind::Success { (v.n_merged - 1) as nat } else { v.n_merged },
        n_up_to_date: if k == MergeKind::UpToDate {
            (v.n_up_to_date - 1) as nat
        } else {
            v.n_up_to_date
        },
        n_conflict: if k == MergeKind::Conflict { (v.n_conflict - 1) as nat } else { v.n_conflict },
    }
}

/// Pushing an outcome: appended and counted.
pub open spec fn spec_chain_push(v: MergeChainView, s: MergeStatisticView) -> MergeChainView {
    counted_in(v, v.chain.push(s), s.kind)
}

/// Inserting an outcome at `index`: inserted and counted.
pub open spec fn spec_chain_insert(v: MergeChainView, index: int, s: MergeStatisticView) -> MergeChainView {
    counted_in(v, v.chain.insert(index, s), s.kind)
}

/// Removing the outcome at `index`: removed and uncounted.
pub open spec fn spec_chain_remove(v: MergeChainView, index: int) -> MergeChainView {
    uncounted_in(v, v.chain.remove(index), v.chain[index].kind)
}

/// The counters agree with the outcomes of the chain.
pub open spec fn counters_consistent(v: MergeChainView) -> bool {
    &&& v.n_merged == count_kind(v.chain, MergeKind::Success)
    &&& v.n_up_to_date == count_kind(v.chain, MergeKind::UpToDate)
    &&& v.n_conflict == count_kind(v.chain, MergeKind::Conflict)
}

/// Inserting an outcome adds one to the count of its kind.
pub proof fn lemma_count_insert(s: Seq<MergeStatisticView>, i: int, x: MergeStatisticView, k: MergeKind)
    requires
        0 <= i <= s.len(),
    ensures
        count_kind(s.insert(i, x), k) == count_kind(s, k) + if x.kind == k {
            1nat
        } else {
            0nat
        },
    decreases s.len(),
{
    if i == s.len() {
        assert(s.insert(i, x) =~= s.push(x));
        assert(s.push(x).drop_last() =~= s);
    } else {
        assert(s.insert(i, x).drop_last() =~= s.drop_last().insert(i, x));
        assert(s.insert(i, x).last() == s.last());
        lemma_count_insert(s.drop_last(), i, x, k);
    }
}

/// Removing an outcome takes one from the count of its kind.
pub proof fn lemma_count_remove(s: Seq<MergeStatisticView>, i: int, k: MergeKind)
    requires
        0 <= i < s.len(),
    ensures
        count_kind(s, k) == count_kind(s.remove(i), k) + if s[i].kind == k {
            1nat
        } else {
            0nat
        },
{
    assert(s.remove(i).insert(i, s[i]) =~= s);
    lemma_count_insert(s.remove(i), i, s[i], k);
}

/// Pushing keeps the counters in agreement with the chain.
pub proof fn law_chain_push_keeps_counters(v: MergeChainView, s: MergeStatisticView)
    requires
        counters_consistent(v),
    ensures
        counters_consistent(spec_chain_push(v, s)),
{
    assert(v.chain.push(s).drop_last() =~= v.chain);
}

/// Inserting keeps the counters in agreement with the chain.
pub proof fn law_chain_insert_keeps_counters(v: MergeChainView, index: int, s: MergeStatisticView)
    requires
        counters_consistent(v),
        0 <= index <= v.chain.len(),
    ensures
        counters_consistent(spec_chain_insert(v, index, s)),
{
    lemma_count_insert(v.chain, index, s, MergeKind::Success);
    lemma_count_insert(v.chain, index, s, MergeKind::UpToDate);
    lemma_count_insert(v.chain, index, s, MergeKind::Conflict);
}

/// Removing keeps the counters in agreement with the chain.
pub proof fn law_chain_remove_keeps_counters(v: MergeChainView, index: int)
    requires
        counters_consistent(v),
        0 <= index < v.chain.len(),
    ensures
        counters_consistent(spec_chain_remove(v, index)),
{
    lemma_count_remove(v.chain, index, MergeKind::Success);
    lemma_count_remove(v.chain, index, MergeKind::UpToDate);
    lemma_count_remove(v.chain, index, MergeKind::Conflict);
}

/// Removing what was just inserted at the same place gives back the chain
/// and its counters.
pub proof fn law_chain_insert_then_remove(v: MergeChainView, index: int, s: MergeStatisticView)
    requires
        0 <= index <= v.chain.len(),
    ensures
        spec_chain_remove(spec_chain_insert(v, index, s), index) == v,
        spec_chain_insert(v, index, s).chain[index] == s,
{
    assert(v.chain.insert(index, s).remove(index) =~= v.chain);
}

/// Putting back what was removed, at the same place, gives back the chain
/// and, where the counters agree with it, the counters.
pub proof fn law_chain_remove_then_insert(v: MergeChainView, index: int)
    requires
        counters_consistent(v),
        0 <= index < v.chain.len(),
    ensures
        spec_chain_insert(spec_chain_remove(v, index), index, v.chain[index]) == v,
{
    lemma_count_remove(v.chain, index, v.chain[index].kind);
    assert(v.chain.remove(index).insert(index, v.chain[index]) =~= v.chain);
}

/// One change to a chain of merge outcomes, as the chain's methods make it.
pub enum ChainStep {
    Push(MergeStatisticView),
    Insert(int, MergeStatisticView),
    Remove(int),
    Replace(int, MergeStatisticView),
}

/// The chain after one step; a step at a position the chain does not have
/// (which the methods refuse) changes nothing.
pub open spec fn chain_step(v: MergeChainView, step: ChainStep) -> MergeChainView {
    match step {
        ChainStep::Push(s) => spec_chain_push(v, s),
        ChainStep::Insert(i, s) => if 0 <= i <= v.chain.len() {
            spec_chain_insert(v, i, s)
        } else {
            v
        },
        ChainStep::Remove(i) => if 0 <= i < v.chain.len() {
            spec_chain_remove(v, i)
        } else {
            v
        },
        ChainStep::Replace(i, s) => if 0 <= i < v.chain.len() {
            spec_chain_insert(spec_chain_remove(v, i), i, s)
        } else {
            v
        },
    }
}

/// The chain that `new` gives, after each of `steps` in turn.
pub open spec fn chain_after(steps: Seq<ChainStep>) -> MergeChainView
    decreases steps.len(),
{
    if steps.len() == 0 {
        MergeChainView { chain: Seq::empty(), n_merged: 0, n_up_to_date: 0, n_conflict: 0 }
    } else {
        chain_step(chain_after(steps.drop_last()), steps.last())
    }
}

/// Every chain reached from a new one by pushing, inserting, removing and
/// replacing outcomes counts exactly the successes, up-to-date merges and
/// conflicts it holds.
pub proof fn law_counters_follow_chain(steps: Seq<ChainStep>)
    ensures
        counters_consistent(chain_after(steps)),
    decreases steps.len(),
{
    if steps.len() == 0 {
        let v = chain_after(steps);
        assert(v.chain =~= Seq::<MergeStatisticView>::empty());
    } else {
        law_counters_follow_chain(steps.drop_last());
        let v = chain_after(steps.drop_last());
        match steps.last() {
            ChainStep::Push(s) => {
                law_chain_push_keeps_counters(v, s);
            },
            ChainStep::Insert(i, s) => {
                if 0 <= i <= v.chain.len() {
                    law_chain_insert_keeps_counters(v, i, s);
                }
            },
            ChainStep::Remove(i) => {
                if 0 <= i < v.chain.len() {
                    law_chain_remove_keeps_counters(v, i);
                }
            },
            ChainStep::Replace(i, s) => {
                if 0 <= i < v.chain.len() {
                    law_chain_remove_keeps_counters(v, i);
                    law_chain_insert_keeps_counters(spec_chain_remove(v, i), i, s);
                }
            },
        }
    }
}

/// A chain of merge outcomes, the first being the base.
#[derive(Debug)]
pub struct MergeChainStatistic {
    chain: Vec<MergeStatistic>,
    n_merged: usize,
    n_up_to_date: usize,
    n_conflict: usize,
}

impl View for MergeChainStatistic {
    type V = MergeChainView;

    closed spec fn view(&self) -> MergeChainView {
        MergeChainView {
            chain: statistic_views(self.chain@),
            n_merged: self.n_merged as nat,
            n_up_to_date: self.n_up_to_date as nat,
            n_conflict: self.n_conflict as nat,
        }
    }
}

impl Clone for MergeChainStatistic {
    fn clone(&self) -> (r: Self)
        ensures
            r@ == self@,
    {
        let mut chain: Vec<MergeStatistic> = Vec::new();
        let mut i: usize = 0;
        while i < self.chain.len()
            invariant
                i <= self.chain@.len(),
                statistic_views(chain@) == statistic_views(self.chain@).subrange(0, i as int),
            decreases self.chain@.len() - i,
        {
            let ghost before = chain@;
            let s = self.chain[i].clone();
            chain.push(s);
            assert(statistic_views(chain@) =~= statistic_views(before).push(s@));
            assert(statistic_views(self.chain@).subrange(0, i + 1) =~= statistic_views(
                self.chain@,
            ).subrange(0, i as int).push(self.chain@[i as int]@));
            i = i + 1;
        }
        assert(statistic_views(self.chain@).subrange(0, i as int) =~= statistic_views(self.chain@));
        Self {
            chain,
            n_merged: self.n_merged,
            n_up_to_date: self.n_up_to_date,
            n_conflict: self.n_conflict,
        }
    }
}

impl MergeChainStatistic {
    pub fn new() -> (r: Self)
        ensures
            r@.chain.len() == 0,
            r@.n_merged == 0 && r@.n_up_to_date == 0 && r@.n_conflict == 0,
            counters_consistent(r@),
    {
        let r = Self { chain: Vec::new(), n_merged: 0, n_up_to_date: 0, n_conflict: 0 };
        assert(r@.chain =~= Seq::<MergeStatisticView>::empty());
        r
    }

    fn add_to_internal_counters(&mut self, stat: &MergeStatistic)
        requires
            counter(old(self)@, stat@.kind) < usize::MAX,
        ensures
            final(self)@ == counted_in(old(self)@, old(self)@.chain, stat@.kind),
    {
        match stat {
            MergeStatistic::Success(_) => self.n_merged = self.n_merged + 1,
            MergeStatistic::UpToDate(_) => self.n_up_to_date = self.n_up_to_date + 1,
            MergeStatistic::Conflict(_) => self.n_conflict = self.n_conflict + 1,
            _ => {},
        }
    }

    fn subtract_from_internal_counters(&mut self, stat: &MergeStatistic)
        requires
            counter(old(self)@, stat@.kind) > 0 || !(stat@.kind == MergeKind::Success
                || stat@.kind == MergeKind::UpToDate || stat@.kind == MergeKind::Conflict),
        ensures
            final(self)@ == uncounted_in(old(self)@, old(self)@.chain, stat@.kind),
    {
        match stat {
            MergeStatistic::Success(_) => self.n_merged = self.n_merged - 1,
            MergeStatistic::UpToDate(_) => self.n_up_to_date = self.n_up_to_date - 1,
            MergeStatistic::Conflict(_) => self.n_conflict = self.n_conflict - 1,
            _ => {},
        }
    }

    /// Appends an outcome and counts it; the first outcome must be a base.
    pub fn push(&mut self, stat: MergeStatistic)
        requires
            old(self)@.chain.len() == 0 ==> stat@.kind == MergeKind::Base,
            counter(old(self)@, stat@.kind) < usize::MAX,
        ensures
            final(self)@ == spec_chain_push(old(self)@, stat@),
            counters_consistent(old(self)@) ==> counters_consistent(final(self)@),
    {
        proof {
            if counters_consistent(old(self)@) {
                law_chain_push_keeps_counters(old(self)@, stat@);
            }
        }
        self.add_to_internal_counters(&stat);
        let ghost before = self.chain@;
        let ghost sv = stat@;
        self.chain.push(stat);
        assert(statistic_views(self.chain@) =~= statistic_views(before).push(sv));
    }

    /// Appends outcomes without counting them.
    pub fn fill(&mut self, stats: Vec<MergeStatistic>)
        ensures
            final(self)@ == (MergeChainView { chain: old(self)@.chain + statistic_views(stats@), ..old(self)@ }),
    {
        let mut i: usize = 0;
        let ghost start = self@;
        while i < stats.len()
            invariant
                i <= stats@.len(),
                self@ == (MergeChainView {
                    chain: start.chain + statistic_views(stats@).subrange(0, i as int),
                    ..start
                }),
            decreases stats@.len() - i,
        {
            let ghost before = self.chain@;
            let s = stats[i].clone();
            self.chain.push(s);
            assert(statistic_views(self.chain@) =~= statistic_views(before).push(s@));
            assert(start.chain + statistic_views(stats@).subrange(0, i + 1) =~= (start.chain
                + statistic_views(stats@).subrange(0, i as int)).push(stats@[i as int]@));
            i = i + 1;
        }
        assert(statistic_views(stats@).subrange(0, i as int) =~= statistic_views(stats@));
    }

    /// Inserts an outcome at `index` and counts it.
    pub fn insert(&mut self, index: usize, stat: MergeStatistic)
        requires
            index <= old(self)@.chain.len(),
            counter(old(self)@, stat@.kind) < usize::MAX,
        ensures
            final(self)@ == spec_chain_insert(old(self)@, index as int, stat@),
            counters_consistent(old(self)@) ==> counters_consistent(final(self)@),
    {
        proof {
            if counters_consistent(old(self)@) {
                law_chain_insert_keeps_counters(old(self)@, index as int, stat@);
            }
        }
        self.add_to_internal_counters(&stat);
        let ghost before = self.chain@;
        let ghost sv = stat@;
        self.chain.insert(index, stat);
        assert(statistic_views(self.chain@) =~= statistic_views(before).insert(index as int, sv));
    }

    /// Removes the outcome at `index`, uncounts it and returns it.
    pub fn remove(&mut self, index: usize) -> (r: MergeStatistic)
        requires
            index < old(self)@.chain.len(),
            counter(old(self)@, old(self)@.chain[index as int].kind) > 0 || !(
            old(self)@.chain[index as int].kind == MergeKind::Success || old(self)@.chain[index as int].kind
                == MergeKind::UpToDate || old(self)@.chain[index as int].kind == MergeKind::Conflict),
        ensures
            r@ == old(self)@.chain[index as int],
            final(self)@ == spec_chain_remove(old(self)@, index as int),
            counters_consistent(old(self)@) ==> counters_consistent(final(self)@),
    {
        proof {
            if counters_consistent(old(self)@) {
                law_chain_remove_keeps_counters(old(self)@, index as int);
            }
        }
        let ghost before = self.chain@;
        let statistic = self.chain.remove(index);
        assert(statistic_views(self.chain@) =~= statistic_views(before).remove(index as int));
        self.subtract_from_internal_counters(&statistic);
        statistic
    }

    /// The outcome at `index`.
    pub fn get(&self, index: usize) -> (r: Option<&MergeStatistic>)
        ensures
            index < self@.chain.len() ==> (r matches Some(s) && s@ == self@.chain[index as int]),
            index >= self@.chain.len() ==> r is None,
    {
        if index < self.chain.len() {
            Some(&self.chain[index])
        } else {
            None
        }
    }

    /// Replaces the outcome at `index`, adjusting the counters.
    pub fn replace(&mut self, index: usize, stat: MergeStatistic)
        requires
            index < old(self)@.chain.len(),
            counter(old(self)@, old(self)@.chain[index as int].kind) > 0 || !(
            old(self)@.chain[index as int].kind == MergeKind::Success || old(self)@.chain[index as int].kind
                == MergeKind::UpToDate || old(self)@.chain[index as int].kind == MergeKind::Conflict),
            counter(spec_chain_remove(old(self)@, index as int), stat@.kind) < usize::MAX,
        ensures
            final(self)@ == spec_chain_insert(
                spec_chain_remove(old(self)@, index as int),
                index as int,
                stat@,
            ),
            counters_consistent(old(self)@) ==> counters_consistent(final(self)@),
    {
        self.remove(index);
        self.insert(index, stat);
    }

    pub fn get_chain(&self) -> (r: &Vec<MergeStatistic>)
        ensures
            statistic_views(r@) == self@.chain,
    {
        &self.chain
    }

    /// The outcomes after the base.
    pub fn iter_except_base(&self) -> (r: Vec<MergeStatistic>)
        ensures
            statistic_views(r@) == if self@.chain.len() == 0 {
                Seq::<MergeStatisticView>::empty()
            } else {
                self@.chain.drop_first()
            },
    {
        let mut out: Vec<MergeStatistic> = Vec::new();
        let mut i: usize = 1;
        if self.chain.len() == 0 {
            assert(statistic_views(out@) =~= Seq::<MergeStatisticView>::empty());
            return out;
        }
        while i < self.chain.len()
            invariant
                1 <= i <= self.chain@.len(),
                statistic_views(out@) == statistic_views(self.chain@).subrange(1, i as int),
            decreases self.chain@.len() - i,
        {
            let ghost before = out@;
            let s = self.chain[i].clone();
            out.push(s);
            assert(statistic_views(out@) =~= statistic_views(before).push(s@));
            assert(statistic_views(self.chain@).subrange(1, i + 1) =~= statistic_views(
                self.chain@,
            ).subrange(1, i as int).push(self.chain@[i as int]@));
            i = i + 1;
        }
        assert(statistic_views(self.chain@).subrange(1, i as int) =~= self@.chain.drop_first());
        out
    }

    pub fn get_n_merged(&self) -> (r: usize)
        ensures
            r == self@.n_merged,
    {
        self.n_merged
    }

    pub fn get_n_up_to_date(&self) -> (r: usize)
        ensures
            r == self@.n_up_to_date,
    {
        self.n_up_to_date
    }

    /// Whether every merge after the base was up to date.
    pub fn all_up_to_date(&self) -> (r: bool)
        ensures
            r == (self@.chain.len() <= 1 || self@.n_up_to_date == self@.chain.len() - 1),
    {
        if self.chain.len() == 0 || self.chain.len() == 1 {
            true
        } else {
            self.n_up_to_date == self.chain.len() - 1
        }
    }

    pub fn len(&self) -> (r: usize)
        ensures
            r == self@.chain.len(),
    {
        self.chain.len()
    }

    pub fn is_empty(&self) -> (r: bool)
        ensures
            r == (self@.chain.len() == 0),
    {
        self.chain.len() == 0
    }

    pub fn get_n_conflict(&self) -> (r: usize)
        ensures
            r == self@.n_conflict,
    {
        self.n_conflict
    }

    pub fn contains_conflicts(&self) -> (r: bool)
        ensures
            r == (self@.n_conflict > 0),
    {
        self.n_conflict > 0
    }

    /// The texts of the outcomes, joined by ` <- `.
    pub fn display_as_path(&self) -> (r: String)
        requires
            forall|i: int| 0 <= i < self@.chain.len() ==> printable(#[trigger] self@.chain[i]),
        ensures
            r@ == join(
                statistic_texts(self@.chain),
                seq![' ', '<', '-', ' '],
            ),
    {
        let texts = self.display_texts();
        let sep = " <- ";
        proof {
            reveal_strlit(" <- ");
            assert(sep@ =~= seq![' ', '<', '-', ' ']);
        }
        crate::text::join_str(&texts, sep)
    }

    /// The texts of the outcomes.
    fn display_texts(&self) -> (r: Vec<String>)
        requires
            forall|i: int| 0 <= i < self@.chain.len() ==> printable(#[trigger] self@.chain[i]),
        ensures
            crate::text::views(r@) == statistic_texts(self@.chain),
    {
        let mut out: Vec<String> = Vec::new();
        let mut i: usize = 0;
        while i < self.chain.len()
            invariant
                i <= self.chain@.len(),
                forall|k: int| 0 <= k < self@.chain.len() ==> printable(#[trigger] self@.chain[k]),
                crate::text::views(out@) == statistic_texts(self@.chain).subrange(0, i as int),
            decreases self.chain@.len() - i,
        {
            assert(self@.chain[i as int] == self.chain@[i as int]@);
            let ghost before = out@;
            let t = self.chain[i].to_string();
            out.push(t);
            assert(crate::text::views(out@) =~= crate::text::views(before).push(t@));
            i = i + 1;
        }
        out
    }

    /// The texts of the outcomes, each after the base preceded by ` <- `.
    pub fn display_as_list(&self) -> (r: Vec<String>)
        requires
            forall|i: int| 0 <= i < self@.chain.len() ==> printable(#[trigger] self@.chain[i]),
        ensures
            r@.len() == self@.chain.len(),
            forall|i: int|
                0 <= i < r@.len() ==> (#[trigger] r@[i])@ == if self@.chain[i].kind == MergeKind::Base {
                    spec_statistic_text(self@.chain[i])
                } else {
                    seq![' ', '<', '-', ' '] + spec_statistic_text(self@.chain[i])
                },
    {
        let mut out: Vec<String> = Vec::new();
        let mut i: usize = 0;
        let arrow = " <- ";
        proof {
            reveal_strlit(" <- ");
        }
        while i < self.chain.len()
            invariant
                i <= self.chain@.len(),
                arrow@ == seq![' ', '<', '-', ' '],
                forall|k: int| 0 <= k < self@.chain.len() ==> printable(#[trigger] self@.chain[k]),
                out@.len() == i,
                forall|k: int|
                    0 <= k < i ==> (#[trigger] out@[k])@ == if self@.chain[k].kind == MergeKind::Base {
                        spec_statistic_text(self@.chain[k])
                    } else {
                        seq![' ', '<', '-', ' '] + spec_statistic_text(self@.chain[k])
                    },
            decreases self.chain@.len() - i,
        {
            assert(self@.chain[i as int] == self.chain@[i as int]@);
            let text = self.chain[i].to_string();
            let line = match self.chain[i].kind() {
                MergeKind::Base => text,
                _ => {
                    let mut l = String::from_str(arrow);
                    l.append(text.as_str());
                    l
                },
            };
            out.push(line);
            i = i + 1;
        }
        out
    }
}

/// The sum of the success counters of the chains.
pub open spec fn sum_merged(s: Seq<MergeChainView>) -> nat
    decreases s.len(),
{
    if s.len() == 0 {
        0
    } else {
        sum_merged(s.drop_last()) + s.last().n_merged
    }
}

/// The sum of the conflict counters of the chains.
pub open spec fn sum_conflicts(s: Seq<MergeChainView>) -> nat
    decreases s.len(),
{
    if s.len() == 0 {
        0
    } else {
        sum_conflicts(s.drop_last()) + s.last().n_conflict
    }
}

/// Chains of merge outcomes with running totals.
pub struct MergeChainStatisticsView {
    pub statistics: Seq<MergeChainView>,
    pub total_successes: nat,
    pub total_conflicts: nat,
}

/// The views of chains.
pub open spec fn chain_views(s: Seq<MergeChainStatistic>) -> Seq<MergeChainView> {
    s.map_values(|c: MergeChainStatistic| c@)
}

/// The totals agree with the chains.
pub open spec fn totals_consistent(v: MergeChainStatisticsView) -> bool {
    v.total_successes == sum_merged(v.statistics) && v.total_conflicts == sum_conflicts(v.statistics)
}

/// Pushing a chain: appended, its counters added to the totals.
pub open spec fn spec_chains_push(v: MergeChainStatisticsView, c: MergeChainView) -> MergeChainStatisticsView {
    MergeChainStatisticsView {
        statistics: v.statistics.push(c),
        total_successes: v.total_successes + c.n_merged,
        total_conflicts: v.total_conflicts + c.n_conflict,
    }
}

/// Pushing keeps the totals equal to the sums over the chains.
pub proof fn law_chains_push_keeps_totals(v: MergeChainStatisticsView, c: MergeChainView)
    requires
        totals_consistent(v),
    ensures
        totals_consistent(spec_chains_push(v, c)),
{
    assert(v.statistics.push(c).drop_last() =~= v.statistics);
}

/// The chains that `new` gives after pushing each of `chains` in turn.
pub open spec fn chains_after(chains: Seq<MergeChainView>) -> MergeChainStatisticsView
    decreases chains.len(),
{
    if chains.len() == 0 {
        MergeChainStatisticsView { statistics: Seq::empty(), total_successes: 0, total_conflicts: 0 }
    } else {
        spec_chains_push(chains_after(chains.drop_last()), chains.last())
    }
}

/// Pushing chains onto new statistics keeps them in order, and the totals
/// are the sums of the chains' counters.
pub proof fn law_chains_totals_are_sums(chains: Seq<MergeChainView>)
    ensures
        chains_after(chains).statistics == chains,
        totals_consistent(chains_after(chains)),
    decreases chains.len(),
{
    if chains.len() == 0 {
        assert(chains_after(chains).statistics =~= chains);
    } else {
        law_chains_totals_are_sums(chains.drop_last());
        law_chains_push_keeps_totals(chains_after(chains.drop_last()), chains.last());
        assert(chains.drop_last().push(chains.last()) =~= chains);
    }
}

/// Many chains of merge outcomes with totals of successes and conflicts.
pub struct MergeChainStatistics {
    statistics: Vec<MergeChainStatistic>,
    total_successes: usize,
    total_conflicts: usize,
}

impl View for MergeChainStatistics {
    type V = MergeChainStatisticsView;

    closed spec fn view(&self) -> MergeChainStatisticsView {
        MergeChainStatisticsView {
            statistics: chain_views(self.statistics@),
            total_successes: self.total_successes as nat,
            total_conflicts: self.total_conflicts as nat,
        }
    }
}

impl MergeChainStatistics {
    pub fn new() -> (r: Self)
        ensures
            r@.statistics.len() == 0,
            r@.total_successes == 0 && r@.total_conflicts == 0,
            totals_consistent(r@),
    {
        let r = Self { statistics: Vec::new(), total_successes: 0, total_conflicts: 0 };
        assert(r@.statistics =~= Seq::<MergeChainView>::empty());
        r
    }

    /// Pushes each of the chains in turn.
    pub fn fill_from_iter(&mut self, statistics: Vec<MergeChainStatistic>)
        requires
            old(self)@.total_successes + sum_merged(chain_views(statistics@)) <= usize::MAX,
            old(self)@.total_conflicts + sum_conflicts(chain_views(statistics@)) <= usize::MAX,
        ensures
            final(self)@.statistics == old(self)@.statistics + chain_views(statistics@),
            final(self)@.total_successes == old(self)@.total_successes + sum_merged(chain_views(statistics@)),
            final(self)@.total_conflicts == old(self)@.total_conflicts + sum_conflicts(chain_views(statistics@)),
            totals_consistent(old(self)@) ==> totals_consistent(final(self)@),
    {
        let ghost start = self@;
        let mut i: usize = 0;
        proof {
            lemma_sums_prefix(chain_views(statistics@), 0);
        }
        while i < statistics.len()
            invariant
                i <= statistics@.len(),
                start.total_successes + sum_merged(chain_views(statistics@)) <= usize::MAX,
                start.total_conflicts + sum_conflicts(chain_views(statistics@)) <= usize::MAX,
                totals_consistent(start) ==> totals_consistent(self@),
                self@.statistics == start.statistics + chain_views(statistics@).subrange(0, i as int),
                self@.total_successes == start.total_successes + sum_merged(
                    chain_views(statistics@).subrange(0, i as int),
                ),
                self@.total_conflicts == start.total_conflicts + sum_conflicts(
                    chain_views(statistics@).subrange(0, i as int),
                ),
            decreases statistics@.len() - i,
        {
            let c = statistics[i].clone();
            proof {
                let cs = chain_views(statistics@);
                assert(cs.subrange(0, i + 1).drop_last() =~= cs.subrange(0, i as int));
                assert(cs.subrange(0, i + 1).last() == c@);
                lemma_sums_prefix(cs, i + 1);
            }
            self.push(c);
            assert(start.statistics + chain_views(statistics@).subrange(0, i + 1) =~= (start.statistics
                + chain_views(statistics@).subrange(0, i as int)).push(statistics@[i as int]@));
            i = i + 1;
        }
        assert(chain_views(statistics@).subrange(0, i as int) =~= chain_views(statistics@));
    }

    /// Appends a chain and adds its counters to the totals.
    pub fn push(&mut self, statistic: MergeChainStatistic)
        requires
            old(self)@.total_successes + statistic@.n_merged <= usize::MAX,
            old(self)@.total_conflicts + statistic@.n_conflict <= usize::MAX,
        ensures
            final(self)@ == spec_chains_push(old(self)@, statistic@),
            totals_consistent(old(self)@) ==> totals_consistent(final(self)@),
    {
        proof {
            if totals_consistent(old(self)@) {
                law_chains_push_keeps_totals(old(self)@, statistic@);
            }
        }
        self.total_successes = self.total_successes + statistic.n_merged;
        self.total_conflicts = self.total_conflicts + statistic.n_conflict;
        let ghost before = self.statistics@;
        let ghost cv = statistic@;
        self.statistics.push(statistic);
        assert(chain_views(self.statistics@) =~= chain_views(before).push(cv));
    }

    pub fn iter_all(&self) -> (r: &Vec<MergeChainStatistic>)
        ensures
            chain_views(r@) == self@.statistics,
    {
        &self.statistics
    }

    /// The chains that contain a conflict, in their order.
    pub fn iter_conflicts(&self) -> (r: Vec<MergeChainStatistic>)
        ensures
            chain_views(r@) == self@.statistics.filter(|c: MergeChainView| c.n_conflict > 0),
    {
        let mut out: Vec<MergeChainStatistic> = Vec::new();
        let mut i: usize = 0;
        while i < self.statistics.len()
            invariant
                i <= self.statistics@.len(),
                chain_views(out@) == self@.statistics.subrange(0, i as int).filter(
                    |c: MergeChainView| c.n_conflict > 0,
                ),
            decreases self.statistics@.len() - i,
        {
            let ghost before = out@;
            assert(self@.statistics.subrange(0, i + 1).drop_last() =~= self@.statistics.subrange(
                0,
                i as int,
            ));
            assert(self@.statistics.subrange(0, i + 1).last() == self.statistics@[i as int]@);
            if self.statistics[i].contains_conflicts() {
                let c = self.statistics[i].clone();
                out.push(c);
                assert(chain_views(out@) =~= chain_views(before).push(c@));
            }
            proof {
                reveal(Seq::filter);
            }
            i = i + 1;
        }
        assert(self@.statistics.subrange(0, i as int) =~= self@.statistics);
        out
    }

    pub fn n_ok(&self) -> (r: usize)
        ensures
            r == self@.total_successes,
    {
        self.total_successes
    }

    pub fn n_conflicts(&self) -> (r: usize)
        ensures
            r == self@.total_conflicts,
    {
        self.total_conflicts
    }

    /// The chains of `statistics`, with their totals.
    pub fn from_iter(statistics: Vec<MergeChainStatistic>) -> (r: Self)
        requires
            sum_merged(chain_views(statistics@)) <= usize::MAX,
            sum_conflicts(chain_views(statistics@)) <= usize::MAX,
        ensures
            r@.statistics == chain_views(statistics@),
            totals_consistent(r@),
    {
        let mut new = Self::new();
        new.fill_from_iter(statistics);
        assert(Seq::<MergeChainView>::empty() + chain_views(statistics@) =~= chain_views(statistics@));
        new
    }
}

/// The sums over a prefix are at most the sums over the whole.
pub proof fn lemma_sums_prefix(s: Seq<MergeChainView>, i: int)
    requires
        0 <= i <= s.len(),
    ensures
        sum_merged(s.subrange(0, i)) <= sum_merged(s),
        sum_conflicts(s.subrange(0, i)) <= sum_conflicts(s),
    decreases s.len() - i,
{
    if i < s.len() {
        lemma_sums_prefix(s, i + 1);
        assert(s.subrange(0, i + 1).drop_last() =~= s.subrange(0, i));
    } else {
        assert(s.subrange(0, i) =~= s);
    }
}

/// The most outcomes whose weights (each between -10 and 1) a sum in an
/// `i32` always holds: ten times it stays below `i32::MAX`.
pub const MAX_WEIGHED: usize = 214_748_364;

/// How outcomes are weighed.
#[derive(Debug, Clone, Copy, PartialEq, Eq, Structural)]
pub enum MergeStatisticWeight {
    Simple,
}

/// The weight of an outcome: up to date 1, conflict -1, aborted -10,
/// anything else 0.
pub open spec fn spec_weight(kind: MergeKind) -> int {
    match kind {
        MergeKind::UpToDate => 1,
        MergeKind::Conflict => -1,
        MergeKind::Aborted => -10,
        _ => 0,
    }
}

impl MergeStatisticWeight {
    pub fn get_weight(&self, statistic: &MergeStatistic) -> (r: i32)
        ensures
            r == spec_weight(statistic@.kind),
    {
        match self {
            MergeStatisticWeight::Simple => match statistic {
                MergeStatistic::Base(_) => 0,
                MergeStatistic::UpToDate(_) => 1,
                MergeStatistic::Success(_) => 0,
                MergeStatistic::Conflict(_) => -1,
                MergeStatistic::Merging(_) => 0,
                MergeStatistic::Aborted(_) => -10,
            },
        }
    }
}

/// The sum of the weights of the outcomes.
pub open spec fn total_weight(s: Seq<MergeStatisticView>) -> int
    decreases s.len(),
{
    if s.len() == 0 {
        0
    } else {
        total_weight(s.drop_last()) + spec_weight(s.last().kind)
    }
}

/// The first outcome of least weight.
pub open spec fn lowest(s: Seq<MergeStatisticView>) -> MergeStatisticView
    decreases s.len(),
{
    if s.len() <= 1 {
        s[0]
    } else if spec_weight(s.last().kind) < spec_weight(lowest(s.drop_last()).kind) {
        s.last()
    } else {
        lowest(s.drop_last())
    }
}

/// The total weight lies between -10 and 1 times the length.
pub proof fn lemma_total_weight_bounds(s: Seq<MergeStatisticView>)
    ensures
        -10 * s.len() <= total_weight(s) <= s.len(),
    decreases s.len(),
{
    if s.len() > 0 {
        lemma_total_weight_bounds(s.drop_last());
    }
}

/// The lowest outcome is one of them, and none weighs less.
pub proof fn lemma_lowest(s: Seq<MergeStatisticView>)
    requires
        s.len() > 0,
    ensures
        s.contains(lowest(s)),
        forall|i: int| 0 <= i < s.len() ==> spec_weight(lowest(s).kind) <= spec_weight(#[trigger] s[i].kind),
    decreases s.len(),
{
    if s.len() > 1 {
        lemma_lowest(s.drop_last());
        let l = lowest(s.drop_last());
        let j = choose|j: int| 0 <= j < s.drop_last().len() && s.drop_last()[j] == l;
        assert(s[j] == l);
        assert(s[s.len() - 1] == s.last());
        assert forall|i: int| 0 <= i < s.len() implies spec_weight(lowest(s).kind) <= spec_weight(
            #[trigger] s[i].kind,
        ) by {
            if i < s.len() - 1 {
                assert(s[i] == s.drop_last()[i]);
            }
        }
    } else {
        assert(s[0] == s[0]);
    }
}

/// Votes: outcomes weighed with a weighting.
pub struct MergeStatisticsView {
    pub statistics: Seq<MergeStatisticView>,
    pub weights: MergeStatisticWeight,
}

/// Outcomes weighed together.
#[derive(Debug)]
pub struct MergeStatistics {
    statistics: Vec<MergeStatistic>,
    weights: MergeStatisticWeight,
}

impl View for MergeStatistics {
    type V = MergeStatisticsView;

    closed spec fn view(&self) -> MergeStatisticsView {
        MergeStatisticsView { statistics: statistic_views(self.statistics@), weights: self.weights }
    }
}

impl Clone for MergeStatistics {
    fn clone(&self) -> (r: Self)
        ensures
            r@ == self@,
    {
        let mut statistics: Vec<MergeStatistic> = Vec::new();
        let mut i: usize = 0;
        while i < self.statistics.len()
            invariant
                i <= self.statistics@.len(),
                statistic_views(statistics@) == statistic_views(self.statistics@).subrange(0, i as int),
            decreases self.statistics@.len() - i,
        {
            let ghost before = statistics@;
            let s = self.statistics[i].clone();
            statistics.push(s);
            assert(statistic_views(statistics@) =~= statistic_views(before).push(s@));
            assert(statistic_views(self.statistics@).subrange(0, i + 1) =~= statistic_views(
                self.statistics@,
            ).subrange(0, i as int).push(self.statistics@[i as int]@));
            i = i + 1;
        }
        assert(statistic_views(self.statistics@).subrange(0, i as int) =~= statistic_views(
            self.statistics@,
        ));
        Self { statistics, weights: self.weights }
    }
}

impl MergeStatistics {
    pub fn new(weights: MergeStatisticWeight) -> (r: Self)
        ensures
            r@.statistics.len() == 0,
            r@.weights == weights,
    {
        let r = Self { statistics: Vec::new(), weights };
        assert(r@.statistics =~= Seq::<MergeStatisticView>::empty());
        r
    }

    pub fn push(&mut self, statistic: MergeStatistic)
        ensures
            final(self)@.statistics == old(self)@.statistics.push(statistic@),
            final(self)@.weights == old(self)@.weights,
    {
        let ghost before = self.statistics@;
        let ghost sv = statistic@;
        self.statistics.push(statistic);
        assert(statistic_views(self.statistics@) =~= statistic_views(before).push(sv));
    }

    pub fn len(&self) -> (r: usize)
        ensures
            r == self@.statistics.len(),
    {
        self.statistics.len()
    }

    /// The sum of the weights.
    pub fn accumulate_weights(&self) -> (r: i32)
        requires
            self@.statistics.len() <= MAX_WEIGHED,
        ensures
            r == total_weight(self@.statistics),
    {
        let mut sum: i32 = 0;
        let mut i: usize = 0;
        while i < self.statistics.len()
            invariant
                i <= self.statistics@.len(),
                self.statistics@.len() <= MAX_WEIGHED,
                sum == total_weight(statistic_views(self.statistics@).subrange(0, i as int)),
            decreases self.statistics@.len() - i,
        {
            let ghost pre = statistic_views(self.statistics@).subrange(0, i as int);
            proof {
                lemma_total_weight_bounds(pre);
                assert(statistic_views(self.statistics@).subrange(0, i + 1).drop_last() =~= pre);
                assert(statistic_views(self.statistics@).subrange(0, i + 1).last()
                    == self.statistics@[i as int]@);
            }
            sum = sum + self.weights.get_weight(&self.statistics[i]);
            i = i + 1;
        }
        assert(statistic_views(self.statistics@).subrange(0, i as int) =~= statistic_views(
            self.statistics@,
        ));
        sum
    }

    /// The first outcome of least weight.
    pub fn get_lowest(&self) -> (r: &MergeStatistic)
        requires
            self@.statistics.len() > 0,
        ensures
            r@ == lowest(self@.statistics),
    {
        let mut best: usize = 0;
        let mut i: usize = 1;
        assert(statistic_views(self.statistics@).subrange(0, 1) =~= seq![self.statistics@[0]@]);
        while i < self.statistics.len()
            invariant
                1 <= i <= self.statistics@.len(),
                best < i,
                self.statistics@[best as int]@ == lowest(
                    statistic_views(self.statistics@).subrange(0, i as int),
                ),
            decreases self.statistics@.len() - i,
        {
            let ghost pre = statistic_views(self.statistics@).subrange(0, i as int);
            assert(statistic_views(self.statistics@).subrange(0, i + 1).drop_last() =~= pre);
            assert(statistic_views(self.statistics@).subrange(0, i + 1).last()
                == self.statistics@[i as int]@);
            if self.weights.get_weight(&self.statistics[i]) < self.weights.get_weight(
                &self.statistics[best],
            ) {
                best = i;
            }
            i = i + 1;
        }
        assert(statistic_views(self.statistics@).subrange(0, i as int) =~= statistic_views(
            self.statistics@,
        ));
        &self.statistics[best]
    }

    /// Whether both hold the same outcomes (same kinds on the same segments)
    /// weighed the same way.
    pub fn same_as(&self, other: &MergeStatistics) -> (r: bool)
        ensures
            r == same_votes(self@, other@),
    {
        if self.statistics.len() != other.statistics.len() || self.weights != other.weights {
            return false;
        }
        let mut i: usize = 0;
        while i < self.statistics.len()
            invariant
                i <= self.statistics@.len(),
                self.statistics@.len() == other.statistics@.len(),
                forall|k: int|
                    0 <= k < i ==> same_statistic(
                        #[trigger] self@.statistics[k],
                        other@.statistics[k],
                    ),
            decreases self.statistics@.len() - i,
        {
            if !self.statistics[i].same_as(&other.statistics[i]) {
                assert(!same_statistic(self@.statistics[i as int], other@.statistics[i as int]));
                return false;
            }
            i = i + 1;
        }
        true
    }
}

/// Two outcomes are the same: same kind, same segments.
pub open spec fn same_statistic(a: MergeStatisticView, b: MergeStatisticView) -> bool {
    a.kind == b.kind && a.path.segments == b.path.segments
}

/// Two votes are the same: same outcomes pairwise, same weighting.
pub open spec fn same_votes(a: MergeStatisticsView, b: MergeStatisticsView) -> bool {
    &&& a.statistics.len() == b.statistics.len()
    &&& a.weights == b.weights
    &&& forall|k: int| 0 <= k < a.statistics.len() ==> same_statistic(#[trigger] a.statistics[k], b.statistics[k])
}

/// The map of an association list: later pairs override earlier ones.
pub open spec fn assoc_map<V>(s: Seq<(QPathView, V)>) -> Map<QPathView, V>
    decreases s.len(),
{
    if s.len() == 0 {
        Map::empty()
    } else {
        assoc_map(s.drop_last()).insert(s.last().0, s.last().1)
    }
}

/// No key occurs twice.
pub open spec fn distinct_keys<V>(s: Seq<(QPathView, V)>) -> bool {
    forall|i: int, j: int| 0 <= i < j < s.len() ==> (#[trigger] s[i]).0 != (#[trigger] s[j]).0
}

/// The keys of the map are those of the list.
pub proof fn lemma_assoc_dom<V>(s: Seq<(QPathView, V)>, k: QPathView)
    ensures
        assoc_map(s).contains_key(k) <==> exists|i: int| 0 <= i < s.len() && (#[trigger] s[i]).0 == k,
    decreases s.len(),
{
    if s.len() > 0 {
        lemma_assoc_dom(s.drop_last(), k);
        if assoc_map(s).contains_key(k) {
            if k == s.last().0 {
                assert(s[s.len() - 1].0 == k);
            } else {
                let i = choose|i: int| 0 <= i < s.drop_last().len() && (#[trigger] s.drop_last()[i]).0 == k;
                assert(s[i] == s.drop_last()[i]);
            }
        }
        if exists|i: int| 0 <= i < s.len() && (#[trigger] s[i]).0 == k {
            let i = choose|i: int| 0 <= i < s.len() && (#[trigger] s[i]).0 == k;
            if i < s.len() - 1 {
                assert(s.drop_last()[i] == s[i]);
            }
        }
    }
}

/// With distinct keys, each key maps to its value.
pub proof fn lemma_assoc_get<V>(s: Seq<(QPathView, V)>, i: int)
    requires
        distinct_keys(s),
        0 <= i < s.len(),
    ensures
        assoc_map(s).contains_key(s[i].0),
        assoc_map(s)[s[i].0] == s[i].1,
    decreases s.len(),
{
    if i < s.len() - 1 {
        assert(s.drop_last()[i] == s[i]);
        assert forall|a: int, b: int| 0 <= a < b < s.drop_last().len() implies (
        #[trigger] s.drop_last()[a]).0 != (#[trigger] s.drop_last()[b]).0 by {
            assert(s.drop_last()[a] == s[a] && s.drop_last()[b] == s[b]);
        }
        lemma_assoc_get(s.drop_last(), i);
        assert(s[i].0 != s[s.len() - 1].0);
    }
}

/// Changing the value at a key of a list with distinct keys changes the map
/// at that key.
pub proof fn lemma_assoc_update<V>(s: Seq<(QPathView, V)>, i: int, v: V)
    requires
        distinct_keys(s),
        0 <= i < s.len(),
    ensures
        assoc_map(s.update(i, (s[i].0, v))) == assoc_map(s).insert(s[i].0, v),
        distinct_keys(s.update(i, (s[i].0, v))),
    decreases s.len(),
{
    let t = s.update(i, (s[i].0, v));
    assert forall|a: int, b: int| 0 <= a < b < t.len() implies (#[trigger] t[a]).0 != (
    #[trigger] t[b]).0 by {
        assert(t[a].0 == s[a].0 && t[b].0 == s[b].0);
    }
    if i == s.len() - 1 {
        assert(t.drop_last() =~= s.drop_last());
        assert(assoc_map(t) =~= assoc_map(s).insert(s[i].0, v));
    } else {
        assert(t.drop_last() =~= s.drop_last().update(i, (s[i].0, v)));
        assert(s.drop_last()[i] == s[i]);
        assert forall|a: int, b: int| 0 <= a < b < s.drop_last().len() implies (
        #[trigger] s.drop_last()[a]).0 != (#[trigger] s.drop_last()[b]).0 by {
            assert(s.drop_last()[a] == s[a] && s.drop_last()[b] == s[b]);
        }
        lemma_assoc_update(s.drop_last(), i, v);
        assert(t.last() == s.last());
        assert(s.last().0 != s[i].0);
        assert(assoc_map(t) =~= assoc_map(s).insert(s[i].0, v));
    }
}

/// Outcome `stat` of merging onto `base`, recorded in the matrix.
struct MatrixEntry {
    key: NormalizedPath,
    statistic: MergeStatistic,
}

/// The outcomes of merging onto the path `key`.
struct MatrixRow {
    key: NormalizedPath,
    entries: Vec<MatrixEntry>,
}

/// The views of a row's entries.
spec fn entry_views(es: Seq<MatrixEntry>) -> Seq<(QPathView, MergeStatisticView)> {
    es.map_values(|e: MatrixEntry| (e.key@, e.statistic@))
}

impl MatrixRow {
    spec fn spec_key(&self) -> QPathView {
        self.key@
    }

    spec fn spec_entries(&self) -> Seq<(QPathView, MergeStatisticView)> {
        entry_views(self.entries@)
    }
}

/// The rows of a matrix: each key with its entries.
spec fn row_views(rs: Seq<MatrixRow>) -> Seq<(QPathView, Seq<(QPathView, MergeStatisticView)>)> {
    rs.map_values(|r: MatrixRow| (r.spec_key(), r.spec_entries()))
}

/// The matrix as a map from a base to the outcomes of merging each path onto it.
pub open spec fn matrix_map(rows: Seq<(QPathView, Seq<(QPathView, MergeStatisticView)>)>) -> Map<
    QPathView,
    Map<QPathView, MergeStatisticView>,
> {
    assoc_map(mapped_rows(rows))
}

/// Each row with its entries as a map.
pub open spec fn mapped_rows(rows: Seq<(QPathView, Seq<(QPathView, MergeStatisticView)>)>) -> Seq<
    (QPathView, Map<QPathView, MergeStatisticView>),
> {
    rows.map_values(|r: (QPathView, Seq<(QPathView, MergeStatisticView)>)| (r.0, assoc_map(r.1)))
}

/// The matrix built from chains of two: for each chain, the outcome of its
/// second path is recorded under its base and that path, later chains
/// overriding earlier ones.
pub open spec fn matrix_of(chains: Seq<MergeChainView>) -> Map<QPathView, Map<QPathView, MergeStatisticView>>
    decreases chains.len(),
{
    if chains.len() == 0 {
        Map::empty()
    } else {
        let m = matrix_of(chains.drop_last());
        let base = chains.last().chain[0].path;
        let second = chains.last().chain[1];
        let row = if m.contains_key(base) {
            m[base]
        } else {
            Map::empty()
        };
        m.insert(base, row.insert(second.path, second))
    }
}

/// Whether two paths are the same key: same segments and same version.
fn same_key(a: &NormalizedPath, b: &NormalizedPath) -> (r: bool)
    ensures
        r == (a@ == b@),
{
    let r = a.equals(b) && a.get_head().equals(b.get_head());
    proof {
        if a@.segments == b@.segments && a@.head == b@.head {
            assert(a@ == b@);
        }
    }
    r
}

/// An outcome's count is at most the length of the chain.
pub proof fn lemma_count_bound(s: Seq<MergeStatisticView>, k: MergeKind)
    ensures
        count_kind(s, k) <= s.len(),
    decreases s.len(),
{
    if s.len() > 0 {
        lemma_count_bound(s.drop_last(), k);
    }
}

impl MatrixEntry {
    fn copy(&self) -> (r: Self)
        ensures
            r.key@ == self.key@,
            r.statistic@ == self.statistic@,
    {
        MatrixEntry { key: self.key.clone(), statistic: self.statistic.clone() }
    }
}

/// A copy of the entries.
fn clone_entries(entries: &Vec<MatrixEntry>) -> (r: Vec<MatrixEntry>)
    ensures
        entry_views(r@) == entry_views(entries@),
{
    let mut out: Vec<MatrixEntry> = Vec::new();
    let mut i: usize = 0;
    while i < entries.len()
        invariant
            i <= entries@.len(),
            entry_views(out@) == entry_views(entries@).subrange(0, i as int),
        decreases entries@.len() - i,
    {
        let ghost before = out@;
        let e = entries[i].copy();
        out.push(e);
        assert(entry_views(out@) =~= entry_views(before).push((e.key@, e.statistic@)));
        assert(entry_views(entries@).subrange(0, i + 1) =~= entry_views(entries@).subrange(
            0,
            i as int,
        ).push(entry_views(entries@)[i as int]));
        i = i + 1;
    }
    assert(entry_views(entries@).subrange(0, i as int) =~= entry_views(entries@));
    out
}

/// The position of the entry for `key`.
fn find_entry(entries: &Vec<MatrixEntry>, key: &NormalizedPath) -> (r: Option<usize>)
    ensures
        r matches Some(j) ==> j < entries@.len() && entry_views(entries@)[j as int].0 == key@,
        r is None ==> forall|j: int| 0 <= j < entries@.len() ==> (#[trigger] entry_views(entries@)[j]).0 != key@,
{
    let mut j: usize = 0;
    while j < entries.len()
        invariant
            j <= entries@.len(),
            forall|k: int| 0 <= k < j ==> (#[trigger] entry_views(entries@)[k]).0 != key@,
        decreases entries@.len() - j,
    {
        if same_key(&entries[j].key, key) {
            return Some(j);
        }
        j = j + 1;
    }
    None
}

/// The entries with `statistic` recorded under `key`.
fn entries_with(entries: &Vec<MatrixEntry>, key: &NormalizedPath, statistic: &MergeStatistic) -> (r: Vec<
    MatrixEntry,
>)
    requires
        distinct_keys(entry_views(entries@)),
    ensures
        distinct_keys(entry_views(r@)),
        assoc_map(entry_views(r@)) == assoc_map(entry_views(entries@)).insert(key@, statistic@),
        forall|j: int|
            0 <= j < r@.len() ==> (#[trigger] entry_views(r@)[j]) == (key@, statistic@) || entry_views(
                entries@,
            ).contains(entry_views(r@)[j]),
{
    let mut out = clone_entries(entries);
    let fresh = MatrixEntry { key: key.clone(), statistic: statistic.clone() };
    let ghost fv = (fresh.key@, fresh.statistic@);
    match find_entry(entries, key) {
        Some(j) => {
            let ghost before = out@;
            out.set(j, fresh);
            proof {
                assert(entry_views(out@) =~= entry_views(before).update(j as int, fv));
                lemma_assoc_update(entry_views(before), j as int, statistic@);
                assert forall|i: int| 0 <= i < out@.len() implies (#[trigger] entry_views(out@)[i])
                    == (key@, statistic@) || entry_views(entries@).contains(entry_views(out@)[i]) by {
                    if i != j {
                        assert(entry_views(out@)[i] == entry_views(entries@)[i]);
                    }
                }
            }
        },
        None => {
            let ghost before = out@;
            out.push(fresh);
            proof {
                assert(entry_views(out@) =~= entry_views(before).push(fv));
                assert(entry_views(out@).drop_last() =~= entry_views(entries@));
                assert forall|a: int, b: int| 0 <= a < b < out@.len() implies (
                #[trigger] entry_views(out@)[a]).0 != (#[trigger] entry_views(out@)[b]).0 by {
                    if b == out@.len() - 1 {
                        assert(entry_views(out@)[a] == entry_views(entries@)[a]);
                    } else {
                        assert(entry_views(out@)[a] == entry_views(entries@)[a]);
                        assert(entry_views(out@)[b] == entry_views(entries@)[b]);
                    }
                }
                assert forall|i: int| 0 <= i < out@.len() implies (#[trigger] entry_views(out@)[i])
                    == (key@, statistic@) || entry_views(entries@).contains(entry_views(out@)[i]) by {
                    if i < out@.len() - 1 {
                        assert(entry_views(out@)[i] == entry_views(entries@)[i]);
                    }
                }
            }
        },
    }
    out
}

/// The views of paths.
pub open spec fn qviews(paths: Seq<NormalizedPath>) -> Seq<QPathView> {
    paths.map_values(|p: NormalizedPath| p@)
}

/// The outcomes recorded for merging `order[i]` onto each path before it.
pub open spec fn votes_for(
    m: Map<QPathView, Map<QPathView, MergeStatisticView>>,
    order: Seq<QPathView>,
    i: int,
) -> Seq<MergeStatisticView> {
    Seq::new(i as nat, |j: int| m[order[j]][order[i]])
}

/// An outcome is recorded for merging each path of `order` onto each path
/// before it.
pub open spec fn has_votes(m: Map<QPathView, Map<QPathView, MergeStatisticView>>, order: Seq<QPathView>) -> bool {
    forall|j: int, i: int|
        0 <= j < i < order.len() ==> m.contains_key(#[trigger] order[j]) && m[order[j]].contains_key(
            #[trigger] order[i],
        )
}

/// The outcomes recorded for merging `c` onto each of the first `i` paths of
/// `order`.
pub open spec fn votes_against(
    m: Map<QPathView, Map<QPathView, MergeStatisticView>>,
    order: Seq<QPathView>,
    i: int,
    c: QPathView,
) -> Seq<MergeStatisticView> {
    Seq::new(i as nat, |k: int| m[order[k]][c])
}

/// The keys of the rows other than those with the segments of `base`.
pub open spec fn candidates(rows: Seq<(QPathView, Seq<(QPathView, MergeStatisticView)>)>, base: QPathView) -> Seq<QPathView> {
    rows.map_values(|r: (QPathView, Seq<(QPathView, MergeStatisticView)>)| r.0).filter(
        |k: QPathView| k.segments != base.segments,
    )
}

/// The merge order a chain stands for: the base, then the path of each
/// outcome after it.
pub open spec fn chain_order(base: QPathView, chain: Seq<MergeStatisticView>) -> Seq<QPathView> {
    seq![base] + chain.drop_first().map_values(|s: MergeStatisticView| s.path)
}

/// Whether some path of `paths` has these segments.
pub open spec fn has_segments(paths: Seq<QPathView>, segments: Seq<Seq<char>>) -> bool {
    exists|k: int| 0 <= k < paths.len() && #[trigger] paths[k].segments == segments
}

/// The outcomes of a row for the paths whose segments are among `missing`.
pub open spec fn forward_of(es: Seq<(QPathView, MergeStatisticView)>, missing: Seq<QPathView>) -> Seq<MergeStatisticView>
    decreases es.len(),
{
    if es.len() == 0 {
        Seq::empty()
    } else if has_segments(missing, es.last().0.segments) {
        forward_of(es.drop_last(), missing).push(es.last().1)
    } else {
        forward_of(es.drop_last(), missing)
    }
}

/// The same outcomes weigh the same.
pub proof fn lemma_same_votes_weight(a: Seq<MergeStatisticView>, b: Seq<MergeStatisticView>)
    requires
        a.len() == b.len(),
        forall|k: int| 0 <= k < a.len() ==> same_statistic(#[trigger] a[k], b[k]),
    ensures
        total_weight(a) == total_weight(b),
    decreases a.len(),
{
    if a.len() > 0 {
        assert(same_statistic(a[a.len() - 1], b[b.len() - 1]));
        assert forall|k: int| 0 <= k < a.drop_last().len() implies same_statistic(
            #[trigger] a.drop_last()[k],
            b.drop_last()[k],
        ) by {
            assert(same_statistic(a[k], b[k]));
        }
        lemma_same_votes_weight(a.drop_last(), b.drop_last());
    }
}

/// The forward outcomes are no more than the row's.
pub proof fn lemma_forward_len(es: Seq<(QPathView, MergeStatisticView)>, missing: Seq<QPathView>)
    ensures
        forward_of(es, missing).len() <= es.len(),
    decreases es.len(),
{
    if es.len() > 0 {
        lemma_forward_len(es.drop_last(), missing);
    }
}

/// Whether one of `paths` has the segments of `path`.
fn contains_segments(paths: &Vec<NormalizedPath>, path: &NormalizedPath) -> (r: bool)
    ensures
        r == has_segments(qviews(paths@), path@.segments),
{
    let mut k: usize = 0;
    while k < paths.len()
        invariant
            k <= paths@.len(),
            forall|x: int| 0 <= x < k ==> (#[trigger] qviews(paths@)[x]).segments != path@.segments,
        decreases paths@.len() - k,
    {
        if paths[k].equals(path) {
            assert(qviews(paths@)[k as int].segments == path@.segments);
            return true;
        }
        k = k + 1;
    }
    false
}

/// In well-formed rows, the outcome recorded under a path is on that path.
pub proof fn lemma_entry_path(rows: Seq<(QPathView, Seq<(QPathView, MergeStatisticView)>)>, v: QPathView, c: QPathView)
    requires
        rows_wf(rows),
        matrix_map(rows).contains_key(v),
        matrix_map(rows)[v].contains_key(c),
    ensures
        matrix_map(rows)[v][c].path == c,
{
    let mr = mapped_rows(rows);
    lemma_assoc_dom(mr, v);
    let i = choose|i: int| 0 <= i < mr.len() && (#[trigger] mr[i]).0 == v;
    assert forall|x: int, y: int| 0 <= x < y < mr.len() implies (#[trigger] mr[x]).0 != (#[trigger] mr[y]).0 by {
        assert(rows[x].0 != rows[y].0);
    }
    lemma_assoc_get(mr, i);
    assert(matrix_map(rows)[v] == assoc_map(rows[i].1));
    lemma_assoc_dom(rows[i].1, c);
    let j = choose|j: int| 0 <= j < rows[i].1.len() && (#[trigger] rows[i].1[j]).0 == c;
    assert(distinct_keys(rows[i].1));
    lemma_assoc_get(rows[i].1, j);
    assert((#[trigger] rows[i].1[j]).1.path == rows[i].1[j].0);
}

/// Every row key is a key of the map.
pub proof fn lemma_row_key_in_map(rows: Seq<(QPathView, Seq<(QPathView, MergeStatisticView)>)>, i: int)
    requires
        0 <= i < rows.len(),
    ensures
        matrix_map(rows).contains_key(rows[i].0),
{
    lemma_assoc_dom(mapped_rows(rows), rows[i].0);
    assert(mapped_rows(rows)[i].0 == rows[i].0);
}

/// The weight of the outcomes of merging `c` onto the first `i` paths of
/// `order`.
pub open spec fn vote_weight(
    m: Map<QPathView, Map<QPathView, MergeStatisticView>>,
    order: Seq<QPathView>,
    i: int,
    c: QPathView,
) -> int {
    total_weight(votes_against(m, order, i, c))
}

/// Votes against a prefix of the order do not change when the order grows.
pub proof fn lemma_votes_push(
    m: Map<QPathView, Map<QPathView, MergeStatisticView>>,
    order: Seq<QPathView>,
    x: QPathView,
    i: int,
    c: QPathView,
)
    requires
        0 <= i <= order.len(),
    ensures
        votes_against(m, order.push(x), i, c) == votes_against(m, order, i, c),
        vote_weight(m, order.push(x), i, c) == vote_weight(m, order, i, c),
{
    assert(votes_against(m, order.push(x), i, c) =~= votes_against(m, order, i, c));
}

/// What is among the candidates is a row key without the base's segments.
pub proof fn lemma_candidate(rows: Seq<(QPathView, Seq<(QPathView, MergeStatisticView)>)>, base: QPathView, c: QPathView)
    requires
        candidates(rows, base).contains(c),
    ensures
        c.segments != base.segments,
        exists|i: int| 0 <= i < rows.len() && (#[trigger] rows[i]).0 == c,
{
    let keys = rows.map_values(|r: (QPathView, Seq<(QPathView, MergeStatisticView)>)| r.0);
    let pred = |k: QPathView| k.segments != base.segments;
    keys.lemma_filter_pred(pred, candidates(rows, base).index_of(c));
    lemma_filter_member(keys, pred, c);
    let i = choose|i: int| 0 <= i < keys.len() && keys[i] == c;
    assert(rows[i].0 == c);
}

/// What a filter keeps was there before.
pub proof fn lemma_filter_member(s: Seq<QPathView>, pred: spec_fn(QPathView) -> bool, c: QPathView)
    requires
        s.filter(pred).contains(c),
    ensures
        exists|i: int| 0 <= i < s.len() && s[i] == c,
    decreases s.len(),
{
    reveal(Seq::filter);
    if s.len() > 0 {
        if pred(s.last()) && c == s.last() {
            assert(s[s.len() - 1] == c);
        } else {
            let f = s.drop_last().filter(pred);
            if pred(s.last()) {
                let k = choose|k: int| 0 <= k < s.filter(pred).len() && s.filter(pred)[k] == c;
                assert(k < f.len());
                assert(f[k] == c);
            }
            assert(f.contains(c));
            lemma_filter_member(s.drop_last(), pred, c);
            let i = choose|i: int| 0 <= i < s.drop_last().len() && s.drop_last()[i] == c;
            assert(s[i] == c);
        }
    }
}

/// An outcome is recorded for merging each of `targets` onto each of
/// `voters`.
pub open spec fn can_vote(
    m: Map<QPathView, Map<QPathView, MergeStatisticView>>,
    voters: Seq<QPathView>,
    targets: Seq<QPathView>,
) -> bool {
    forall|j: int, k: int|
        0 <= j < voters.len() && 0 <= k < targets.len() ==> m.contains_key(#[trigger] voters[j])
            && m[voters[j]].contains_key(#[trigger] targets[k])
}

/// Voting for all targets includes voting for one of them.
pub proof fn lemma_can_vote_one(
    m: Map<QPathView, Map<QPathView, MergeStatisticView>>,
    voters: Seq<QPathView>,
    targets: Seq<QPathView>,
    k: int,
)
    requires
        can_vote(m, voters, targets),
        0 <= k < targets.len(),
    ensures
        can_vote(m, voters, seq![targets[k]]),
{
    assert forall|j: int, x: int| 0 <= j < voters.len() && 0 <= x < 1 implies m.contains_key(
        #[trigger] voters[j],
    ) && m[voters[j]].contains_key(#[trigger] seq![targets[k]][x]) by {
        assert(seq![targets[k]][x] == targets[k]);
    }
}

/// A filter of distinct row keys keeps them distinct.
pub proof fn lemma_filter_distinct(
    keys: Seq<QPathView>,
    pred: spec_fn(QPathView) -> bool,
    i: int,
    j: int,
    rows: Seq<(QPathView, Seq<(QPathView, MergeStatisticView)>)>,
)
    requires
        distinct_keys(rows),
        keys == rows.map_values(|r: (QPathView, Seq<(QPathView, MergeStatisticView)>)| r.0),
        0 <= i < j < keys.filter(pred).len(),
    ensures
        keys.filter(pred)[i] != keys.filter(pred)[j],
{
    assert forall|a: int, b: int| 0 <= a < b < keys.len() implies keys[a] != keys[b] by {
        assert(rows[a].0 != rows[b].0);
    }
    lemma_filter_keeps_distinct(keys, pred);
}

/// Filtering a sequence without repetitions gives one without repetitions.
pub proof fn lemma_filter_keeps_distinct(s: Seq<QPathView>, pred: spec_fn(QPathView) -> bool)
    requires
        forall|a: int, b: int| 0 <= a < b < s.len() ==> s[a] != s[b],
    ensures
        forall|a: int, b: int| 0 <= a < b < s.filter(pred).len() ==> s.filter(pred)[a] != s.filter(pred)[b],
    decreases s.len(),
{
    reveal(Seq::filter);
    if s.len() > 0 {
        let d = s.drop_last();
        assert forall|a: int, b: int| 0 <= a < b < d.len() implies d[a] != d[b] by {
            assert(d[a] == s[a] && d[b] == s[b]);
        }
        lemma_filter_keeps_distinct(d, pred);
        if pred(s.last()) {
            let f = d.filter(pred);
            assert forall|a: int, b: int| 0 <= a < b < s.filter(pred).len() implies s.filter(pred)[a]
                != s.filter(pred)[b] by {
                if b == f.len() {
                    assert(s.filter(pred)[b] == s.last());
                    assert(f.contains(f[a]));
                    lemma_filter_member(d, pred, f[a]);
                    let x = choose|x: int| 0 <= x < d.len() && d[x] == f[a];
                    assert(d[x] == s[x]);
                    assert(s[x] != s[s.len() - 1]);
                }
            }
        }
    }
}

/// The state of the greedy search: `o` starts with the base, `o` after the
/// base and `ms` together hold each candidate once, the chain has the lowest
/// outcome for each chosen path, and each chosen path weighed at least as much
/// as every path chosen after it or still missing.
pub open spec fn estimate_inv(
    m: Map<QPathView, Map<QPathView, MergeStatisticView>>,
    cands: Seq<QPathView>,
    base: QPathView,
    o: Seq<QPathView>,
    ms: Seq<QPathView>,
    chain: Seq<MergeStatisticView>,
) -> bool {
    &&& o.len() >= 1
    &&& o[0] == base
    &&& o.len() + ms.len() == cands.len() + 1
    &&& chain.len() == o.len()
    &&& chain[0] == (MergeStatisticView { kind: MergeKind::Base, path: base })
    &&& forall|i: int| 1 <= i < o.len() ==> (#[trigger] chain[i]).path == o[i]
    &&& forall|i: int| 1 <= i < o.len() ==> (#[trigger] chain[i]) == lowest(votes_against(m, o, i, o[i]))
    &&& forall|i: int| 1 <= i < o.len() ==> cands.contains(#[trigger] o[i])
    &&& forall|k: int| 0 <= k < ms.len() ==> cands.contains(#[trigger] ms[k])
    &&& forall|i: int, j: int| 1 <= i < j < o.len() ==> #[trigger] o[i] != #[trigger] o[j]
    &&& forall|i: int, j: int| 0 <= i < j < ms.len() ==> #[trigger] ms[i] != #[trigger] ms[j]
    &&& forall|i: int, k: int| 1 <= i < o.len() && 0 <= k < ms.len() ==> #[trigger] o[i] != #[trigger] ms[k]
    &&& forall|i: int, j: int|
        1 <= i < j < o.len() ==> vote_weight(m, o, i, #[trigger] o[i]) >= vote_weight(m, o, i, #[trigger] o[j])
    &&& forall|i: int, k: int|
        1 <= i < o.len() && 0 <= k < ms.len() ==> vote_weight(m, o, i, #[trigger] o[i]) >= vote_weight(
            m,
            o,
            i,
            #[trigger] ms[k],
        )
}

/// Choosing `ms[w]` extends the chain by the lowest of its outcomes.
pub proof fn lemma_step_chain(
    m: Map<QPathView, Map<QPathView, MergeStatisticView>>,
    o: Seq<QPathView>,
    ms: Seq<QPathView>,
    chain: Seq<MergeStatisticView>,
    w: int,
    votes: Seq<MergeStatisticView>,
)
    requires
        chain.len() == o.len(),
        0 <= w < ms.len(),
        forall|i: int| 1 <= i < o.len() ==> (#[trigger] chain[i]).path == o[i],
        forall|i: int| 1 <= i < o.len() ==> (#[trigger] chain[i]) == lowest(votes_against(m, o, i, o[i])),
        votes == votes_against(m, o, o.len() as int, ms[w]),
        lowest(votes).path == ms[w],
    ensures
        forall|i: int|
            1 <= i < o.len() + 1 ==> (#[trigger] chain.push(lowest(votes))[i]).path == o.push(ms[w])[i],
        forall|i: int|
            1 <= i < o.len() + 1 ==> (#[trigger] chain.push(lowest(votes))[i]) == lowest(
                votes_against(m, o.push(ms[w]), i, o.push(ms[w])[i]),
            ),
{
    let n = o.len() as int;
    let o2 = o.push(ms[w]);
    let c2 = chain.push(lowest(votes));
    assert forall|i: int| 1 <= i < o2.len() implies (#[trigger] c2[i]) == lowest(votes_against(m, o2, i, o2[i])) by {
        lemma_votes_push(m, o, ms[w], i, o2[i]);
        if i == n {
            assert(votes =~= votes_against(m, o2, i, o2[i]));
        } else {
            assert(c2[i] == chain[i]);
            assert(o2[i] == o[i]);
        }
    }
    assert forall|i: int| 1 <= i < o2.len() implies (#[trigger] c2[i]).path == o2[i] by {
        if i < n {
            assert(c2[i] == chain[i]);
            assert(o2[i] == o[i]);
        }
    }
}

/// Choosing the missing path whose outcomes weigh most keeps each chosen path
/// at least as heavy as those after it.
pub proof fn lemma_step_weights(
    m: Map<QPathView, Map<QPathView, MergeStatisticView>>,
    o: Seq<QPathView>,
    ms: Seq<QPathView>,
    w: int,
    votes: Seq<MergeStatisticView>,
)
    requires
        0 <= w < ms.len(),
        forall|i: int, j: int|
            1 <= i < j < o.len() ==> vote_weight(m, o, i, #[trigger] o[i]) >= vote_weight(m, o, i, #[trigger] o[j]),
        forall|i: int, k: int|
            1 <= i < o.len() && 0 <= k < ms.len() ==> vote_weight(m, o, i, #[trigger] o[i]) >= vote_weight(
                m,
                o,
                i,
                #[trigger] ms[k],
            ),
        votes == votes_against(m, o, o.len() as int, ms[w]),
        forall|k: int| 0 <= k < ms.len() ==> vote_weight(m, o, o.len() as int, #[trigger] ms[k]) <= total_weight(votes),
    ensures
        forall|i: int, j: int|
            1 <= i < j < o.len() + 1 ==> vote_weight(m, o.push(ms[w]), i, #[trigger] o.push(ms[w])[i])
                >= vote_weight(m, o.push(ms[w]), i, #[trigger] o.push(ms[w])[j]),
        forall|i: int, k: int|
            1 <= i < o.len() + 1 && 0 <= k < ms.len() - 1 ==> vote_weight(
                m,
                o.push(ms[w]),
                i,
                #[trigger] o.push(ms[w])[i],
            ) >= vote_weight(m, o.push(ms[w]), i, #[trigger] ms.remove(w)[k]),
{
    let n = o.len() as int;
    let o2 = o.push(ms[w]);
    let ms2 = ms.remove(w);
    assert forall|i: int, j: int| 1 <= i < j < o2.len() implies vote_weight(m, o2, i, #[trigger] o2[i])
        >= vote_weight(m, o2, i, #[trigger] o2[j]) by {
        lemma_votes_push(m, o, ms[w], i, o2[i]);
        lemma_votes_push(m, o, ms[w], i, o2[j]);
        assert(o2[i] == o[i]);
        if j == n {
            assert(o2[j] == ms[w]);
            assert(vote_weight(m, o, i, o[i]) >= vote_weight(m, o, i, ms[w]));
        } else {
            assert(o2[j] == o[j]);
        }
    }
    assert forall|i: int, k: int| 1 <= i < o2.len() && 0 <= k < ms2.len() implies vote_weight(
        m,
        o2,
        i,
        #[trigger] o2[i],
    ) >= vote_weight(m, o2, i, #[trigger] ms2[k]) by {
        lemma_votes_push(m, o, ms[w], i, o2[i]);
        lemma_votes_push(m, o, ms[w], i, ms2[k]);
        let b = if k < w { k } else { k + 1 };
        assert(ms2[k] == ms[b]);
        if i == n {
            assert(o2[i] == ms[w]);
            assert(vote_weight(m, o, n, ms[b]) <= total_weight(votes));
            assert(votes =~= votes_against(m, o, n, ms[w]));
        } else {
            assert(o2[i] == o[i]);
            assert(vote_weight(m, o, i, o[i]) >= vote_weight(m, o, i, ms[b]));
        }
    }
}

/// Moving `ms[w]` to the end of `o` keeps each candidate once.
pub proof fn lemma_step_members(cands: Seq<QPathView>, o: Seq<QPathView>, ms: Seq<QPathView>, w: int)
    requires
        0 <= w < ms.len(),
        forall|i: int| 1 <= i < o.len() ==> cands.contains(#[trigger] o[i]),
        forall|k: int| 0 <= k < ms.len() ==> cands.contains(#[trigger] ms[k]),
        forall|i: int, j: int| 1 <= i < j < o.len() ==> #[trigger] o[i] != #[trigger] o[j],
        forall|i: int, j: int| 0 <= i < j < ms.len() ==> #[trigger] ms[i] != #[trigger] ms[j],
        forall|i: int, k: int| 1 <= i < o.len() && 0 <= k < ms.len() ==> #[trigger] o[i] != #[trigger] ms[k],
    ensures
        forall|i: int| 1 <= i < o.len() + 1 ==> cands.contains(#[trigger] o.push(ms[w])[i]),
        forall|k: int| 0 <= k < ms.len() - 1 ==> cands.contains(#[trigger] ms.remove(w)[k]),
        forall|i: int, j: int|
            1 <= i < j < o.len() + 1 ==> #[trigger] o.push(ms[w])[i] != #[trigger] o.push(ms[w])[j],
        forall|i: int, j: int|
            0 <= i < j < ms.len() - 1 ==> #[trigger] ms.remove(w)[i] != #[trigger] ms.remove(w)[j],
        forall|i: int, k: int|
            1 <= i < o.len() + 1 && 0 <= k < ms.len() - 1 ==> #[trigger] o.push(ms[w])[i]
                != #[trigger] ms.remove(w)[k],
{
    let n = o.len() as int;
    let o2 = o.push(ms[w]);
    let ms2 = ms.remove(w);
    assert forall|k: int| 0 <= k < ms2.len() implies cands.contains(#[trigger] ms2[k]) by {
        let b = if k < w { k } else { k + 1 };
        assert(ms2[k] == ms[b]);
    }
    assert forall|i: int| 1 <= i < o2.len() implies cands.contains(#[trigger] o2[i]) by {
        if i == n {
            assert(o2[i] == ms[w]);
        } else {
            assert(o2[i] == o[i]);
        }
    }
    assert forall|i: int, j: int| 0 <= i < j < ms2.len() implies #[trigger] ms2[i] != #[trigger] ms2[j] by {
        let a = if i < w { i } else { i + 1 };
        let b = if j < w { j } else { j + 1 };
        assert(ms2[i] == ms[a] && ms2[j] == ms[b]);
    }
    assert forall|i: int, k: int| 1 <= i < o2.len() && 0 <= k < ms2.len() implies #[trigger] o2[i]
        != #[trigger] ms2[k] by {
        let b = if k < w { k } else { k + 1 };
        assert(ms2[k] == ms[b]);
        if i == n {
            assert(o2[i] == ms[w]);
        } else {
            assert(o2[i] == o[i]);
        }
    }
    assert forall|i: int, j: int| 1 <= i < j < o2.len() implies #[trigger] o2[i] != #[trigger] o2[j] by {
        assert(o2[i] == o[i]);
        if j == n {
            assert(o2[j] == ms[w]);
        } else {
            assert(o2[j] == o[j]);
        }
    }
}

/// Choosing the missing path `ms[w]` whose outcomes weigh most keeps the
/// state of the greedy search.
pub proof fn lemma_estimate_step(
    m: Map<QPathView, Map<QPathView, MergeStatisticView>>,
    cands: Seq<QPathView>,
    base: QPathView,
    o: Seq<QPathView>,
    ms: Seq<QPathView>,
    chain: Seq<MergeStatisticView>,
    w: int,
    votes: Seq<MergeStatisticView>,
)
    requires
        estimate_inv(m, cands, base, o, ms, chain),
        0 <= w < ms.len(),
        votes == votes_against(m, o, o.len() as int, ms[w]),
        forall|k: int| 0 <= k < ms.len() ==> vote_weight(m, o, o.len() as int, #[trigger] ms[k]) <= total_weight(votes),
        lowest(votes).path == ms[w],
    ensures
        estimate_inv(m, cands, base, o.push(ms[w]), ms.remove(w), chain.push(lowest(votes))),
{
    lemma_step_chain(m, o, ms, chain, w, votes);
    lemma_step_weights(m, o, ms, w, votes);
    lemma_step_members(cands, o, ms, w);
    assert(o.push(ms[w])[0] == base);
    assert(chain.push(lowest(votes))[0] == chain[0]);
}

/// The outcomes of merging pairs of paths: for each base, the outcome of
/// merging each other path onto it.
pub struct Conflict2DMatrix {
    rows: Vec<MatrixRow>,
}

impl View for Conflict2DMatrix {
    type V = Seq<(QPathView, Seq<(QPathView, MergeStatisticView)>)>;

    closed spec fn view(&self) -> Seq<(QPathView, Seq<(QPathView, MergeStatisticView)>)> {
        row_views(self.rows@)
    }
}

/// Well-formed rows: keys distinct, in each row too, and each outcome is on
/// the path it is recorded under.
pub open spec fn rows_wf(rows: Seq<(QPathView, Seq<(QPathView, MergeStatisticView)>)>) -> bool {
    &&& distinct_keys(rows)
    &&& forall|i: int| 0 <= i < rows.len() ==> distinct_keys(#[trigger] rows[i].1)
    &&& forall|i: int, j: int|
        0 <= i < rows.len() && 0 <= j < rows[i].1.len() ==> (#[trigger] rows[i].1[j]).1.path
            == rows[i].1[j].0
}

impl Conflict2DMatrix {
    #[verifier::type_invariant]
    spec fn wf(&self) -> bool {
        rows_wf(row_views(self.rows@))
    }

    /// The matrix as a map from base to path to outcome.
    pub open spec fn spec_map(&self) -> Map<QPathView, Map<QPathView, MergeStatisticView>> {
        matrix_map(self@)
    }

    /// The position of the row for `key`.
    fn find_row(rows: &Vec<MatrixRow>, key: &NormalizedPath) -> (r: Option<usize>)
        ensures
            r matches Some(i) ==> i < rows@.len() && row_views(rows@)[i as int].0 == key@,
            r is None ==> forall|i: int| 0 <= i < rows@.len() ==> (#[trigger] row_views(rows@)[i]).0 != key@,
    {
        let mut i: usize = 0;
        while i < rows.len()
            invariant
                i <= rows@.len(),
                forall|k: int| 0 <= k < i ==> (#[trigger] row_views(rows@)[k]).0 != key@,
            decreases rows@.len() - i,
        {
            if same_key(&rows[i].key, key) {
                return Some(i);
            }
            i = i + 1;
        }
        None
    }

    /// The outcome recorded for merging `b` onto `a`.
    fn lookup(&self, a: &NormalizedPath, b: &NormalizedPath) -> (r: Option<&MergeStatistic>)
        ensures
            (self.spec_map().contains_key(a@) && self.spec_map()[a@].contains_key(b@)) <==> r is Some,
            r matches Some(s) ==> s@ == self.spec_map()[a@][b@],
    {
        proof {
            use_type_invariant(self);
        }
        let ghost rv = self@;
        proof {
            assert(distinct_keys(mapped_rows(rv))) by {
                assert forall|x: int, y: int| 0 <= x < y < mapped_rows(rv).len()
                    implies (#[trigger] mapped_rows(rv)[x]).0 != (#[trigger] mapped_rows(rv)[y]).0 by {
                    assert(rv[x].0 != rv[y].0);
                }
            }
            lemma_assoc_dom(mapped_rows(rv), a@);
        }
        match Self::find_row(&self.rows, a) {
            None => {
                proof {
                    if exists|i: int| 0 <= i < mapped_rows(rv).len() && (#[trigger] mapped_rows(rv)[i]).0 == a@ {
                        let i = choose|i: int| 0 <= i < mapped_rows(rv).len() && (#[trigger] mapped_rows(rv)[i]).0 == a@;
                        assert(rv[i].0 == a@);
                    }
                }
                None
            },
            Some(i) => {
                proof {
                    lemma_assoc_get(mapped_rows(rv), i as int);
                    assert(mapped_rows(rv)[i as int].1 == assoc_map(rv[i as int].1));
                    assert(rv[i as int].1 == entry_views(self.rows@[i as int].entries@));
                    lemma_assoc_dom(rv[i as int].1, b@);
                }
                let entries = &self.rows[i].entries;
                match find_entry(entries, b) {
                    None => {
                        proof {
                            if exists|j: int| 0 <= j < rv[i as int].1.len() && (#[trigger] rv[i as int].1[j]).0 == b@ {
                                let j = choose|j: int| 0 <= j < rv[i as int].1.len() && (#[trigger] rv[i as int].1[j]).0 == b@;
                                assert(entry_views(entries@)[j].0 == b@);
                            }
                        }
                        None
                    },
                    Some(j) => {
                        proof {
                            lemma_assoc_get(rv[i as int].1, j as int);
                        }
                        Some(&entries[j].statistic)
                    },
                }
            },
        }
    }

    /// The chain predicted for merging the paths in `order` onto the first:
    /// each path gets the lowest of the outcomes recorded for merging it onto
    /// each path before it.
    pub fn predict_conflicts(&self, order: &Vec<NormalizedPath>) -> (r: MergeChainStatistic)
        requires
            order@.len() >= 1,
            has_votes(self.spec_map(), qviews(order@)),
        ensures
            r@.chain.len() == order@.len(),
            r@.chain[0] == (MergeStatisticView { kind: MergeKind::Base, path: order@[0]@ }),
            forall|i: int|
                1 <= i < order@.len() ==> (#[trigger] r@.chain[i]) == lowest(
                    votes_for(self.spec_map(), qviews(order@), i),
                ),
            counters_consistent(r@),
    {
        let ghost m = self.spec_map();
        let ghost o = qviews(order@);
        let mut chain = MergeChainStatistic::new();
        proof {
            lemma_count_bound(chain@.chain, MergeKind::Base);
        }
        let ghost empty = chain@;
        chain.push(MergeStatistic::Base(order[0].clone()));
        proof {
            assert(counters_consistent(empty)) by {
                assert(empty.chain =~= Seq::<MergeStatisticView>::empty());
            }
            law_chain_push_keeps_counters(empty, chain@.chain[0]);
        }
        let n = order.len();
        let mut i: usize = 1;
        while i < n
            invariant
                1 <= i <= n,
                n == order@.len(),
                m == self.spec_map(),
                o == qviews(order@),
                has_votes(m, o),
                chain@.chain.len() == i,
                chain@.chain[0] == (MergeStatisticView { kind: MergeKind::Base, path: order@[0]@ }),
                forall|k: int| 1 <= k < i ==> (#[trigger] chain@.chain[k]) == lowest(votes_for(m, o, k)),
                counters_consistent(chain@),
            decreases n - i,
        {
            let mut votes = MergeStatistics::new(MergeStatisticWeight::Simple);
            let mut j: usize = 0;
            while j < i
                invariant
                    j <= i < n,
                    n == order@.len(),
                    m == self.spec_map(),
                    o == qviews(order@),
                    has_votes(m, o),
                    votes@.statistics == votes_for(m, o, i as int).subrange(0, j as int),
                decreases i - j,
            {
                assert(o[j as int] == order@[j as int]@ && o[i as int] == order@[i as int]@);
                let s = self.lookup(&order[j], &order[i]).unwrap().clone();
                votes.push(s);
                assert(votes@.statistics =~= votes_for(m, o, i as int).subrange(0, j + 1));
                j = j + 1;
            }
            assert(votes_for(m, o, i as int).subrange(0, i as int) =~= votes_for(m, o, i as int));
            let low = votes.get_lowest().clone();
            proof {
                lemma_count_bound(chain@.chain, low@.kind);
            }
            let ghost before = chain@;
            chain.push(low);
            proof {
                law_chain_push_keeps_counters(before, low@);
                assert(chain@.chain[i as int] == low@);
                assert forall|k: int| 1 <= k < i + 1 implies (#[trigger] chain@.chain[k]) == lowest(
                    votes_for(m, o, k),
                ) by {
                    if k < i {
                        assert(chain@.chain[k] == before.chain[k]);
                    }
                }
            }
            i = i + 1;
        }
        chain
    }

    /// The outcomes recorded for merging `candidate` onto each of `voters`.
    fn votes_of(&self, voters: &Vec<NormalizedPath>, candidate: &NormalizedPath) -> (r: MergeStatistics)
        requires
            can_vote(self.spec_map(), qviews(voters@), seq![candidate@]),
        ensures
            r@.weights == MergeStatisticWeight::Simple,
            r@.statistics == Seq::new(
                voters@.len(),
                |j: int| self.spec_map()[voters@[j]@][candidate@],
            ),
    {
        let mut votes = MergeStatistics::new(MergeStatisticWeight::Simple);
        let mut j: usize = 0;
        while j < voters.len()
            invariant
                j <= voters@.len(),
                can_vote(self.spec_map(), qviews(voters@), seq![candidate@]),
                votes@.weights == MergeStatisticWeight::Simple,
                votes@.statistics == Seq::new(
                    voters@.len(),
                    |k: int| self.spec_map()[voters@[k]@][candidate@],
                ).subrange(0, j as int),
            decreases voters@.len() - j,
        {
            assert(qviews(voters@)[j as int] == voters@[j as int]@);
            assert(seq![candidate@][0] == candidate@);
            let s = self.lookup(&voters[j], candidate).unwrap().clone();
            votes.push(s);
            assert(votes@.statistics =~= Seq::new(
                voters@.len(),
                |k: int| self.spec_map()[voters@[k]@][candidate@],
            ).subrange(0, j + 1));
            j = j + 1;
        }
        assert(Seq::new(voters@.len(), |k: int| self.spec_map()[voters@[k]@][candidate@]).subrange(
            0,
            j as int,
        ) =~= Seq::new(voters@.len(), |k: int| self.spec_map()[voters@[k]@][candidate@]));
        votes
    }

    /// The outcomes recorded in the row of `element` for the paths whose
    /// segments are among `missing`.
    fn calculate_forward_compatibility(&self, element: &NormalizedPath, missing: &Vec<NormalizedPath>) -> (r: MergeStatistics)
        requires
            self.spec_map().contains_key(element@),
        ensures
            r@.weights == MergeStatisticWeight::Simple,
            exists|i: int|
                0 <= i < self@.len() && (#[trigger] self@[i]).0 == element@ && r@.statistics
                    == forward_of(self@[i].1, qviews(missing@)),
    {
        let ghost rv = self@;
        proof {
            lemma_assoc_dom(mapped_rows(rv), element@);
            let i = choose|i: int| 0 <= i < mapped_rows(rv).len() && (#[trigger] mapped_rows(rv)[i]).0 == element@;
            assert(rv[i].0 == element@);
        }
        let i = Self::find_row(&self.rows, element).unwrap();
        let entries = &self.rows[i].entries;
        let ghost es = entry_views(entries@);
        assert(es == rv[i as int].1);
        let mut out = MergeStatistics::new(MergeStatisticWeight::Simple);
        let mut j: usize = 0;
        while j < entries.len()
            invariant
                j <= entries@.len(),
                es == entry_views(entries@),
                out@.weights == MergeStatisticWeight::Simple,
                out@.statistics == forward_of(es.subrange(0, j as int), qviews(missing@)),
            decreases entries@.len() - j,
        {
            assert(es.subrange(0, j + 1).drop_last() =~= es.subrange(0, j as int));
            assert(es.subrange(0, j + 1).last() == es[j as int]);
            if contains_segments(missing, &entries[j].key) {
                out.push(entries[j].statistic.clone());
            }
            j = j + 1;
        }
        assert(es.subrange(0, j as int) =~= es);
        out
    }

    /// The keys of the rows, in their order, but those with the segments of
    /// `base`.
    fn initial_missing(&self, base: &NormalizedPath) -> (r: Vec<NormalizedPath>)
        ensures
            qviews(r@) == candidates(self@, base@),
    {
        let ghost keys = self@.map_values(|r: (QPathView, Seq<(QPathView, MergeStatisticView)>)| r.0);
        let ghost pred = |k: QPathView| k.segments != base@.segments;
        let mut out: Vec<NormalizedPath> = Vec::new();
        let mut i: usize = 0;
        while i < self.rows.len()
            invariant
                i <= self.rows@.len(),
                keys == self@.map_values(|r: (QPathView, Seq<(QPathView, MergeStatisticView)>)| r.0),
                pred == (|k: QPathView| k.segments != base@.segments),
                qviews(out@) == keys.subrange(0, i as int).filter(pred),
            decreases self.rows@.len() - i,
        {
            let ghost before = out@;
            assert(keys.subrange(0, i + 1).drop_last() =~= keys.subrange(0, i as int));
            assert(keys.subrange(0, i + 1).last() == self.rows@[i as int].key@);
            if !self.rows[i].key.equals(base) {
                let k = self.rows[i].key.clone();
                out.push(k);
                assert(qviews(out@) =~= qviews(before).push(k@));
            }
            proof {
                reveal(Seq::filter);
            }
            i = i + 1;
        }
        assert(keys.subrange(0, i as int) =~= keys);
        out
    }

    /// The first of `missing` whose outcomes against `order` weigh most, and
    /// those outcomes.
    fn best_candidate(&self, order: &Vec<NormalizedPath>, missing: &Vec<NormalizedPath>) -> (r: (
        usize,
        MergeStatistics,
    ))
        requires
            missing@.len() > 0,
            order@.len() <= MAX_WEIGHED,
            can_vote(self.spec_map(), qviews(order@), qviews(missing@)),
        ensures
            r.0 < missing@.len(),
            r.1@.weights == MergeStatisticWeight::Simple,
            r.1@.statistics == votes_against(self.spec_map(), qviews(order@), order@.len() as int, missing@[r.0 as int]@),
            forall|k: int|
                0 <= k < missing@.len() ==> vote_weight(
                    self.spec_map(),
                    qviews(order@),
                    order@.len() as int,
                    #[trigger] missing@[k]@,
                ) <= total_weight(r.1@.statistics),
    {
        let ghost m = self.spec_map();
        let ghost o = qviews(order@);
        let ghost n = order@.len() as int;
        proof {
            lemma_can_vote_one(self.spec_map(), qviews(order@), qviews(missing@), 0);
        }
        let first = self.votes_of(order, &missing[0]);
        assert(first@.statistics =~= votes_against(m, o, n, missing@[0]@));
        let mut best: usize = 0;
        let mut best_votes = first;
        let mut best_weight = best_votes.accumulate_weights();
        let mut k: usize = 1;
        while k < missing.len()
            invariant
                1 <= k <= missing@.len(),
                m == self.spec_map(),
                o == qviews(order@),
                n == order@.len(),
                n <= MAX_WEIGHED,
                can_vote(self.spec_map(), qviews(order@), qviews(missing@)),
                best < k,
                best_votes@.weights == MergeStatisticWeight::Simple,
                best_votes@.statistics == votes_against(m, o, n, missing@[best as int]@),
                best_weight == total_weight(best_votes@.statistics),
                forall|x: int| 0 <= x < k ==> vote_weight(m, o, n, #[trigger] missing@[x]@) <= best_weight,
            decreases missing@.len() - k,
        {
            proof {
                lemma_can_vote_one(self.spec_map(), qviews(order@), qviews(missing@), k as int);
            }
            let votes = self.votes_of(order, &missing[k]);
            assert(votes@.statistics =~= votes_against(m, o, n, missing@[k as int]@));
            let weight = votes.accumulate_weights();
            if weight > best_weight {
                best = k;
                best_votes = votes;
                best_weight = weight;
            }
            k = k + 1;
        }
        (best, best_votes)
    }

    /// Among the paths of `missing` whose outcomes are the same as those of
    /// the one at `best`, the one whose outcomes against the others weigh
    /// most (the first of them on a tie), with its outcomes.
    fn pick_winner(
        &self,
        order: &Vec<NormalizedPath>,
        missing: &Vec<NormalizedPath>,
        best: usize,
        best_votes: &MergeStatistics,
    ) -> (r: (usize, MergeStatistics))
        requires
            best < missing@.len(),
            order@.len() <= MAX_WEIGHED,
            can_vote(self.spec_map(), qviews(order@), qviews(missing@)),
            forall|k: int| 0 <= k < missing@.len() ==> self.spec_map().contains_key(#[trigger] missing@[k]@),
            forall|i: int| 0 <= i < self@.len() ==> (#[trigger] self@[i]).1.len() <= MAX_WEIGHED,
            best_votes@.weights == MergeStatisticWeight::Simple,
            best_votes@.statistics == votes_against(
                self.spec_map(),
                qviews(order@),
                order@.len() as int,
                missing@[best as int]@,
            ),
        ensures
            r.0 < missing@.len(),
            r.1@.statistics == votes_against(
                self.spec_map(),
                qviews(order@),
                order@.len() as int,
                missing@[r.0 as int]@,
            ),
            same_votes(r.1@, best_votes@),
    {
        let ghost m = self.spec_map();
        let ghost o = qviews(order@);
        let ghost n = order@.len() as int;
        let mut winner: usize = best;
        let mut winner_votes = best_votes.clone();
        let compat = self.calculate_forward_compatibility(&missing[best], missing);
        proof {
            let i = choose|i: int|
                0 <= i < self@.len() && (#[trigger] self@[i]).0 == missing@[best as int]@
                    && compat@.statistics == forward_of(self@[i].1, qviews(missing@));
            lemma_forward_len(self@[i].1, qviews(missing@));
        }
        let mut winner_compat = compat.accumulate_weights();
        assert forall|k: int| 0 <= k < best_votes@.statistics.len() implies same_statistic(
            #[trigger] winner_votes@.statistics[k],
            best_votes@.statistics[k],
        ) by {}
        let len = missing.len();
        let mut x: usize = best + 1;
        while x < missing.len()
            invariant
                best < x <= missing@.len(),
                m == self.spec_map(),
                o == qviews(order@),
                n == order@.len(),
                n <= MAX_WEIGHED,
                can_vote(self.spec_map(), qviews(order@), qviews(missing@)),
                forall|k: int| 0 <= k < missing@.len() ==> self.spec_map().contains_key(#[trigger] missing@[k]@),
                forall|i: int| 0 <= i < self@.len() ==> (#[trigger] self@[i]).1.len() <= MAX_WEIGHED,
                winner < missing@.len(),
                winner_votes@.statistics == votes_against(m, o, n, missing@[winner as int]@),
                same_votes(winner_votes@, best_votes@),
            decreases missing@.len() - x,
        {
            proof {
                lemma_can_vote_one(self.spec_map(), qviews(order@), qviews(missing@), x as int);
            }
            let votes = self.votes_of(order, &missing[x]);
            assert(votes@.statistics =~= votes_against(m, o, n, missing@[x as int]@));
            if votes.same_as(best_votes) {
                let candidate_compat = self.calculate_forward_compatibility(&missing[x], missing);
                proof {
                    let i = choose|i: int|
                        0 <= i < self@.len() && (#[trigger] self@[i]).0 == missing@[x as int]@
                            && candidate_compat@.statistics == forward_of(self@[i].1, qviews(missing@));
                    lemma_forward_len(self@[i].1, qviews(missing@));
                }
                let c = candidate_compat.accumulate_weights();
                if c > winner_compat {
                    winner = x;
                    winner_votes = votes;
                    winner_compat = c;
                }
            }
            x = x + 1;
        }
        (winner, winner_votes)
    }

    /// A merge order found greedily from `base_path`: at each step, the path
    /// whose recorded outcomes against the paths chosen so far weigh most
    /// comes next; each gets the lowest of those outcomes.
    pub fn estimate_best_path(&self, base_path: &NormalizedPath) -> (r: MergeChainStatistic)
        requires
            candidates(self@, base_path@).len() > 0 ==> self.spec_map().contains_key(base_path@),
            forall|v: QPathView, c: QPathView|
                (v == base_path@ || candidates(self@, base_path@).contains(v)) && #[trigger] candidates(
                    self@,
                    base_path@,
                ).contains(c) && v != c ==> #[trigger] self.spec_map()[v].contains_key(c),
            self@.len() < MAX_WEIGHED,
            forall|i: int| 0 <= i < self@.len() ==> (#[trigger] self@[i]).1.len() <= MAX_WEIGHED,
        ensures
            r@.chain.len() == candidates(self@, base_path@).len() + 1,
            r@.chain[0] == (MergeStatisticView { kind: MergeKind::Base, path: base_path@ }),
            forall|i: int|
                1 <= i < r@.chain.len() ==> candidates(self@, base_path@).contains(
                    (#[trigger] r@.chain[i]).path,
                ),
            forall|i: int, j: int|
                1 <= i < j < r@.chain.len() ==> (#[trigger] r@.chain[i]).path != (#[trigger] r@.chain[j]).path,
            forall|i: int|
                1 <= i < r@.chain.len() ==> (#[trigger] r@.chain[i]) == lowest(
                    votes_for(self.spec_map(), chain_order(base_path@, r@.chain), i),
                ),
            forall|i: int, j: int|
                1 <= i < j < r@.chain.len() ==> vote_weight(
                    self.spec_map(),
                    chain_order(base_path@, r@.chain),
                    i,
                    #[trigger] chain_order(base_path@, r@.chain)[i],
                ) >= vote_weight(
                    self.spec_map(),
                    chain_order(base_path@, r@.chain),
                    i,
                    #[trigger] chain_order(base_path@, r@.chain)[j],
                ),
            counters_consistent(r@),
    {
        proof {
            use_type_invariant(self);
        }
        let ghost m = self.spec_map();
        let ghost cands = candidates(self@, base_path@);
        let ghost base = base_path@;
        let mut missing = self.initial_missing(base_path);
        let mut order: Vec<NormalizedPath> = Vec::new();
        order.push(base_path.clone());
        let mut chain = MergeChainStatistic::new();
        let ghost empty = chain@;
        chain.push(MergeStatistic::Base(base_path.clone()));
        proof {
            assert(counters_consistent(empty)) by {
                assert(empty.chain =~= Seq::<MergeStatisticView>::empty());
            }
            law_chain_push_keeps_counters(empty, chain@.chain[0]);
            let keys = self@.map_values(|r: (QPathView, Seq<(QPathView, MergeStatisticView)>)| r.0);
            keys.lemma_filter_len(|k: QPathView| k.segments != base.segments);
            assert forall|i: int, j: int| 0 <= i < j < cands.len() implies cands[i] != cands[j] by {
                lemma_filter_distinct(keys, |k: QPathView| k.segments != base.segments, i, j, self@);
            }
            assert(qviews(order@) =~= seq![base]);
            assert(estimate_inv(m, cands, base, qviews(order@), qviews(missing@), chain@.chain));
        }
        while missing.len() > 0
            invariant
                m == self.spec_map(),
                cands == candidates(self@, base_path@),
                base == base_path@,
                rows_wf(self@),
                candidates(self@, base_path@).len() > 0 ==> self.spec_map().contains_key(base_path@),
                forall|v: QPathView, c: QPathView|
                    (v == base_path@ || candidates(self@, base_path@).contains(v)) && #[trigger] candidates(
                        self@,
                        base_path@,
                    ).contains(c) && v != c ==> #[trigger] self.spec_map()[v].contains_key(c),
                self@.len() < MAX_WEIGHED,
                forall|i: int| 0 <= i < self@.len() ==> (#[trigger] self@[i]).1.len() <= MAX_WEIGHED,
                cands.len() <= self@.len(),
                forall|i: int, j: int| 0 <= i < j < cands.len() ==> cands[i] != cands[j],
                chain@.chain.len() == order@.len(),
                estimate_inv(m, cands, base, qviews(order@), qviews(missing@), chain@.chain),
                counters_consistent(chain@),
            decreases missing@.len(),
        {
            let ghost o = qviews(order@);
            let ghost ms = qviews(missing@);
            proof {
                self.lemma_estimate_can_vote(base, o, ms, chain@.chain);
            }
            assert forall|k: int| 0 <= k < missing@.len() implies self.spec_map().contains_key(
                #[trigger] missing@[k]@,
            ) by {
                assert(ms[k] == missing@[k]@);
            }
            let (best, best_votes) = self.best_candidate(&order, &missing);
            let (w, w_votes) = self.pick_winner(&order, &missing, best, &best_votes);
            let ghost n = o.len() as int;
            let ghost wv = ms[w as int];
            proof {
                lemma_same_votes_weight(w_votes@.statistics, best_votes@.statistics);
                assert(w_votes@.statistics.len() == n);
                lemma_lowest(w_votes@.statistics);
                let l = lowest(w_votes@.statistics);
                let li = choose|li: int| 0 <= li < w_votes@.statistics.len() && w_votes@.statistics[li] == l;
                assert(l == m[o[li]][wv]);
                lemma_entry_path(self@, o[li], wv);
                lemma_count_bound(chain@.chain, l.kind);
            }
            let low = w_votes.get_lowest().clone();
            let ghost before_chain = chain@;
            chain.push(low);
            proof {
                law_chain_push_keeps_counters(before_chain, low@);
            }
            let winner = missing.remove(w);
            order.push(winner);
            proof {
                assert(qviews(order@) =~= o.push(wv));
                assert(qviews(missing@) =~= ms.remove(w as int));
                lemma_estimate_step(m, cands, base, o, ms, before_chain.chain, w as int, w_votes@.statistics);
            }
        }
        proof {
            let o = qviews(order@);
            assert(chain_order(base_path@, chain@.chain) =~= o);
            assert forall|i: int| 1 <= i < chain@.chain.len() implies (#[trigger] chain@.chain[i]) == lowest(
                votes_for(self.spec_map(), chain_order(base_path@, chain@.chain), i),
            ) by {
                assert(votes_for(m, o, i) =~= votes_against(m, o, i, o[i]));
            }
        }
        chain
    }

    /// In the loop of `estimate_best_path`, an outcome is recorded for
    /// merging each missing path onto each path chosen so far, and each
    /// missing path has a row.
    proof fn lemma_estimate_can_vote(
        &self,
        base: QPathView,
        o: Seq<QPathView>,
        ms: Seq<QPathView>,
        chain: Seq<MergeStatisticView>,
    )
        requires
            rows_wf(self@),
            ms.len() > 0,
            candidates(self@, base).len() > 0 ==> self.spec_map().contains_key(base),
            forall|v: QPathView, c: QPathView|
                (v == base || candidates(self@, base).contains(v)) && #[trigger] candidates(
                    self@,
                    base,
                ).contains(c) && v != c ==> #[trigger] self.spec_map()[v].contains_key(c),
            estimate_inv(self.spec_map(), candidates(self@, base), base, o, ms, chain),
        ensures
            can_vote(self.spec_map(), o, ms),
            forall|k: int| 0 <= k < ms.len() ==> self.spec_map().contains_key(#[trigger] ms[k]),
            o.len() <= MAX_WEIGHED || self@.len() >= MAX_WEIGHED,
    {
        let m = self.spec_map();
        let cands = candidates(self@, base);
        assert(cands.contains(ms[0]));
        assert forall|j: int, k: int| 0 <= j < o.len() && 0 <= k < ms.len() implies m.contains_key(
            #[trigger] o[j],
        ) && m[o[j]].contains_key(#[trigger] ms[k]) by {
            assert(cands.contains(ms[k]));
            lemma_candidate(self@, base, ms[k]);
            if j == 0 {
                assert(o[j] != ms[k]);
            } else {
                assert(cands.contains(o[j]));
                lemma_candidate(self@, base, o[j]);
                let x = choose|x: int| 0 <= x < self@.len() && (#[trigger] self@[x]).0 == o[j];
                lemma_row_key_in_map(self@, x);
            }
        }
        assert forall|k: int| 0 <= k < ms.len() implies m.contains_key(#[trigger] ms[k]) by {
            assert(cands.contains(ms[k]));
            lemma_candidate(self@, base, ms[k]);
            let x = choose|x: int| 0 <= x < self@.len() && (#[trigger] self@[x]).0 == ms[k];
            lemma_row_key_in_map(self@, x);
        }
        let keys = self@.map_values(|r: (QPathView, Seq<(QPathView, MergeStatisticView)>)| r.0);
        keys.lemma_filter_len(|k: QPathView| k.segments != base.segments);
    }

    /// The matrix of the chains, each of a base and one merged path.
    pub fn new(statistics: &MergeChainStatistics) -> (r: Self)
        requires
            forall|i: int|
                0 <= i < statistics@.statistics.len() ==> (#[trigger] statistics@.statistics[i]).chain.len()
                    == 2,
        ensures
            r.spec_map() == matrix_of(statistics@.statistics),
    {
        let chains = statistics.iter_all();
        let mut rows: Vec<MatrixRow> = Vec::new();
        let mut c: usize = 0;
        assert(row_views(rows@) =~= Seq::<(QPathView, Seq<(QPathView, MergeStatisticView)>)>::empty());
        assert(matrix_map(row_views(rows@)) =~= Map::<QPathView, Map<QPathView, MergeStatisticView>>::empty());
        while c < chains.len()
            invariant
                c <= chains@.len(),
                chain_views(chains@) == statistics@.statistics,
                forall|i: int|
                    0 <= i < statistics@.statistics.len() ==> (#[trigger] statistics@.statistics[i]).chain.len()
                        == 2,
                rows_wf(row_views(rows@)),
                matrix_map(row_views(rows@)) == matrix_of(chain_views(chains@).subrange(0, c as int)),
            decreases chains@.len() - c,
        {
            let chain = &chains[c];
            assert(chain@ == statistics@.statistics[c as int]);
            let base = chain.get(0).unwrap();
            let second = chain.get(1).unwrap();
            let ghost pre = chain_views(chains@).subrange(0, c as int);
            let ghost m = matrix_of(pre);
            proof {
                assert(chain_views(chains@).subrange(0, c + 1).drop_last() =~= pre);
                assert(chain_views(chains@).subrange(0, c + 1).last() == chain@);
            }
            let ghost before_rows = row_views(rows@);
            let ri = match Self::find_row(&rows, base.get_path()) {
                Some(i) => {
                    proof {
                        lemma_assoc_dom(mapped_rows(before_rows), base@.path);
                        assert(mapped_rows(before_rows)[i as int].0 == base@.path);
                        assert(distinct_keys(mapped_rows(before_rows))) by {
                            assert forall|a: int, b: int| 0 <= a < b < mapped_rows(before_rows).len()
                                implies (#[trigger] mapped_rows(before_rows)[a]).0 != (
                            #[trigger] mapped_rows(before_rows)[b]).0 by {
                                assert(before_rows[a].0 != before_rows[b].0);
                            }
                        }
                        lemma_assoc_get(mapped_rows(before_rows), i as int);
                    }
                    i
                },
                None => {
                    let row = MatrixRow { key: base.get_path().clone(), entries: Vec::new() };
                    assert(row.spec_entries() =~= Seq::<(QPathView, MergeStatisticView)>::empty());
                    rows.push(row);
                    proof {
                        assert(row_views(rows@) =~= before_rows.push((base@.path, Seq::empty())));
                        assert(mapped_rows(row_views(rows@)).drop_last() =~= mapped_rows(before_rows));
                        lemma_assoc_dom(mapped_rows(before_rows), base@.path);
                        assert(!m.contains_key(base@.path)) by {
                            if exists|i: int| 0 <= i < mapped_rows(before_rows).len() && (#[trigger] mapped_rows(before_rows)[i]).0 == base@.path {
                                let i = choose|i: int| 0 <= i < mapped_rows(before_rows).len() && (#[trigger] mapped_rows(before_rows)[i]).0 == base@.path;
                                assert(before_rows[i].0 == base@.path);
                            }
                        }
                        assert(assoc_map(Seq::<(QPathView, MergeStatisticView)>::empty()) =~= Map::<QPathView, MergeStatisticView>::empty());
                        assert forall|a: int, b: int| 0 <= a < b < row_views(rows@).len() implies (
                        #[trigger] row_views(rows@)[a]).0 != (#[trigger] row_views(rows@)[b]).0 by {
                            if b == row_views(rows@).len() - 1 {
                                assert(row_views(rows@)[a] == before_rows[a]);
                            } else {
                                assert(row_views(rows@)[a] == before_rows[a]);
                                assert(row_views(rows@)[b] == before_rows[b]);
                            }
                        }
                        assert forall|i: int| 0 <= i < row_views(rows@).len() implies distinct_keys(
                            #[trigger] row_views(rows@)[i].1,
                        ) by {
                            if i < row_views(rows@).len() - 1 {
                                assert(row_views(rows@)[i] == before_rows[i]);
                            }
                        }
                        assert forall|i: int, j: int|
                            0 <= i < row_views(rows@).len() && 0 <= j < row_views(rows@)[i].1.len()
                                implies (#[trigger] row_views(rows@)[i].1[j]).1.path == row_views(rows@)[i].1[j].0 by {
                            if i < row_views(rows@).len() - 1 {
                                assert(row_views(rows@)[i] == before_rows[i]);
                            }
                        }
                    }
                    rows.len() - 1
                },
            };
            let ghost rows1 = row_views(rows@);
            proof {
                assert(rows1[ri as int].0 == base@.path);
                assert(distinct_keys(mapped_rows(rows1))) by {
                    assert forall|a: int, b: int| 0 <= a < b < mapped_rows(rows1).len()
                        implies (#[trigger] mapped_rows(rows1)[a]).0 != (#[trigger] mapped_rows(rows1)[b]).0 by {
                        assert(rows1[a].0 != rows1[b].0);
                    }
                }
                lemma_assoc_get(mapped_rows(rows1), ri as int);
                assert(mapped_rows(rows1)[ri as int] == (base@.path, assoc_map(rows1[ri as int].1)));
                assert(assoc_map(rows1[ri as int].1) == if m.contains_key(base@.path) {
                    m[base@.path]
                } else {
                    Map::<QPathView, MergeStatisticView>::empty()
                });
            }
            let new_entries = entries_with(&rows[ri].entries, second.get_path(), second);
            let key = rows[ri].key.clone();
            let ghost ne = entry_views(new_entries@);
            rows.set(ri, MatrixRow { key, entries: new_entries });
            proof {
                assert(row_views(rows@) =~= rows1.update(ri as int, (base@.path, ne)));
                assert(mapped_rows(row_views(rows@)) =~= mapped_rows(rows1).update(
                    ri as int,
                    (base@.path, assoc_map(ne)),
                ));
                lemma_assoc_update(mapped_rows(rows1), ri as int, assoc_map(ne));
                let rv = row_views(rows@);
                assert forall|a: int, b: int| 0 <= a < b < rv.len() implies (#[trigger] rv[a]).0 != (
                #[trigger] rv[b]).0 by {
                    assert(rv[a].0 == rows1[a].0 && rv[b].0 == rows1[b].0);
                }
                assert forall|i: int| 0 <= i < rv.len() implies distinct_keys(#[trigger] rv[i].1) by {
                    if i != ri {
                        assert(rv[i] == rows1[i]);
                    }
                }
                assert forall|i: int, j: int| 0 <= i < rv.len() && 0 <= j < rv[i].1.len() implies (
                #[trigger] rv[i].1[j]).1.path == rv[i].1[j].0 by {
                    if i != ri {
                        assert(rv[i] == rows1[i]);
                    } else {
                        if rv[i].1[j] != (second@.path, second@) {
                            assert(rows1[i].1.contains(rv[i].1[j]));
                            let k = choose|k: int| 0 <= k < rows1[i].1.len() && rows1[i].1[k] == rv[i].1[j];
                            assert((#[trigger] rows1[i].1[k]).1.path == rows1[i].1[k].0);
                        }
                    }
                }
                assert(matrix_map(rv) =~= matrix_of(chain_views(chains@).subrange(0, c + 1)));
            }
            c = c + 1;
        }
        assert(chain_views(chains@).subrange(0, c as int) =~= statistics@.statistics);
        Self { rows }
    }
}

/// An injective sequence of `k` positions below `n`.
pub open spec fn is_k_permutation(p: Seq<usize>, n: nat, k: nat) -> bool {
    &&& p.len() == k
    &&& forall|i: int| 0 <= i < p.len() ==> (#[trigger] p[i]) < n
    &&& forall|i: int, j: int| 0 <= i < j < p.len() ==> p[i] != p[j]
}

/// A strictly increasing sequence of `k` positions below `n`.
pub open spec fn is_k_combination(p: Seq<usize>, n: nat, k: nat) -> bool {
    &&& p.len() == k
    &&& forall|i: int| 0 <= i < p.len() ==> (#[trigger] p[i]) < n
    &&& forall|i: int, j: int| 0 <= i < j < p.len() ==> p[i] < p[j]
}

/// The views of sequences of positions.
pub open spec fn index_views(v: Seq<Vec<usize>>) -> Seq<Seq<usize>> {
    v.map_values(|x: Vec<usize>| x@)
}

/// Calls `Itertools::permutations(k)` on the positions `0..n`. Claimed, as
/// its documentation says: it yields all `k`-permutations, each once (none
/// when `k > n`). The order in which they come is not stated.
#[verifier::external_body]
fn k_permutations(n: usize, k: usize) -> (r: Vec<Vec<usize>>)
    ensures
        forall|i: int| 0 <= i < r@.len() ==> is_k_permutation(#[trigger] r@[i]@, n as nat, k as nat),
        forall|p: Seq<usize>| is_k_permutation(p, n as nat, k as nat) ==> #[trigger] index_views(r@).contains(p),
        forall|i: int, j: int| 0 <= i < j < r@.len() ==> (#[trigger] r@[i])@ != (#[trigger] r@[j])@,
{
    itertools::Itertools::permutations(0..n, k).collect()
}

/// Calls `Itertools::combinations(k)` on the positions `0..n`. Claimed, as
/// its documentation and examples show: it yields every set of `k` positions
/// once, in increasing order within each. The order in which they come is not
/// stated.
#[verifier::external_body]
fn k_combinations(n: usize, k: usize) -> (r: Vec<Vec<usize>>)
    ensures
        forall|i: int| 0 <= i < r@.len() ==> is_k_combination(#[trigger] r@[i]@, n as nat, k as nat),
        forall|p: Seq<usize>| is_k_combination(p, n as nat, k as nat) ==> #[trigger] index_views(r@).contains(p),
        forall|i: int, j: int| 0 <= i < j < r@.len() ==> (#[trigger] r@[i])@ != (#[trigger] r@[j])@,
{
    itertools::Itertools::combinations(0..n, k).collect()
}

/// The chains to test: each `k`-permutation of the paths (positions into
/// them).
pub fn plan_k_permutations(n_paths: usize, k: usize) -> (r: Vec<Vec<usize>>)
    ensures
        forall|i: int| 0 <= i < r@.len() ==> is_k_permutation(#[trigger] r@[i]@, n_paths as nat, k as nat),
        forall|p: Seq<usize>| is_k_permutation(p, n_paths as nat, k as nat) ==> #[trigger] index_views(r@).contains(p),
        forall|i: int, j: int| 0 <= i < j < r@.len() ==> (#[trigger] r@[i])@ != (#[trigger] r@[j])@,
{
    k_permutations(n_paths, k)
}

/// A chain of a base (position 0) and targets (position `t + 1` for `t`).
pub open spec fn against_base(p: Seq<usize>) -> Seq<usize> {
    seq![0usize] + p.map_values(|y: usize| (y + 1) as usize)
}

/// The chains to test against a base: position 0 is the base, position
/// `t + 1` the target `t`; each chain is the base followed by a
/// `k`-permutation of the targets.
pub fn plan_permutations_against_base(n_targets: usize, k: usize) -> (r: Vec<Vec<usize>>)
    requires
        n_targets < usize::MAX,
    ensures
        forall|i: int|
            0 <= i < r@.len() ==> (#[trigger] r@[i])@.len() == k + 1 && r@[i]@[0] == 0
                && is_k_permutation(
                r@[i]@.drop_first().map_values(|x: usize| (x - 1) as usize),
                n_targets as nat,
                k as nat,
            ) && forall|j: int| 1 <= j < r@[i]@.len() ==> #[trigger] r@[i]@[j] >= 1,
        forall|p: Seq<usize>|
            is_k_permutation(p, n_targets as nat, k as nat) ==> #[trigger] index_views(r@).contains(
                against_base(p),
            ),
        forall|i: int, j: int| 0 <= i < j < r@.len() ==> (#[trigger] r@[i])@ != (#[trigger] r@[j])@,
{
    let perms = k_permutations(n_targets, k);
    let mut out: Vec<Vec<usize>> = Vec::new();
    let mut i: usize = 0;
    while i < perms.len()
        invariant
            i <= perms@.len(),
            n_targets < usize::MAX,
            forall|x: int| 0 <= x < perms@.len() ==> is_k_permutation(#[trigger] perms@[x]@, n_targets as nat, k as nat),
            out@.len() == i,
            forall|x: int|
                0 <= x < i ==> (#[trigger] out@[x])@ == against_base(perms@[x]@),
        decreases perms@.len() - i,
    {
        let p = &perms[i];
        let mut chain: Vec<usize> = Vec::new();
        chain.push(0);
        let mut j: usize = 0;
        while j < p.len()
            invariant
                j <= p@.len(),
                n_targets < usize::MAX,
                is_k_permutation(p@, n_targets as nat, k as nat),
                chain@ == seq![0usize] + p@.subrange(0, j as int).map_values(|y: usize| (y + 1) as usize),
            decreases p@.len() - j,
        {
            assert(p@[j as int] < n_targets);
            chain.push(p[j] + 1);
            assert(chain@ =~= seq![0usize] + p@.subrange(0, j + 1).map_values(|y: usize| (y + 1) as usize));
            j = j + 1;
        }
        assert(p@.subrange(0, j as int) =~= p@);
        assert(chain@ == against_base(p@));
        out.push(chain);
        i = i + 1;
    }
    proof {
        assert forall|x: int| 0 <= x < out@.len() implies (#[trigger] out@[x])@.len() == k + 1 && out@[x]@[0]
            == 0 && is_k_permutation(
            out@[x]@.drop_first().map_values(|y: usize| (y - 1) as usize),
            n_targets as nat,
            k as nat,
        ) && forall|j: int| 1 <= j < out@[x]@.len() ==> #[trigger] out@[x]@[j] >= 1 by {
            let p = perms@[x]@;
            assert(out@[x]@.drop_first().map_values(|y: usize| (y - 1) as usize) =~= p);
        }
        assert forall|p: Seq<usize>| is_k_permutation(p, n_targets as nat, k as nat) implies #[trigger] index_views(
            out@,
        ).contains(against_base(p)) by {
            assert(index_views(perms@).contains(p));
            let x = choose|x: int| 0 <= x < index_views(perms@).len() && index_views(perms@)[x] == p;
            assert(index_views(out@)[x] == out@[x]@);
        }
        assert forall|a: int, b: int| 0 <= a < b < out@.len() implies (#[trigger] out@[a])@ != (#[trigger] out@[b])@ by {
            let pa = perms@[a]@;
            let pb = perms@[b]@;
            if out@[a]@ == out@[b]@ {
                assert(against_base(pa).drop_first().map_values(|y: usize| (y - 1) as usize) =~= pa);
                assert(against_base(pb).drop_first().map_values(|y: usize| (y - 1) as usize) =~= pb);
                assert(perms@[a]@ != perms@[b]@);
            }
        }
    }
    out
}

/// The positions `c` moved up by `n`, followed by the position `p`.
pub open spec fn with_path(c: Seq<usize>, n: usize, p: usize) -> Seq<usize> {
    c.map_values(|y: usize| (y + n) as usize).push(p)
}

/// The entries of `items` in the order that `order` gives.
pub open spec fn arrange(order: Seq<usize>, items: Seq<usize>) -> Seq<usize> {
    order.map_values(|j: usize| items[j as int])
}

/// What a sequence of sequences contains stays contained when one more follows.
proof fn lemma_still_contains(s: Seq<Seq<usize>>, x: Seq<usize>, v: Seq<usize>)
    requires
        s.contains(v),
    ensures
        s.push(x).contains(v),
{
    let i = choose|i: int| 0 <= i < s.len() && s[i] == v;
    assert(s.push(x)[i] == v);
}

/// Distinct positions can be put in increasing order: the result holds the
/// same positions.
proof fn lemma_increasing_order(s: Seq<usize>) -> (c: Seq<usize>)
    requires
        s.no_duplicates(),
    ensures
        c.len() == s.len(),
        forall|i: int, j: int| 0 <= i < j < c.len() ==> c[i] < c[j],
        forall|v: usize| c.contains(v) <==> s.contains(v),
{
    broadcast use vstd::seq_lib::group_to_multiset_ensures;

    let leq = |a: usize, b: usize| a <= b;
    assert(vstd::relations::total_ordering(leq));
    s.lemma_sort_by_ensures(leq);
    let c = s.sort_by(leq);
    s.lemma_multiset_has_no_duplicates();
    assert forall|x: usize| c.to_multiset().contains(x) implies c.to_multiset().count(x) == 1 by {
        assert(s.to_multiset().contains(x));
    }
    c.lemma_multiset_has_no_duplicates_conv();
    assert forall|i: int, j: int| 0 <= i < j < c.len() implies c[i] < c[j] by {
        assert(leq(c[i], c[j]));
    }
    assert(c.to_multiset().len() == c.len());
    assert(s.to_multiset().len() == s.len());
    assert forall|v: usize| c.contains(v) <==> s.contains(v) by {
        assert(c.to_multiset().count(v) == s.to_multiset().count(v));
    }
    c
}

/// A chain of distinct positions with exactly one below `n` is one path,
/// `k` others in increasing order, and an order of the two together.
pub proof fn lemma_chain_parts(q: Seq<usize>, n: usize, a: usize, k: usize) -> (parts: (usize, Seq<usize>, Seq<usize>))
    requires
        n + a < usize::MAX,
        is_k_permutation(q, (n + a) as nat, (k + 1) as nat),
        exactly_one_below(q, n as nat),
    ensures
        parts.0 < n,
        is_k_combination(parts.1, a as nat, k as nat),
        is_k_permutation(parts.2, (k + 1) as nat, (k + 1) as nat),
        q == arrange(parts.2, with_path(parts.1, n, parts.0)),
{
    let i0 = choose|i: int|
        0 <= i < q.len() && q[i] < n && forall|j: int| 0 <= j < q.len() && j != i ==> q[j] >= n;
    let p = q[i0];
    let rest = q.remove(i0);
    assert forall|j: int| 0 <= j < rest.len() implies n <= #[trigger] rest[j] < n + a by {
        if j < i0 {
            assert(rest[j] == q[j]);
        } else {
            assert(rest[j] == q[j + 1]);
        }
    }
    let shifted = rest.map_values(|v: usize| (v - n) as usize);
    assert(shifted.no_duplicates()) by {
        assert forall|i: int, j: int| 0 <= i < shifted.len() && 0 <= j < shifted.len() && i != j implies shifted[i] != shifted[j] by {
            let qi = if i < i0 { i } else { i + 1 };
            let qj = if j < i0 { j } else { j + 1 };
            assert(rest[i] == q[qi]);
            assert(rest[j] == q[qj]);
            if qi < qj {
                assert(q[qi] != q[qj]);
            } else {
                assert(q[qj] != q[qi]);
            }
        }
    }
    let c = lemma_increasing_order(shifted);
    assert forall|t: int| 0 <= t < c.len() implies #[trigger] c[t] < a by {
        assert(c.contains(c[t]));
        assert(shifted.contains(c[t]));
    }
    let items = with_path(c, n, p);
    let o = Seq::new(
        (k + 1) as nat,
        |j: int|
            if j == i0 {
                k
            } else {
                (choose|t: int| 0 <= t < c.len() && #[trigger] c[t] == (q[j] - n) as usize) as usize
            },
    );
    assert forall|j: int| 0 <= j < o.len() implies #[trigger] o[j] < k + 1 && items[o[j] as int] == q[j] by {
        if j != i0 {
            let jr = if j < i0 { j } else { j - 1 };
            assert(rest[jr] == q[j]);
            assert(shifted[jr] == (q[j] - n) as usize);
            assert(shifted.contains((q[j] - n) as usize));
            assert(c.contains((q[j] - n) as usize));
            let t = choose|t: int| 0 <= t < c.len() && #[trigger] c[t] == (q[j] - n) as usize;
            assert(o[j] == t);
            assert(items[t] == (c[t] + n) as usize);
        }
    }
    assert forall|i: int, j: int| 0 <= i < j < o.len() implies o[i] != o[j] by {
        assert(items[o[i] as int] == q[i]);
        assert(items[o[j] as int] == q[j]);
    }
    assert(arrange(o, items) =~= q);
    (p, c, o)
}

/// A `k + 1`-permutation of the positions below `k + 1` holds each of them.
proof fn lemma_permutation_hits_all(order: Seq<usize>, k: int, v: int)
    requires
        k >= 0,
        0 <= v < k + 1,
        order.len() == k + 1,
        forall|i: int| 0 <= i < order.len() ==> (#[trigger] order[i]) < k + 1,
        forall|i: int, j: int| 0 <= i < j < order.len() ==> order[i] != order[j],
    ensures
        exists|w: int| 0 <= w < order.len() && order[w] == v,
{
    broadcast use vstd::set::group_set_axioms;

    if !(exists|w: int| 0 <= w < order.len() && order[w] == v) {
        let ints = order.map_values(|x: usize| x as int);
        assert(ints.no_duplicates()) by {
            assert forall|i: int, j: int| 0 <= i < ints.len() && 0 <= j < ints.len() && i != j implies ints[i]
                != ints[j] by {
                if i < j {
                    assert(order[i] != order[j]);
                } else {
                    assert(order[j] != order[i]);
                }
            }
        }
        ints.unique_seq_to_set();
        vstd::set_lib::lemma_int_range(0, k + 1);
        let range = vstd::set_lib::set_int_range(0, k + 1);
        assert(range.contains(v));
        assert(range.remove(v).len() == k);
        assert(ints.to_set().subset_of(range.remove(v))) by {
            assert forall|x: int| ints.to_set().contains(x) implies range.remove(v).contains(x) by {
                let i = choose|i: int| 0 <= i < ints.len() && ints[i] == x;
                assert(order[i] != v);
                assert(order[i] < k + 1);
            }
        }
        vstd::set_lib::lemma_len_subset(ints.to_set(), range.remove(v));
    }
}

/// Two increasing sequences with the same entries are equal.
proof fn lemma_increasing_same(a: Seq<usize>, b: Seq<usize>)
    requires
        a.len() == b.len(),
        forall|i: int, j: int| 0 <= i < j < a.len() ==> a[i] < a[j],
        forall|i: int, j: int| 0 <= i < j < b.len() ==> b[i] < b[j],
        forall|v: usize| a.contains(v) <==> b.contains(v),
    ensures
        a == b,
    decreases a.len(),
{
    if a.len() > 0 {
        assert(a.contains(a[0]));
        assert(b.contains(b[0]));
        let ja = choose|j: int| 0 <= j < b.len() && b[j] == a[0];
        let jb = choose|j: int| 0 <= j < a.len() && a[j] == b[0];
        if ja > 0 {
            assert(b[0] < b[ja]);
        }
        if jb > 0 {
            assert(a[0] < a[jb]);
        }
        assert(a[0] == b[0]);
        let ra = a.drop_first();
        let rb = b.drop_first();
        assert forall|v: usize| ra.contains(v) <==> rb.contains(v) by {
            if ra.contains(v) {
                let i = choose|i: int| 0 <= i < ra.len() && ra[i] == v;
                assert(a[i + 1] == v);
                assert(a[0] < a[i + 1]);
                assert(b.contains(v));
                let j = choose|j: int| 0 <= j < b.len() && b[j] == v;
                assert(j != 0);
                assert(rb[j - 1] == v);
            }
            if rb.contains(v) {
                let i = choose|i: int| 0 <= i < rb.len() && rb[i] == v;
                assert(b[i + 1] == v);
                assert(b[0] < b[i + 1]);
                assert(a.contains(v));
                let j = choose|j: int| 0 <= j < a.len() && a[j] == v;
                assert(j != 0);
                assert(ra[j - 1] == v);
            }
        }
        lemma_increasing_same(ra, rb);
        assert(a =~= seq![a[0]] + ra);
        assert(b =~= seq![b[0]] + rb);
    } else {
        assert(a =~= b);
    }
}

/// The chain `v` is the one planned for path `t.0`, the combination at
/// `t.1` and the order at `t.2`.
pub open spec fn made_at(
    v: Seq<usize>,
    combinations: Seq<Seq<usize>>,
    orders: Seq<Seq<usize>>,
    n: usize,
    t: (int, int, int),
) -> bool {
    &&& 0 <= t.0 < n
    &&& 0 <= t.1 < combinations.len()
    &&& 0 <= t.2 < orders.len()
    &&& v == arrange(orders[t.2], with_path(combinations[t.1], n, t.0 as usize))
}

/// `t` comes before `(p, c, o)` in the order of the plan's loops.
pub open spec fn lex_before(t: (int, int, int), p: int, c: int, o: int) -> bool {
    t.0 < p || (t.0 == p && (t.1 < c || (t.1 == c && t.2 < o)))
}

/// A chain determines the path, the others and the order it was made from.
pub proof fn lemma_arrange_injective(
    n: usize,
    a: usize,
    k: usize,
    p1: usize,
    c1: Seq<usize>,
    o1: Seq<usize>,
    p2: usize,
    c2: Seq<usize>,
    o2: Seq<usize>,
)
    requires
        n + a < usize::MAX,
        p1 < n,
        p2 < n,
        is_k_combination(c1, a as nat, k as nat),
        is_k_combination(c2, a as nat, k as nat),
        is_k_permutation(o1, (k + 1) as nat, (k + 1) as nat),
        is_k_permutation(o2, (k + 1) as nat, (k + 1) as nat),
        arrange(o1, with_path(c1, n, p1)) == arrange(o2, with_path(c2, n, p2)),
    ensures
        p1 == p2,
        c1 == c2,
        o1 == o2,
{
    let i1 = with_path(c1, n, p1);
    let i2 = with_path(c2, n, p2);
    let q = arrange(o1, i1);
    assert(q == arrange(o2, i2));
    lemma_permutation_hits_all(o1, k as int, k as int);
    lemma_permutation_hits_all(o2, k as int, k as int);
    let w1 = choose|w: int| 0 <= w < o1.len() && o1[w] == k;
    let w2 = choose|w: int| 0 <= w < o2.len() && o2[w] == k;
    assert(q[w2] == i2[k as int]);
    assert(q[w2] == i1[o1[w2] as int]);
    if o1[w2] != k {
        assert(i1[o1[w2] as int] >= n);
    }
    assert(p1 == p2);
    assert forall|v: usize| c1.contains(v) <==> c2.contains(v) by {
        if c1.contains(v) {
            let t = choose|t: int| 0 <= t < c1.len() && c1[t] == v;
            lemma_permutation_hits_all(o1, k as int, t);
            let w = choose|w: int| 0 <= w < o1.len() && o1[w] == t;
            assert(q[w] == i1[t]);
            assert(q[w] == i2[o2[w] as int]);
            if o2[w] == k {
                assert(false);
            }
            assert(c2[o2[w] as int] == v);
        }
        if c2.contains(v) {
            let t = choose|t: int| 0 <= t < c2.len() && c2[t] == v;
            lemma_permutation_hits_all(o2, k as int, t);
            let w = choose|w: int| 0 <= w < o2.len() && o2[w] == t;
            assert(q[w] == i2[t]);
            assert(q[w] == i1[o1[w] as int]);
            if o1[w] == k {
                assert(false);
            }
            assert(c1[o1[w] as int] == v);
        }
    }
    lemma_increasing_same(c1, c2);
    assert(i1 == i2);
    assert forall|j: int| 0 <= j < o1.len() implies o1[j] == o2[j] by {
        assert(q[j] == i1[o1[j] as int]);
        assert(q[j] == i2[o2[j] as int]);
        if o1[j] != o2[j] {
            if o1[j] < k && o2[j] < k {
                if o1[j] < o2[j] {
                    assert(c1[o1[j] as int] < c1[o2[j] as int]);
                } else {
                    assert(c1[o2[j] as int] < c1[o1[j] as int]);
                }
            }
        }
    }
    assert(o1 =~= o2);
}

/// The chains to test each of `n_count` paths against `k` of `a_count`
/// others: positions below `n_count` are the paths, `n_count + t` the other
/// `t`. For each path and each set of `k` others, every order of the path
/// and those others is a chain.
pub fn plan_n_against_permutations(n_count: usize, a_count: usize, k: usize) -> (r: Vec<Vec<usize>>)
    requires
        n_count + a_count < usize::MAX,
        k < usize::MAX,
    ensures
        forall|i: int|
            0 <= i < r@.len() ==> is_k_permutation(#[trigger] r@[i]@, (n_count + a_count) as nat, (k + 1) as nat),
        forall|i: int|
            0 <= i < r@.len() ==> exactly_one_below(#[trigger] r@[i]@, n_count as nat),
        forall|p: usize, c: Seq<usize>, o: Seq<usize>|
            p < n_count && is_k_combination(c, a_count as nat, k as nat) && is_k_permutation(
                o,
                (k + 1) as nat,
                (k + 1) as nat,
            ) ==> #[trigger] index_views(r@).contains(arrange(o, with_path(c, n_count, p))),
        forall|q: Seq<usize>|
            is_k_permutation(q, (n_count + a_count) as nat, (k + 1) as nat) && exactly_one_below(
                q,
                n_count as nat,
            ) ==> #[trigger] index_views(r@).contains(q),
        forall|i: int, j: int| 0 <= i < j < r@.len() ==> (#[trigger] r@[i])@ != (#[trigger] r@[j])@,
{
    let combinations = k_combinations(a_count, k);
    let orders = k_permutations(k + 1, k + 1);
    let ghost cv = index_views(combinations@);
    let ghost ov = index_views(orders@);
    let ghost mut ts: Seq<(int, int, int)> = Seq::empty();
    let mut out: Vec<Vec<usize>> = Vec::new();
    let mut p: usize = 0;
    while p < n_count
        invariant
            p <= n_count,
            n_count + a_count < usize::MAX,
            k < usize::MAX,
            forall|x: int| 0 <= x < combinations@.len() ==> is_k_combination(#[trigger] combinations@[x]@, a_count as nat, k as nat),
            forall|c: Seq<usize>| is_k_combination(c, a_count as nat, k as nat) ==> #[trigger] index_views(combinations@).contains(c),
            forall|x: int| 0 <= x < orders@.len() ==> is_k_permutation(#[trigger] orders@[x]@, (k + 1) as nat, (k + 1) as nat),
            forall|o: Seq<usize>| is_k_permutation(o, (k + 1) as nat, (k + 1) as nat) ==> #[trigger] index_views(orders@).contains(o),
            forall|i: int|
                0 <= i < out@.len() ==> is_k_permutation(#[trigger] out@[i]@, (n_count + a_count) as nat, (k + 1) as nat),
            forall|i: int| 0 <= i < out@.len() ==> exactly_one_below(#[trigger] out@[i]@, n_count as nat),
            forall|p2: usize, c: Seq<usize>, o: Seq<usize>|
                p2 < p && is_k_combination(c, a_count as nat, k as nat) && is_k_permutation(
                    o,
                    (k + 1) as nat,
                    (k + 1) as nat,
                ) ==> #[trigger] index_views(out@).contains(arrange(o, with_path(c, n_count, p2))),
            cv == index_views(combinations@),
            ov == index_views(orders@),
            forall|i: int, j: int| 0 <= i < j < combinations@.len() ==> (#[trigger] combinations@[i])@ != (#[trigger] combinations@[j])@,
            forall|i: int, j: int| 0 <= i < j < orders@.len() ==> (#[trigger] orders@[i])@ != (#[trigger] orders@[j])@,
            ts.len() == out@.len(),
                forall|x: int| #![trigger ts[x]] 0 <= x < ts.len() ==> made_at(index_views(out@)[x], cv, ov, n_count, ts[x]) && lex_before(ts[x], p as int, 0, 0),
            forall|x: int, y: int| 0 <= x < y < out@.len() ==> (#[trigger] out@[x])@ != (#[trigger] out@[y])@,
        decreases n_count - p,
    {
        let mut c: usize = 0;
        proof {
            assert forall|x: int| #![trigger ts[x]] 0 <= x < ts.len() implies made_at(index_views(out@)[x], cv, ov, n_count, ts[x]) && lex_before(ts[x], p as int, 0, 0) by {
                assert(made_at(index_views(out@)[x], cv, ov, n_count, ts[x]));
            }
        }
        while c < combinations.len()
            invariant
                c <= combinations@.len(),
                p < n_count,
                n_count + a_count < usize::MAX,
                k < usize::MAX,
                forall|x: int| 0 <= x < combinations@.len() ==> is_k_combination(#[trigger] combinations@[x]@, a_count as nat, k as nat),
                forall|x: int| 0 <= x < orders@.len() ==> is_k_permutation(#[trigger] orders@[x]@, (k + 1) as nat, (k + 1) as nat),
                forall|o: Seq<usize>| is_k_permutation(o, (k + 1) as nat, (k + 1) as nat) ==> #[trigger] index_views(orders@).contains(o),
                forall|i: int|
                    0 <= i < out@.len() ==> is_k_permutation(#[trigger] out@[i]@, (n_count + a_count) as nat, (k + 1) as nat),
                forall|i: int| 0 <= i < out@.len() ==> exactly_one_below(#[trigger] out@[i]@, n_count as nat),
                forall|p2: usize, c2: Seq<usize>, o: Seq<usize>|
                    p2 < p && is_k_combination(c2, a_count as nat, k as nat) && is_k_permutation(
                        o,
                        (k + 1) as nat,
                        (k + 1) as nat,
                    ) ==> #[trigger] index_views(out@).contains(arrange(o, with_path(c2, n_count, p2))),
                forall|x: int, o: Seq<usize>|
                    0 <= x < c && is_k_permutation(o, (k + 1) as nat, (k + 1) as nat)
                        ==> #[trigger] index_views(out@).contains(arrange(o, with_path(combinations@[x]@, n_count, p))),
                cv == index_views(combinations@),
                ov == index_views(orders@),
                forall|i: int, j: int| 0 <= i < j < combinations@.len() ==> (#[trigger] combinations@[i])@ != (#[trigger] combinations@[j])@,
                forall|i: int, j: int| 0 <= i < j < orders@.len() ==> (#[trigger] orders@[i])@ != (#[trigger] orders@[j])@,
                ts.len() == out@.len(),
                forall|x: int| #![trigger ts[x]] 0 <= x < ts.len() ==> made_at(index_views(out@)[x], cv, ov, n_count, ts[x]) && lex_before(ts[x], p as int, c as int, 0),
                forall|x: int, y: int| 0 <= x < y < out@.len() ==> (#[trigger] out@[x])@ != (#[trigger] out@[y])@,
            decreases combinations@.len() - c,
        {
            let combination = &combinations[c];
            let mut items: Vec<usize> = Vec::new();
            let mut x: usize = 0;
            while x < combination.len()
                invariant
                    x <= combination@.len(),
                    n_count + a_count < usize::MAX,
                    is_k_combination(combination@, a_count as nat, k as nat),
                    items@ == combination@.subrange(0, x as int).map_values(|y: usize| (y + n_count) as usize),
                decreases combination@.len() - x,
            {
                assert(combination@[x as int] < a_count);
                items.push(combination[x] + n_count);
                assert(items@ =~= combination@.subrange(0, x + 1).map_values(|y: usize| (y + n_count) as usize));
                x = x + 1;
            }
            items.push(p);
            proof {
                assert(combination@.subrange(0, x as int) =~= combination@);
                assert(items@ == with_path(combination@, n_count, p));
                assert(items@.len() == k + 1);
                assert forall|a: int, b: int| 0 <= a < b < items@.len() implies items@[a] != items@[b] by {
                    if b < k {
                        assert(combination@[a] < combination@[b]);
                    }
                }
            }
            let mut o: usize = 0;
            proof {
                assert forall|x: int| #![trigger ts[x]] 0 <= x < ts.len() implies made_at(index_views(out@)[x], cv, ov, n_count, ts[x]) && lex_before(ts[x], p as int, c as int, 0) by {
                    assert(made_at(index_views(out@)[x], cv, ov, n_count, ts[x]));
                }
            }
            while o < orders.len()
                invariant
                    o <= orders@.len(),
                    p < n_count,
                    c < combinations@.len(),
                    combination@ == combinations@[c as int]@,
                    n_count + a_count < usize::MAX,
                    items@.len() == k + 1,
                    items@ == with_path(combination@, n_count, p),
                    items@[k as int] == p,
                    forall|y: int| 0 <= y < k ==> n_count <= #[trigger] items@[y] < n_count + a_count,
                    forall|a: int, b: int| 0 <= a < b < items@.len() ==> items@[a] != items@[b],
                    forall|y: int| 0 <= y < orders@.len() ==> is_k_permutation(#[trigger] orders@[y]@, (k + 1) as nat, (k + 1) as nat),
                    forall|i: int|
                        0 <= i < out@.len() ==> is_k_permutation(#[trigger] out@[i]@, (n_count + a_count) as nat, (k + 1) as nat),
                    forall|i: int| 0 <= i < out@.len() ==> exactly_one_below(#[trigger] out@[i]@, n_count as nat),
                    forall|p2: usize, c2: Seq<usize>, o2: Seq<usize>|
                        p2 < p && is_k_combination(c2, a_count as nat, k as nat) && is_k_permutation(
                            o2,
                            (k + 1) as nat,
                            (k + 1) as nat,
                        ) ==> #[trigger] index_views(out@).contains(arrange(o2, with_path(c2, n_count, p2))),
                    forall|x: int, o2: Seq<usize>|
                        0 <= x < c && is_k_permutation(o2, (k + 1) as nat, (k + 1) as nat)
                            ==> #[trigger] index_views(out@).contains(arrange(o2, with_path(combinations@[x]@, n_count, p))),
                    forall|y: int| 0 <= y < o ==> #[trigger] index_views(out@).contains(arrange(orders@[y]@, items@)),
                    cv == index_views(combinations@),
                    ov == index_views(orders@),
                    forall|i: int, j: int| 0 <= i < j < combinations@.len() ==> (#[trigger] combinations@[i])@ != (#[trigger] combinations@[j])@,
                    forall|i: int, j: int| 0 <= i < j < orders@.len() ==> (#[trigger] orders@[i])@ != (#[trigger] orders@[j])@,
                    forall|x: int| 0 <= x < combinations@.len() ==> is_k_combination(#[trigger] combinations@[x]@, a_count as nat, k as nat),
                    ts.len() == out@.len(),
                forall|x: int| #![trigger ts[x]] 0 <= x < ts.len() ==> made_at(index_views(out@)[x], cv, ov, n_count, ts[x]) && lex_before(ts[x], p as int, c as int, o as int),
                    forall|x: int, y: int| 0 <= x < y < out@.len() ==> (#[trigger] out@[x])@ != (#[trigger] out@[y])@,
                decreases orders@.len() - o,
            {
                let order = &orders[o];
                let mut chain: Vec<usize> = Vec::new();
                let mut y: usize = 0;
                while y < order.len()
                    invariant
                        y <= order@.len(),
                        is_k_permutation(order@, (k + 1) as nat, (k + 1) as nat),
                        items@.len() == k + 1,
                        chain@ == order@.subrange(0, y as int).map_values(|q: usize| items@[q as int]),
                    decreases order@.len() - y,
                {
                    chain.push(items[order[y]]);
                    assert(chain@ =~= order@.subrange(0, y + 1).map_values(|q: usize| items@[q as int]));
                    y = y + 1;
                }
                proof {
                    assert(order@.subrange(0, y as int) =~= order@);
                    assert(chain@ == arrange(order@, items@));
                    let ch = chain@;
                    assert forall|a: int, b: int| 0 <= a < b < ch.len() implies ch[a] != ch[b] by {
                        assert(order@[a] != order@[b]);
                    }
                    assert forall|a: int| 0 <= a < ch.len() implies (#[trigger] ch[a]) < n_count + a_count by {
                        assert(order@[a] < k + 1);
                    }
                    assert(exactly_one_below(ch, n_count as nat)) by {
                        lemma_exactly_one(order@, items@, k as int, n_count as int);
                    }
                }
                let ghost before = index_views(out@);
                let ghost before_out = out@;
                proof {
                    assert forall|x: int| 0 <= x < before_out.len() implies before_out[x]@ != chain@ by {
                        assert(index_views(before_out)[x] == before_out[x]@);
                        let t = ts[x];
                        assert(made_at(index_views(before_out)[x], cv, ov, n_count, t));
                        if before_out[x]@ == chain@ {
                            assert(cv[t.1] == combinations@[t.1]@);
                            assert(ov[t.2] == orders@[t.2]@);
                            assert(is_k_combination(combinations@[t.1]@, a_count as nat, k as nat));
                            assert(is_k_permutation(orders@[t.2]@, (k + 1) as nat, (k + 1) as nat));
                            lemma_arrange_injective(
                                n_count,
                                a_count,
                                k,
                                t.0 as usize,
                                cv[t.1],
                                ov[t.2],
                                p,
                                combination@,
                                order@,
                            );
                            if t.1 != c {
                                if t.1 < c {
                                    assert(combinations@[t.1]@ != combinations@[c as int]@);
                                } else {
                                    assert(combinations@[c as int]@ != combinations@[t.1]@);
                                }
                            }
                            if t.2 != o {
                                if t.2 < o {
                                    assert(orders@[t.2]@ != orders@[o as int]@);
                                } else {
                                    assert(orders@[o as int]@ != orders@[t.2]@);
                                }
                            }
                        }
                    }
                }
                out.push(chain);
                proof {
                    assert(index_views(out@) =~= before.push(chain@));
                    assert(before == index_views(before_out));
                    assert(made_at(chain@, cv, ov, n_count, (p as int, c as int, o as int)));
                    ts = ts.push((p as int, c as int, o as int));
                    assert forall|x: int| #![trigger ts[x]] 0 <= x < ts.len() implies made_at(index_views(out@)[x], cv, ov, n_count, ts[x])
                        && lex_before(ts[x], p as int, c as int, o + 1) by {
                        if x < before.len() {
                            assert(index_views(out@)[x] == before[x]);
                        }
                    }
                    assert forall|x: int, y: int| 0 <= x < y < out@.len() implies (#[trigger] out@[x])@ != (#[trigger] out@[y])@ by {
                        assert(out@[x] == before_out[x]);
                        if y < before_out.len() {
                            assert(out@[y] == before_out[y]);
                        }
                    }
                    assert(index_views(out@) =~= before.push(chain@));
                    assert(index_views(out@)[before.len() as int] == chain@);
                    assert forall|p2: usize, c2: Seq<usize>, o2: Seq<usize>|
                        p2 < p && is_k_combination(c2, a_count as nat, k as nat) && is_k_permutation(
                            o2,
                            (k + 1) as nat,
                            (k + 1) as nat,
                        ) implies #[trigger] index_views(out@).contains(arrange(o2, with_path(c2, n_count, p2))) by {
                        lemma_still_contains(before, chain@, arrange(o2, with_path(c2, n_count, p2)));
                    }
                    assert forall|x: int, o2: Seq<usize>|
                        0 <= x < c && is_k_permutation(o2, (k + 1) as nat, (k + 1) as nat)
                            implies #[trigger] index_views(out@).contains(arrange(o2, with_path(combinations@[x]@, n_count, p))) by {
                        lemma_still_contains(before, chain@, arrange(o2, with_path(combinations@[x]@, n_count, p)));
                    }
                    assert forall|y: int| 0 <= y < o + 1 implies #[trigger] index_views(out@).contains(arrange(orders@[y]@, items@)) by {
                        if y < o {
                            lemma_still_contains(before, chain@, arrange(orders@[y]@, items@));
                        }
                    }
                }
                proof {
                    assert forall|x: int| #![trigger ts[x]] 0 <= x < ts.len() implies made_at(index_views(out@)[x], cv, ov, n_count, ts[x]) && lex_before(ts[x], p as int, c as int, o + 1) by {
                        assert(made_at(index_views(out@)[x], cv, ov, n_count, ts[x]));
                    }
                }
                o = o + 1;
            }
            proof {
                assert forall|x: int, o2: Seq<usize>|
                    0 <= x < c + 1 && is_k_permutation(o2, (k + 1) as nat, (k + 1) as nat)
                        implies #[trigger] index_views(out@).contains(arrange(o2, with_path(combinations@[x]@, n_count, p))) by {
                    if x == c {
                        assert(index_views(orders@).contains(o2));
                        let y = choose|y: int| 0 <= y < index_views(orders@).len() && index_views(orders@)[y] == o2;
                        assert(orders@[y]@ == o2);
                        assert(index_views(out@).contains(arrange(orders@[y]@, items@)));
                    }
                }
            }
            proof {
                assert forall|x: int| #![trigger ts[x]] 0 <= x < ts.len() implies made_at(index_views(out@)[x], cv, ov, n_count, ts[x]) && lex_before(ts[x], p as int, c + 1, 0) by {
                    assert(made_at(index_views(out@)[x], cv, ov, n_count, ts[x]));
                }
            }
            c = c + 1;
        }
        proof {
            assert forall|p2: usize, c2: Seq<usize>, o2: Seq<usize>|
                p2 < p + 1 && is_k_combination(c2, a_count as nat, k as nat) && is_k_permutation(
                    o2,
                    (k + 1) as nat,
                    (k + 1) as nat,
                ) implies #[trigger] index_views(out@).contains(arrange(o2, with_path(c2, n_count, p2))) by {
                if p2 == p {
                    assert(index_views(combinations@).contains(c2));
                    let x = choose|x: int| 0 <= x < index_views(combinations@).len() && index_views(combinations@)[x] == c2;
                    assert(combinations@[x]@ == c2);
                    assert(index_views(out@).contains(arrange(o2, with_path(combinations@[x]@, n_count, p))));
                }
            }
        }
        proof {
            assert forall|x: int| #![trigger ts[x]] 0 <= x < ts.len() implies made_at(index_views(out@)[x], cv, ov, n_count, ts[x]) && lex_before(ts[x], p + 1, 0, 0) by {
                assert(made_at(index_views(out@)[x], cv, ov, n_count, ts[x]));
            }
        }
        p = p + 1;
    }
    proof {
        assert forall|i: int, j: int| 0 <= i < j < out@.len() implies (#[trigger] out@[i])@ != (#[trigger] out@[j])@ by {}
        assert forall|q: Seq<usize>|
            is_k_permutation(q, (n_count + a_count) as nat, (k + 1) as nat) && exactly_one_below(
                q,
                n_count as nat,
            ) implies #[trigger] index_views(out@).contains(q) by {
            let parts = lemma_chain_parts(q, n_count, a_count, k);
            assert(index_views(out@).contains(arrange(parts.2, with_path(parts.1, n_count, parts.0))));
        }
    }
    out
}

/// Exactly one entry lies below `n`.
pub open spec fn exactly_one_below(p: Seq<usize>, n: nat) -> bool {
    exists|i: int| 0 <= i < p.len() && p[i] < n && forall|j: int| 0 <= j < p.len() && j != i ==> p[j] >= n
}

/// A permutation of items of which only the last lies below `n` has exactly
/// one entry below `n`.
pub proof fn lemma_exactly_one(order: Seq<usize>, items: Seq<usize>, k: int, n: int)
    requires
        k >= 0,
        items.len() == k + 1,
        items[k] < n,
        forall|y: int| 0 <= y < k ==> n <= #[trigger] items[y],
        order.len() == k + 1,
        forall|i: int| 0 <= i < order.len() ==> (#[trigger] order[i]) < k + 1,
        forall|i: int, j: int| 0 <= i < j < order.len() ==> order[i] != order[j],
    ensures
        exactly_one_below(order.map_values(|q: usize| items[q as int]), n as nat),
{
    let ch = order.map_values(|q: usize| items[q as int]);
    lemma_permutation_hits(order, k);
    let w = choose|w: int| 0 <= w < order.len() && order[w] == k;
    assert(ch[w] < n);
    assert forall|j: int| 0 <= j < ch.len() && j != w implies ch[j] >= n by {
        assert(order[j] != order[w]);
        assert(order[j] < k);
    }
}

/// A permutation of `0..=k` contains `k`.
pub proof fn lemma_permutation_hits(order: Seq<usize>, k: int)
    requires
        k >= 0,
        order.len() == k + 1,
        forall|i: int| 0 <= i < order.len() ==> (#[trigger] order[i]) < k + 1,
        forall|i: int, j: int| 0 <= i < j < order.len() ==> order[i] != order[j],
    ensures
        exists|w: int| 0 <= w < order.len() && order[w] == k,
{
    if !(exists|w: int| 0 <= w < order.len() && order[w] == k) {
        let ints = order.map_values(|x: usize| x as int);
        assert(ints.no_duplicates()) by {
            assert forall|i: int, j: int| 0 <= i < ints.len() && 0 <= j < ints.len() && i != j implies ints[i]
                != ints[j] by {
                if i < j {
                    assert(order[i] != order[j]);
                } else {
                    assert(order[j] != order[i]);
                }
            }
        }
        ints.unique_seq_to_set();
        vstd::set_lib::lemma_int_range(0, k);
        assert(ints.to_set().subset_of(vstd::set_lib::set_int_range(0, k))) by {
            assert forall|x: int| ints.to_set().contains(x) implies vstd::set_lib::set_int_range(0, k).contains(x) by {
                let i = choose|i: int| 0 <= i < ints.len() && ints[i] == x;
                assert(order[i] != k);
                assert(order[i] < k + 1);
            }
        }
        vstd::set_lib::lemma_len_subset(ints.to_set(), vstd::set_lib::set_int_range(0, k));
    }
}

/// The chain to test in the given order: each position once, in turn.
pub fn plan_by_order(n_paths: usize) -> (r: Vec<usize>)
    ensures
        r@.len() == n_paths,
        forall|i: int| 0 <= i < r@.len() ==> (#[trigger] r@[i]) == i,
{
    let mut out: Vec<usize> = Vec::new();
    let mut i: usize = 0;
    while i < n_paths
        invariant
            i <= n_paths,
            out@.len() == i,
            forall|x: int| 0 <= x < i ==> (#[trigger] out@[x]) == x,
        decreases n_paths - i,
    {
        out.push(i);
        i = i + 1;
    }
    out
}

/// The progress of testing one chain: each path is merged onto the result of
/// the previous merges, until a merge conflicts; the paths after that are
/// not merged and count as aborted.
pub struct ChainCheck {
    statistic: MergeChainStatistic,
    skip: bool,
}

impl ChainCheck {
    /// The outcomes so far.
    pub closed spec fn spec_statistic(&self) -> MergeChainView {
        self.statistic@
    }

    /// Whether a merge conflicted, so that the remaining paths are skipped.
    pub closed spec fn spec_skipping(&self) -> bool {
        self.skip
    }

    /// A check starting from `base`.
    pub fn start(base: NormalizedPath) -> (r: Self)
        ensures
            r.spec_statistic().chain == seq![MergeStatisticView { kind: MergeKind::Base, path: base@ }],
            counters_consistent(r.spec_statistic()),
            !r.spec_skipping(),
    {
        let mut statistic = MergeChainStatistic::new();
        let ghost empty = statistic@;
        statistic.push(MergeStatistic::Base(base));
        proof {
            assert(counters_consistent(empty)) by {
                assert(empty.chain =~= Seq::<MergeStatisticView>::empty());
            }
            law_chain_push_keeps_counters(empty, statistic@.chain[0]);
            assert(statistic@.chain =~= seq![statistic@.chain[0]]);
        }
        Self { statistic, skip: false }
    }

    /// Whether the next path is to be merged (no merge has conflicted).
    pub fn needs_merge(&self) -> (r: bool)
        ensures
            r == !self.spec_skipping(),
    {
        !self.skip
    }

    /// Records a path that is not merged because an earlier merge conflicted.
    pub fn record_aborted(&mut self, path: NormalizedPath)
        requires
            old(self).spec_skipping(),
            counters_consistent(old(self).spec_statistic()),
            old(self).spec_statistic().chain.len() >= 1,
            old(self).spec_statistic().chain.len() < usize::MAX,
        ensures
            final(self).spec_statistic() == spec_chain_push(
                old(self).spec_statistic(),
                MergeStatisticView { kind: MergeKind::Aborted, path: path@ },
            ),
            final(self).spec_skipping(),
            counters_consistent(final(self).spec_statistic()),
    {
        proof {
            lemma_count_bound(self.statistic@.chain, MergeKind::Aborted);
        }
        let ghost before = self.statistic@;
        let stat = MergeStatistic::Aborted(path);
        let ghost sv = stat@;
        self.statistic.push(stat);
        proof {
            law_chain_push_keeps_counters(before, sv);
        }
    }

    /// Records the outcome of merging the next path: the second outcome of
    /// `merged` (the merge onto the current state). Returns whether the merge
    /// conflicted and is to be aborted; the remaining paths are then skipped.
    pub fn record_merge(&mut self, merged: &MergeChainStatistic) -> (abort: bool)
        requires
            !old(self).spec_skipping(),
            counters_consistent(old(self).spec_statistic()),
            old(self).spec_statistic().chain.len() >= 1,
            merged@.chain.len() >= 2,
            old(self).spec_statistic().chain.len() < usize::MAX,
        ensures
            abort == (merged@.n_conflict > 0),
            final(self).spec_skipping() == abort,
            final(self).spec_statistic() == spec_chain_push(old(self).spec_statistic(), merged@.chain[1]),
            counters_consistent(final(self).spec_statistic()),
    {
        proof {
            lemma_count_bound(self.statistic@.chain, merged@.chain[1].kind);
        }
        let abort = merged.contains_conflicts();
        let stat = merged.get(1).unwrap().clone();
        let ghost before = self.statistic@;
        let ghost sv = stat@;
        self.statistic.push(stat);
        proof {
            law_chain_push_keeps_counters(before, sv);
        }
        self.skip = abort;
        abort
    }

    /// The outcomes of the chain.
    pub fn finish(self) -> (r: MergeChainStatistic)
        ensures
            r@ == self.spec_statistic(),
    {
        self.statistic
    }
}

/// The kind of statistic that a merge outcome gives: a failed merge counts
/// as aborted.
pub open spec fn kind_of_outcome(outcome: crate::git::interface::MergeOutcome) -> MergeKind {
    match outcome {
        crate::git::interface::MergeOutcome::Success => MergeKind::Success,
        crate::git::interface::MergeOutcome::UpToDate => MergeKind::UpToDate,
        crate::git::interface::MergeOutcome::Conflict => MergeKind::Conflict,
        crate::git::interface::MergeOutcome::Failed => MergeKind::Aborted,
    }
}

/// The statistic of merging `path` with the given outcome.
pub fn statistic_of(outcome: crate::git::interface::MergeOutcome, path: NormalizedPath) -> (r: MergeStatistic)
    ensures
        r@ == (MergeStatisticView { kind: kind_of_outcome(outcome), path: path@ }),
{
    match outcome {
        crate::git::interface::MergeOutcome::Success => MergeStatistic::Success(MergeSuccess::new(path)),
        crate::git::interface::MergeOutcome::UpToDate => MergeStatistic::UpToDate(path),
        crate::git::interface::MergeOutcome::Conflict => MergeStatistic::Conflict(MergeConflict::new(path)),
        crate::git::interface::MergeOutcome::Failed => MergeStatistic::Aborted(path),
    }
}

/// The chain of one merge: `path` merged onto `base` with the given outcome.
pub fn merge_chain(base: NormalizedPath, outcome: crate::git::interface::MergeOutcome, path: NormalizedPath) -> (r:
    MergeChainStatistic)
    ensures
        r@.chain == seq![
            MergeStatisticView { kind: MergeKind::Base, path: base@ },
            MergeStatisticView { kind: kind_of_outcome(outcome), path: path@ },
        ],
        counters_consistent(r@),
{
    let check = ChainCheck::start(base);
    let stat = statistic_of(outcome, path);
    let mut r = check.finish();
    let ghost before = r@;
    let ghost sv = stat@;
    proof {
        lemma_count_bound(before.chain, sv.kind);
    }
    r.push(stat);
    proof {
        law_chain_push_keeps_counters(before, sv);
        assert(r@.chain =~= seq![before.chain[0], sv]);
    }
    r
}

/// The paths that conflicted with the base: the second path of each chain
/// with a conflict.
pub fn conflicting_with_base(results: &Vec<MergeChainStatistic>) -> (r: Vec<NormalizedPath>)
    requires
        forall|i: int| 0 <= i < results@.len() ==> (#[trigger] results@[i])@.chain.len() >= 2,
    ensures
        qviews(r@) == chain_views(results@).filter(|c: MergeChainView| c.n_conflict > 0).map_values(
            |c: MergeChainView| c.chain[1].path,
        ),
{
    let mut out: Vec<NormalizedPath> = Vec::new();
    let ghost cs = chain_views(results@);
    let mut i: usize = 0;
    while i < results.len()
        invariant
            i <= results@.len(),
            cs == chain_views(results@),
            forall|x: int| 0 <= x < results@.len() ==> (#[trigger] results@[x])@.chain.len() >= 2,
            qviews(out@) == cs.subrange(0, i as int).filter(|c: MergeChainView| c.n_conflict > 0).map_values(
                |c: MergeChainView| c.chain[1].path,
            ),
        decreases results@.len() - i,
    {
        let ghost before = out@;
        assert(cs.subrange(0, i + 1).drop_last() =~= cs.subrange(0, i as int));
        assert(cs.subrange(0, i + 1).last() == results@[i as int]@);
        if results[i].contains_conflicts() {
            let p = results[i].get(1).unwrap().get_path().clone();
            out.push(p);
            proof {
                reveal(Seq::filter);
                assert(qviews(out@) =~= qviews(before).push(p@));
                assert(cs.subrange(0, i + 1).filter(|c: MergeChainView| c.n_conflict > 0) =~= cs.subrange(
                    0,
                    i as int,
                ).filter(|c: MergeChainView| c.n_conflict > 0).push(results@[i as int]@));
                assert(qviews(out@) =~= cs.subrange(0, i + 1).filter(|c: MergeChainView| c.n_conflict > 0).map_values(
                    |c: MergeChainView| c.chain[1].path,
                ));
            }
        } else {
            proof {
                reveal(Seq::filter);
                assert(cs.subrange(0, i + 1).filter(|c: MergeChainView| c.n_conflict > 0) =~= cs.subrange(
                    0,
                    i as int,
                ).filter(|c: MergeChainView| c.n_conflict > 0));
            }
        }
        i = i + 1;
    }
    assert(cs.subrange(0, i as int) =~= cs);
    out
}

/// Whether `p` has the segments of one of `excluded`.
pub open spec fn excluded_by(excluded: Seq<QPathView>, p: QPathView) -> bool {
    exists|j: int| 0 <= j < excluded.len() && (#[trigger] excluded[j]).segments == p.segments
}

/// The paths, in order, that are none of `excluded` (compared by segments):
/// those still to test with the base after the pairwise tests.
pub fn paths_without(paths: &Vec<NormalizedPath>, excluded: &Vec<NormalizedPath>) -> (r: Vec<NormalizedPath>)
    ensures
        qviews(r@) == qviews(paths@).filter(|p: QPathView| !excluded_by(qviews(excluded@), p)),
{
    let ghost pv = qviews(paths@);
    let ghost ev = qviews(excluded@);
    let mut out: Vec<NormalizedPath> = Vec::new();
    let mut i: usize = 0;
    while i < paths.len()
        invariant
            i <= paths@.len(),
            pv == qviews(paths@),
            ev == qviews(excluded@),
            qviews(out@) == pv.subrange(0, i as int).filter(|p: QPathView| !excluded_by(ev, p)),
        decreases paths@.len() - i,
    {
        let mut found = false;
        let mut j: usize = 0;
        while j < excluded.len()
            invariant
                j <= excluded@.len(),
                i < paths@.len(),
                ev == qviews(excluded@),
                found <==> exists|k: int| 0 <= k < j && (#[trigger] ev[k]).segments == paths@[i as int]@.segments,
            decreases excluded@.len() - j,
        {
            assert(ev[j as int] == excluded@[j as int]@);
            if excluded[j].equals(&paths[i]) {
                found = true;
            }
            j = j + 1;
        }
        let ghost before = out@;
        proof {
            assert(pv[i as int] == paths@[i as int]@);
            assert(found == excluded_by(ev, pv[i as int]));
            assert(pv.subrange(0, i + 1).drop_last() =~= pv.subrange(0, i as int));
            assert(pv.subrange(0, i + 1).last() == pv[i as int]);
            reveal(Seq::filter);
        }
        if !found {
            let p = paths[i].clone();
            out.push(p);
            assert(qviews(out@) =~= qviews(before).push(p@));
        } else {
            assert(qviews(out@) == qviews(before));
        }
        i = i + 1;
    }
    assert(pv.subrange(0, i as int) =~= pv);
    out
}

/// A chain of a base and two merged paths, made into a chain whose base is
/// the first merged path: the base is dropped and the first merged path
/// becomes the base.
pub fn rebase_on_second(result: MergeChainStatistic) -> (r: MergeChainStatistic)
    requires
        result@.chain.len() >= 2,
        counters_consistent(result@),
    ensures
        r@.chain == seq![MergeStatisticView { kind: MergeKind::Base, path: result@.chain[1].path }]
            + result@.chain.subrange(2, result@.chain.len() as int),
        counters_consistent(r@),
{
    let mut result = result;
    let ghost v0 = result@;
    proof {
        lemma_count_remove(v0.chain, 0, v0.chain[0].kind);
    }
    result.remove(0);
    proof {
        law_chain_remove_keeps_counters(v0, 0);
    }
    let ghost v1 = result@;
    proof {
        lemma_count_remove(v1.chain, 0, v1.chain[0].kind);
    }
    let second = result.remove(0);
    proof {
        law_chain_remove_keeps_counters(v1, 0);
    }
    let ghost v2 = result@;
    let base = MergeStatistic::Base(second.get_path().clone());
    let ghost bv = base@;
    proof {
        lemma_count_bound(v2.chain, MergeKind::Base);
    }
    result.insert(0, base);
    proof {
        law_chain_insert_keeps_counters(v2, 0, bv);
        assert(result@.chain =~= seq![MergeStatisticView { kind: MergeKind::Base, path: v0.chain[1].path }]
            + v0.chain.subrange(2, v0.chain.len() as int));
    }
    result
}

} // verus!
