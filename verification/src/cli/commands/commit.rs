//! The decisions and messages of the command that commits.
use crate::model::node::lookup;
use crate::model::node_path::{normalized_segments, path_views, typable, NodePath, NodePathView};
use crate::model::node_type::{ConcreteFeature, Feature};
use crate::model::qualified_path::{CommitHash, NormalizedPath, QPathView};
use crate::model::tree::TreeDataModel;
use crate::spl::derivation::{DerivationCommit, DerivationMetadata, DerivationState};
use vstd::prelude::*;
use vstd::string::*;

verus! {

/// Whether the node path `v` leads in `model` to a concrete feature other
/// than the one at `feature`.
pub open spec fn other_concrete(model: &TreeDataModel, feature: QPathView, v: NodePathView) -> bool {
    &&& typable::<ConcreteFeature>(v.unknown_mode, lookup(model.spec_root(), v.names).unwrap().spec_type())
    &&& normalized_segments(v.names) != feature.segments
}

/// The command that commits, keeping derivation metadata up to date.
#[derive(Debug, Clone, Copy)]
pub struct CommitCommand;

impl CommitCommand {
    /// The hints after committing to a product whose last derivation is in
    /// `state`: after a finished derivation, that the commit can be untied
    /// onto a feature; otherwise none.
    pub fn product_hints(state: DerivationState) -> (r: Vec<String>)
        ensures
            state == DerivationState::InProgress ==> r@.len() == 0,
            state == DerivationState::Idle ==> r@.len() == 2 && r@[0]@
                == ("Hint: You commited to a product branch containing features.")@ && r@[1]@
                == ("Hint: Use ")@ + seq!['"'] + ("tangl untie")@ + seq!['"']
                + (" to copy the commit onto a feature.")@,
    {
        let mut v: Vec<String> = Vec::new();
        match state {
            DerivationState::InProgress => {},
            DerivationState::Idle => {
                v.push(String::from_str("Hint: You commited to a product branch containing features."));
                let mut s = String::from_str("Hint: Use ");
                let cmd = crate::cli::common::format_command_help("tangl untie");
                s.append(cmd.as_str());
                s.append(" to copy the commit onto a feature.");
                v.push(s);
            },
        }
        v
    }

    /// The features that a commit to the feature at `feature` is tested
    /// against: those of `features` that are concrete features, but the one
    /// at `feature`, in order.
    pub fn other_features(model: &TreeDataModel, features: &Vec<NodePath<Feature>>, feature: &NormalizedPath) -> (r: Vec<
        NodePath<ConcreteFeature>,
    >)
        requires
            forall|m: int| 0 <= m < features@.len() ==> (#[trigger] features@[m]).valid_in(model),
        ensures
            path_views(r@) == path_views(features@).filter(
                |v: NodePathView| other_concrete(model, feature@, v),
            ),
            forall|i: int| 0 <= i < r@.len() ==> (#[trigger] r@[i]).valid_in(model),
    {
        let mut out: Vec<NodePath<ConcreteFeature>> = Vec::new();
        let mut i: usize = 0;
        while i < features.len()
            invariant
                i <= features@.len(),
                forall|m: int| 0 <= m < features@.len() ==> (#[trigger] features@[m]).valid_in(model),
                forall|k: int| 0 <= k < out@.len() ==> (#[trigger] out@[k]).valid_in(model),
                path_views(out@) == path_views(features@).subrange(0, i as int).filter(
                    |v: NodePathView| other_concrete(model, feature@, v),
                ),
            decreases features@.len() - i,
        {
            let candidate = &features[i];
            let ghost before = out@;
            let ghost pv = candidate@;
            assert(path_views(features@).subrange(0, i + 1).drop_last() =~= path_views(
                features@,
            ).subrange(0, i as int));
            assert(path_views(features@).subrange(0, i + 1).last() == pv);
            if !candidate.to_normalized_path().equals(feature) {
                if let Some(f) = candidate.try_convert_to::<ConcreteFeature>(model) {
                    out.push(f);
                    assert(path_views(out@) =~= path_views(before).push(pv));
                    assert forall|k: int| 0 <= k < out@.len() implies (#[trigger] out@[k]).valid_in(model) by {
                        if k < before.len() {
                            assert(out@[k] == before[k]);
                        }
                    }
                }
            }
            proof {
                reveal(Seq::filter);
            }
            i = i + 1;
        }
        assert(path_views(features@).subrange(0, i as int) =~= path_views(features@));
        out
    }

    /// The metadata of a commit to a derived product: a pointer to the last
    /// derivation commit, without data.
    pub fn pointer_metadata(last: &DerivationCommit) -> (r: DerivationMetadata)
        ensures
            r.spec_previous() == last.spec_commit().spec_hash(),
            r.spec_data() is None,
    {
        let hash = CommitHash::new(last.get_commit().get_hash().clone());
        DerivationMetadata::new(hash, None)
    }

    /// The warning where a commit to a feature conflicts with `count` (as
    /// shown) other features.
    pub fn feature_conflict_warning(count: &str) -> (r: String)
        ensures
            r@ == ("\nWarning: Commit stands in conflict with ")@ + count@ + (" other feature(s)")@,
    {
        let mut s = String::from_str("\nWarning: Commit stands in conflict with ");
        s.append(count);
        s.append(" other feature(s)");
        s
    }

    /// The warning where a commit to a feature conflicts with `count` (as
    /// shown) products derived from it.
    pub fn product_conflict_warning(count: &str) -> (r: String)
        ensures
            r@ == ("\nWarning: Commit stands in conflict with ")@ + count@
                + (" product(s) derived from this feature")@,
    {
        let mut s = String::from_str("\nWarning: Commit stands in conflict with ");
        s.append(count);
        s.append(" product(s) derived from this feature");
        s
    }
}

} // verus!
