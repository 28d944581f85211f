//! Reading the derivation history of a product from the metadata in its
//! commits.
use crate::base::model::path::normalized_path::NormalizedPath;
use crate::model::commit::Commit;
use crate::model::qualified_path::CommitHash;
use crate::spl::derivation::{
    DerivationCommit, DerivationData, DerivationDataView, DerivationMetadata, DerivationState,
};
use vstd::prelude::*;
use vstd::string::*;

verus! {

/// Where the search for the last derivation commit goes after one commit.
pub enum LastDerivationStep {
    /// The commit holds no derivation metadata: the product was never derived.
    NotDerived,
    /// The commit holds the derivation's data.
    Found(DerivationCommit),
    /// The commit only points to the commit that holds the data.
    FollowPointer(CommitHash),
}

/// Why the derivation history could not be read.
#[derive(Debug)]
pub enum InspectionError {
    /// The commit with this hash holds more than one derivation metadata.
    MultipleMetadata(String),
    /// The metadata of the first commit points to the second, which does not
    /// exist.
    MissingPointerTarget(String, String),
}

/// `fatal: commit `
pub open spec fn fatal_commit_text() -> Seq<char> {
    seq!['f', 'a', 't', 'a', 'l', ':', ' ', 'c', 'o', 'm', 'm', 'i', 't', ' ']
}

/// ` contains multiple derivation metadata`
pub open spec fn multiple_text() -> Seq<char> {
    seq![
        ' ', 'c', 'o', 'n', 't', 'a', 'i', 'n', 's', ' ', 'm', 'u', 'l', 't', 'i', 'p', 'l', 'e', ' ',
        'd', 'e', 'r', 'i', 'v', 'a', 't', 'i', 'o', 'n', ' ', 'm', 'e', 't', 'a', 'd', 'a', 't', 'a',
    ]
}

/// `fatal: derivation metadata of commit `
pub open spec fn pointer_head_text() -> Seq<char> {
    seq![
        'f', 'a', 't', 'a', 'l', ':', ' ', 'd', 'e', 'r', 'i', 'v', 'a', 't', 'i', 'o', 'n', ' ', 'm',
        'e', 't', 'a', 'd', 'a', 't', 'a', ' ', 'o', 'f', ' ', 'c', 'o', 'm', 'm', 'i', 't', ' ',
    ]
}

/// ` points to commit `
pub open spec fn points_to_text() -> Seq<char> {
    seq![' ', 'p', 'o', 'i', 'n', 't', 's', ' ', 't', 'o', ' ', 'c', 'o', 'm', 'm', 'i', 't', ' ']
}

/// ` which does not exist`
pub open spec fn not_exist_text() -> Seq<char> {
    seq![
        ' ', 'w', 'h', 'i', 'c', 'h', ' ', 'd', 'o', 'e', 's', ' ', 'n', 'o', 't', ' ', 'e', 'x', 'i',
        's', 't',
    ]
}

impl InspectionError {
    /// The message of the error.
    pub fn to_string(&self) -> (r: String)
        ensures
            match self {
                InspectionError::MultipleMetadata(h) => r@ == fatal_commit_text() + h@ + multiple_text(),
                InspectionError::MissingPointerTarget(c, p) => r@ == pointer_head_text() + c@
                    + points_to_text() + p@ + not_exist_text(),
            },
    {
        proof {
            reveal_strlit("fatal: commit ");
            reveal_strlit(" contains multiple derivation metadata");
            reveal_strlit("fatal: derivation metadata of commit ");
            reveal_strlit(" points to commit ");
            reveal_strlit(" which does not exist");
            assert(("fatal: commit ")@ =~= fatal_commit_text());
            assert((" contains multiple derivation metadata")@ =~= multiple_text());
            assert(("fatal: derivation metadata of commit ")@ =~= pointer_head_text());
            assert((" points to commit ")@ =~= points_to_text());
            assert((" which does not exist")@ =~= not_exist_text());
        }
        match self {
            InspectionError::MultipleMetadata(h) => {
                let mut s = String::from_str("fatal: commit ");
                s.append(h.as_str());
                s.append(" contains multiple derivation metadata");
                s
            },
            InspectionError::MissingPointerTarget(c, p) => {
                let mut s = String::from_str("fatal: derivation metadata of commit ");
                s.append(c.as_str());
                s.append(" points to commit ");
                s.append(p.as_str());
                s.append(" which does not exist");
                s
            },
        }
    }
}

/// A product path with the data of its last derivation, in terms of
/// characters.
pub open spec fn product_views(s: Seq<(NormalizedPath, DerivationData)>) -> Seq<
    (Seq<Seq<char>>, DerivationDataView),
> {
    s.map_values(|x: (NormalizedPath, DerivationData)| (x.0@, x.1@))
}

/// Whether the total of a product holds `feature`.
pub open spec fn holds_feature(p: (Seq<Seq<char>>, DerivationDataView), feature: Seq<Seq<char>>) -> bool {
    p.1.total.contains(feature)
}

/// The products, in order, whose total holds `feature`.
pub open spec fn products_containing(
    products: Seq<(Seq<Seq<char>>, DerivationDataView)>,
    feature: Seq<Seq<char>>,
) -> Seq<Seq<Seq<char>>> {
    products.filter(|p: (Seq<Seq<char>>, DerivationDataView)| holds_feature(p, feature)).map_values(
        |p: (Seq<Seq<char>>, DerivationDataView)| p.0,
    )
}

/// Reads the derivation history of products. The commits, their parsed
/// metadata and the products' states come from the repository through the
/// caller.
pub struct InspectionManager {}

impl InspectionManager {
    pub fn new() -> (r: Self) {
        InspectionManager {  }
    }

    /// One step of the search for the last derivation commit of a product,
    /// at `commit` with the derivation `metadata` found in its message: none
    /// means the product was never derived; one with data is the last
    /// derivation commit; one without data points to the commit to look at
    /// next; more than one is an error.
    pub fn get_last_derivation_commit(&self, commit: Commit, metadata: Vec<DerivationMetadata>) -> (r: Result<
        LastDerivationStep,
        InspectionError,
    >)
        ensures
            metadata@.len() == 0 ==> r matches Ok(LastDerivationStep::NotDerived),
            metadata@.len() == 1 && metadata@[0].spec_data() is Some ==> (r matches Ok(
                LastDerivationStep::Found(d),
            ) && d.spec_commit() == commit && d.spec_metadata().spec_previous()
                == metadata@[0].spec_previous() && d.spec_metadata().spec_data()
                == metadata@[0].spec_data()),
            metadata@.len() == 1 && metadata@[0].spec_data() is None ==> (r matches Ok(
                LastDerivationStep::FollowPointer(h),
            ) && h@ == metadata@[0].spec_previous()),
            metadata@.len() > 1 ==> (r matches Err(InspectionError::MultipleMetadata(h)) && h@
                == commit.spec_hash()),
    {
        let n = metadata.len();
        if n == 0 {
            return Ok(LastDerivationStep::NotDerived);
        }
        if n > 1 {
            return Err(InspectionError::MultipleMetadata(commit.get_hash().clone()));
        }
        let only = &metadata[0];
        let has_data = match only.get_data() {
            Some(_) => true,
            None => false,
        };
        if has_data {
            let found = only.clone();
            Ok(LastDerivationStep::Found(DerivationCommit::new(commit, found)))
        } else {
            Ok(LastDerivationStep::FollowPointer(only.get_previous().clone()))
        }
    }

    /// The error where the metadata of `commit` points to `pointer`, which
    /// does not exist.
    pub fn missing_pointer_target(&self, commit: &Commit, pointer: &CommitHash) -> (r: InspectionError)
        ensures
            r matches InspectionError::MissingPointerTarget(c, p) && c@ == commit.spec_hash() && p@
                == pointer@,
    {
        InspectionError::MissingPointerTarget(commit.get_hash().clone(), pointer.get_full_hash().clone())
    }

    /// The state of the last derivation of a product: the data of its last
    /// derivation commit, or, where it was never derived, a derivation that
    /// has not started at its current commit.
    pub fn get_last_derivation_state(&self, last: Option<DerivationCommit>, current_commit: CommitHash) -> (r:
        DerivationData)
        requires
            last matches Some(d) ==> d.spec_metadata().spec_data() is Some,
        ensures
            last matches Some(d) ==> d.spec_metadata().spec_data() == Some(r@),
            last is None ==> r@.state == DerivationState::Idle && r@.initial_commit == current_commit@
                && r@.completed.len() == 0 && r@.missing.len() == 0 && r@.total.len() == 0
                && r@.id.len() == 36,
    {
        match last {
            Some(d) => {
                let data = d.get_metadata().get_data();
                data.unwrap().clone()
            },
            None => DerivationData::new_initial(current_commit),
        }
    }

    /// The products, in the order given, whose last derivation holds
    /// `feature` in its total; each product comes with the data of its last
    /// derivation.
    pub fn find_products_containing_feature(
        &self,
        feature: &NormalizedPath,
        products: &Vec<(NormalizedPath, DerivationData)>,
    ) -> (r: Vec<NormalizedPath>)
        ensures
            r@.map_values(|p: NormalizedPath| p@) == products_containing(product_views(products@), feature@),
    {
        let ghost pv = product_views(products@);
        let ghost pred = |p: (Seq<Seq<char>>, DerivationDataView)| holds_feature(p, feature@);
        let mut out: Vec<NormalizedPath> = Vec::new();
        let mut i: usize = 0;
        while i < products.len()
            invariant
                i <= products@.len(),
                pv == product_views(products@),
                pred == (|p: (Seq<Seq<char>>, DerivationDataView)| holds_feature(p, feature@)),
                out@.map_values(|p: NormalizedPath| p@) == pv.subrange(0, i as int).filter(pred).map_values(
                    |p: (Seq<Seq<char>>, DerivationDataView)| p.0,
                ),
            decreases products@.len() - i,
        {
            let ghost before = out@;
            assert(pv.subrange(0, i + 1).drop_last() =~= pv.subrange(0, i as int));
            assert(pv.subrange(0, i + 1).last() == pv[i as int]);
            assert(pv[i as int] == (products@[i as int].0@, products@[i as int].1@));
            let total = products[i].1.get_total();
            let mut found = false;
            let mut j: usize = 0;
            while j < total.len()
                invariant
                    j <= total@.len(),
                    found <==> exists|k: int| 0 <= k < j && #[trigger] total@[k]@ == feature@,
                decreases total@.len() - j,
            {
                if total[j].equals(feature) {
                    found = true;
                }
                j = j + 1;
            }
            proof {
                let tv = pv[i as int].1.total;
                assert(tv.len() == total@.len());
                assert(forall|k: int| 0 <= k < tv.len() ==> tv[k] == #[trigger] total@[k]@);
                if found {
                    let k = choose|k: int| 0 <= k < j && #[trigger] total@[k]@ == feature@;
                    assert(tv[k] == feature@);
                } else {
                    assert forall|k: int| 0 <= k < tv.len() implies tv[k] != feature@ by {
                        assert(tv[k] == total@[k]@);
                    }
                }
                assert(found == holds_feature(pv[i as int], feature@));
                reveal(Seq::filter);
            }
            if found {
                let p = products[i].0.clone();
                out.push(p);
                assert(out@.map_values(|p: NormalizedPath| p@) =~= before.map_values(|p: NormalizedPath| p@).push(p@));
            } else {
                assert(out@ == before);
            }
            i = i + 1;
        }
        assert(pv.subrange(0, i as int) =~= pv);
        out
    }
}

} // verus!
