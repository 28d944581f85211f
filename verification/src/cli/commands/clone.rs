//! The decisions of the command that clones a repository.
use crate::text::{contains_seq, contains_str, replace_all, replace_str, views};
use vstd::prelude::*;
use vstd::string::*;

verus! {

/// The command that clones a repository or tracks its remote branches.
#[derive(Debug, Clone, Copy)]
pub struct CloneCommand;

/// The remote branches to track: those not naming `HEAD`.
pub open spec fn trackable(remotes: Seq<Seq<char>>) -> Seq<Seq<char>> {
    remotes.filter(|r: Seq<char>| !contains_seq(r, ("HEAD")@))
}

impl CloneCommand {
    /// The local and remote branch of each remote branch to track (those not
    /// naming `HEAD`, in order): the local name is the remote one without
    /// `origin/`.
    pub fn tracking_pairs(remotes: &Vec<String>) -> (r: Vec<(String, String)>)
        ensures
            r@.len() == trackable(views(remotes@)).len(),
            forall|i: int|
                0 <= i < r@.len() ==> (#[trigger] r@[i]).1@ == trackable(views(remotes@))[i] && r@[i].0@
                    == replace_all(trackable(views(remotes@))[i], ("origin/")@, Seq::<char>::empty()),
    {
        let ghost rv = views(remotes@);
        let mut out: Vec<(String, String)> = Vec::new();
        let mut i: usize = 0;
        let pat = "origin/";
        let empty = "";
        proof {
            reveal_strlit("origin/");
            reveal_strlit("");
            assert(pat@.len() == 7);
            assert(empty@ =~= Seq::<char>::empty());
        }
        while i < remotes.len()
            invariant
                i <= remotes@.len(),
                rv == views(remotes@),
                pat@ == ("origin/")@,
                pat@.len() > 0,
                empty@ == Seq::<char>::empty(),
                out@.len() == rv.subrange(0, i as int).filter(|r: Seq<char>| !contains_seq(r, ("HEAD")@)).len(),
                forall|k: int|
                    0 <= k < out@.len() ==> (#[trigger] out@[k]).1@ == rv.subrange(0, i as int).filter(
                        |r: Seq<char>| !contains_seq(r, ("HEAD")@),
                    )[k] && out@[k].0@ == replace_all(
                        rv.subrange(0, i as int).filter(|r: Seq<char>| !contains_seq(r, ("HEAD")@))[k],
                        ("origin/")@,
                        Seq::<char>::empty(),
                    ),
            decreases remotes@.len() - i,
        {
            let ghost prev = rv.subrange(0, i as int).filter(|r: Seq<char>| !contains_seq(r, ("HEAD")@));
            assert(rv.subrange(0, i + 1).drop_last() =~= rv.subrange(0, i as int));
            assert(rv.subrange(0, i + 1).last() == remotes@[i as int]@);
            let remote = remotes[i].as_str();
            let named_head = contains_str(remote, "HEAD");
            proof {
                reveal(Seq::filter);
            }
            if !named_head {
                let local = replace_str(remote, pat, empty);
                out.push((local, remotes[i].clone()));
                assert(rv.subrange(0, i + 1).filter(|r: Seq<char>| !contains_seq(r, ("HEAD")@)) == prev.push(
                    remotes@[i as int]@,
                ));
            } else {
                assert(rv.subrange(0, i + 1).filter(|r: Seq<char>| !contains_seq(r, ("HEAD")@)) == prev);
            }
            i = i + 1;
        }
        assert(rv.subrange(0, i as int) =~= rv);
        out
    }
}

} // verus!
