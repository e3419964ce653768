//! Merge requests: annotated tags named `merge-request/<id>` that point to a commit.
use vstd::prelude::*;
use vstd::string::StrSliceExecFns;

use crate::ids::{Oid, PeerId};

verus! {

/// A merge request found in a peer's tags.
#[derive(Clone, Debug, PartialEq, Eq)]
pub struct MergeRequest {
    /// The tag name without its `merge-request/` prefix.
    pub id: String,
    /// Always `false` for now.
    pub merged: bool,
    /// The peer whose tag it is; `None` for the local peer.
    pub peer: Option<PeerId>,
    /// The message of the tag.
    pub message: Option<String>,
    /// The commit the tag points to.
    pub commit: Oid,
}

/// Why a tag is no merge request.
#[derive(Clone, Copy, Debug, PartialEq, Eq, Structural)]
pub enum MergeRequestError {
    /// The tag name does not start with `merge-request/`.
    NotMergeRequest,
    /// The tag does not point to a commit.
    NotCommit,
}

/// The prefix of the names of merge-request tags.
pub open spec fn prefix() -> Seq<char> {
    seq!['m', 'e', 'r', 'g', 'e', '-', 'r', 'e', 'q', 'u', 'e', 's', 't', '/']
}

/// The id in a tag name: what follows the prefix, if the name starts with it.
pub open spec fn merge_request_id(name: Seq<char>) -> Option<Seq<char>> {
    if name.len() >= prefix().len() && name.subrange(0, prefix().len() as int) == prefix() {
        Some(name.subrange(prefix().len() as int, name.len() as int))
    } else {
        None
    }
}

/// The merge request that a tag describes: its name must start with `merge-request/`
/// and it must point to a commit.
pub fn from_tag(
    tag_name: &str,
    target_is_commit: bool,
    peer: Option<PeerId>,
    message: Option<String>,
    commit: Oid,
) -> (r: Result<MergeRequest, MergeRequestError>)
    ensures
        match r {
            Ok(m) => {
                &&& target_is_commit
                &&& merge_request_id(tag_name@) == Some(m.id@)
                &&& !m.merged
                &&& m.peer == peer
                &&& m.message == message
                &&& m.commit == commit
            },
            Err(MergeRequestError::NotMergeRequest) => merge_request_id(tag_name@) is None,
            Err(MergeRequestError::NotCommit) => merge_request_id(tag_name@) is Some
                && !target_is_commit,
        },
{
    let p = "merge-request/";
    proof {
        reveal_strlit("merge-request/");
        assert(p@ =~= prefix());
    }
    let n = tag_name.unicode_len();
    let k = p.unicode_len();
    if n < k {
        return Err(MergeRequestError::NotMergeRequest);
    }
    let mut i: usize = 0;
    while i < k
        invariant
            i <= k,
            k == prefix().len(),
            p@ == prefix(),
            n == tag_name@.len(),
            k <= n,
            forall|j: int| 0 <= j < i ==> tag_name@[j] == prefix()[j],
        decreases k - i,
    {
        if tag_name.get_char(i) != p.get_char(i) {
            proof {
                assert(tag_name@.subrange(0, k as int)[i as int] != prefix()[i as int]);
            }
            return Err(MergeRequestError::NotMergeRequest);
        }
        i = i + 1;
    }
    proof {
        assert(tag_name@.subrange(0, k as int) =~= prefix());
    }
    if !target_is_commit {
        return Err(MergeRequestError::NotCommit);
    }
    let id = tag_name.substring_char(k, n).to_owned();
    Ok(MergeRequest { id, merged: false, peer, message, commit })
}

} // verus!
