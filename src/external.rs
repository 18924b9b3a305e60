//! Merging the answers of direct requests into the external index.

use vstd::prelude::*;
use crate::index::UrlIndex;
use crate::record::{answered, UrlModel};

verus! {

/// The answer to a direct request: its status, and the URL it ended at once
/// the server's redirects were followed.
pub struct HttpReply {
    pub status: u16,
    pub final_url: String,
}

/// The record `u` after the outcome `reply` of its request: answered when
/// there was an answer, unchanged (still pending) when the request failed.
pub open spec fn after_reply(u: UrlModel, reply: Option<HttpReply>) -> UrlModel {
    match reply {
        Some(r) => answered(u, r.status, r.final_url@),
        None => u,
    }
}

/// Merges into `index` the outcome of one request per record: `replies[i]`
/// is the outcome for the record at position `i`, `None` where the request
/// failed. A failed request leaves its record as it was; no record is added
/// or removed.
pub fn merge_external_replies(index: &mut UrlIndex, replies: Vec<Option<HttpReply>>)
    requires
        old(index).wf(),
        replies@.len() == old(index)@.len(),
    ensures
        final(index).wf(),
        final(index)@.len() == old(index)@.len(),
        forall|i: int|
            0 <= i < old(index)@.len() ==> #[trigger] final(index)@[i] == after_reply(
                old(index)@[i],
                replies@[i],
            ),
{
    let n = replies.len();
    let mut replies = replies;
    let ghost all = replies@;
    let mut k: usize = n;
    while k > 0
        invariant
            index.wf(),
            n == all.len(),
            n == old(index)@.len(),
            k <= n,
            replies@ == all.subrange(0, k as int),
            index@.len() == old(index)@.len(),
            forall|i: int| 0 <= i < k ==> #[trigger] index@[i] == old(index)@[i],
            forall|i: int|
                k <= i < n ==> #[trigger] index@[i] == after_reply(old(index)@[i], all[i]),
        decreases k,
    {
        let reply = replies.pop();
        k = k - 1;
        assert(reply == Some(all[k as int]));
        let ghost before = index@;
        match reply {
            Some(Some(r)) => {
                index.record_reply_at(k, r.status, r.final_url);
                assert(index@ == before.update(k as int, after_reply(before[k as int], all[k as int])));
            },
            _ => {},
        }
        assert(replies@ =~= all.subrange(0, k as int));
    }
}

} // verus!
