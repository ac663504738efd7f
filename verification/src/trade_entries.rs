//! The rolling list of trade-chat entries shown by the sales panel: new
//! entries are appended, and the list is truncated from the front so that
//! at most a fixed number remain.

use vstd::prelude::*;

verus! {

/// One classified line of trade chat.
#[derive(Debug)]
pub struct TradeEntry {
    pub category: String,
    pub timestamp: String,
    pub message: String,
}

impl Clone for TradeEntry {
    fn clone(&self) -> (r: Self)
        ensures
            r == *self,
    {
        TradeEntry {
            category: self.category.clone(),
            timestamp: self.timestamp.clone(),
            message: self.message.clone(),
        }
    }
}

/// An empty entry list.
pub fn new_store() -> (r: Vec<TradeEntry>)
    ensures
        r@.len() == 0,
{
    Vec::new()
}

/// Keeps only the newest `max` entries: when the list is longer, the
/// oldest entries at the front are dropped, and otherwise nothing changes.
pub fn truncate_entries(entries: &mut Vec<TradeEntry>, max: usize)
    ensures
        old(entries)@.len() <= max ==> final(entries)@ == old(entries)@,
        old(entries)@.len() > max ==> final(entries)@ == old(entries)@.skip(
            old(entries)@.len() - max as int,
        ),
{
    if entries.len() > max {
        let overflow = entries.len() - max;
        let tail = entries.split_off(overflow);
        *entries = tail;
        proof {
            assert(final(entries)@ =~= old(entries)@.skip(old(entries)@.len() - max as int));
        }
    }
}

} // verus!
