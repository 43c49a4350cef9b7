//! The belief store: statements derived so far, in the order they were added.
use vstd::prelude::*;

use crate::nal::TruthValue;

verus! {

/// One stored statement with its bookkeeping.
#[derive(Debug, Clone, PartialEq, Eq)]
pub struct MemoryItem {
    id: u64,
    timestamp: u64,
    pub term: String,
    pub tv: TruthValue,
    usage_count: u64,
    embed_id: Option<u64>,
}

impl MemoryItem {
    pub closed spec fn id_spec(&self) -> u64 {
        self.id
    }

    pub closed spec fn timestamp_spec(&self) -> u64 {
        self.timestamp
    }

    pub closed spec fn term_spec(&self) -> Seq<char> {
        self.term@
    }

    pub closed spec fn tv_spec(&self) -> TruthValue {
        self.tv
    }

    pub closed spec fn usage_count_spec(&self) -> u64 {
        self.usage_count
    }

    pub closed spec fn embed_id_spec(&self) -> Option<u64> {
        self.embed_id
    }

    /// Rebuilds an item from its stored fields.
    pub fn restore(
        id: u64,
        timestamp: u64,
        term: String,
        tv: TruthValue,
        usage_count: u64,
        embed_id: Option<u64>,
    ) -> (r: MemoryItem)
        ensures
            r.id_spec() == id,
            r.timestamp_spec() == timestamp,
            r.term_spec() == term@,
            r.tv_spec() == tv,
            r.usage_count_spec() == usage_count,
            r.embed_id_spec() == embed_id,
    {
        MemoryItem { id, timestamp, term, tv, usage_count, embed_id }
    }

    pub fn id(&self) -> (r: u64)
        ensures
            r == self.id_spec(),
    {
        self.id
    }

    pub fn timestamp(&self) -> (r: u64)
        ensures
            r == self.timestamp_spec(),
    {
        self.timestamp
    }

    pub fn usage_count(&self) -> (r: u64)
        ensures
            r == self.usage_count_spec(),
    {
        self.usage_count
    }

    pub fn embed_id(&self) -> (r: Option<u64>)
        ensures
            r == self.embed_id_spec(),
    {
        self.embed_id
    }
}

/// The store, with the id and the timestamp that the next item receives.
#[derive(Debug, Clone, PartialEq, Eq)]
pub struct Memory {
    items: Vec<MemoryItem>,
    last_id: u64,
    current_timestamp: u64,
}

impl Memory {
    pub closed spec fn items_spec(&self) -> Seq<MemoryItem> {
        self.items@
    }

    pub closed spec fn last_id_spec(&self) -> u64 {
        self.last_id
    }

    pub closed spec fn current_timestamp_spec(&self) -> u64 {
        self.current_timestamp
    }

    /// An empty store whose first item gets id 0 at time 0.
    pub fn new() -> (r: Memory)
        ensures
            r.items_spec().len() == 0,
            r.last_id_spec() == 0,
            r.current_timestamp_spec() == 0,
    {
        Memory { items: Vec::new(), last_id: 0, current_timestamp: 0 }
    }

    /// Rebuilds a store from its stored fields.
    pub fn restore(items: Vec<MemoryItem>, last_id: u64, current_timestamp: u64) -> (r: Memory)
        ensures
            r.items_spec() == items@,
            r.last_id_spec() == last_id,
            r.current_timestamp_spec() == current_timestamp,
    {
        Memory { items, last_id, current_timestamp }
    }

    /// Appends `term` with its truth value, under the next id and timestamp,
    /// and advances both.
    pub fn add(&mut self, term: &str, tv: TruthValue, embed_id: Option<u64>)
        requires
            old(self).last_id_spec() < u64::MAX,
            old(self).current_timestamp_spec() < u64::MAX,
        ensures
            final(self).items_spec().len() == old(self).items_spec().len() + 1,
            final(self).items_spec().subrange(0, old(self).items_spec().len() as int) == old(
                self,
            ).items_spec(),
            final(self).items_spec().last().id_spec() == old(self).last_id_spec(),
            final(self).items_spec().last().timestamp_spec() == old(self).current_timestamp_spec(),
            final(self).items_spec().last().term_spec() == term@,
            final(self).items_spec().last().tv_spec() == tv,
            final(self).items_spec().last().usage_count_spec() == 0,
            final(self).items_spec().last().embed_id_spec() == embed_id,
            final(self).last_id_spec() == old(self).last_id_spec() + 1,
            final(self).current_timestamp_spec() == old(self).current_timestamp_spec() + 1,
    {
        let id = self.last_id;
        self.items.push(
            MemoryItem {
                id,
                timestamp: self.current_timestamp,
                term: String::from_str(term),
                tv,
                usage_count: 0,
                embed_id,
            },
        );
        self.last_id = self.last_id + 1;
        self.current_timestamp = self.current_timestamp + 1;
        assert(self.items@.subrange(0, old(self).items@.len() as int) =~= old(self).items@);
    }

    /// The stored items, oldest first.
    pub fn items(&self) -> (r: &Vec<MemoryItem>)
        ensures
            r@ == self.items_spec(),
    {
        &self.items
    }

    pub fn last_id(&self) -> (r: u64)
        ensures
            r == self.last_id_spec(),
    {
        self.last_id
    }

    pub fn current_timestamp(&self) -> (r: u64)
        ensures
            r == self.current_timestamp_spec(),
    {
        self.current_timestamp
    }
}

} // verus!
