//! The values that the services hand to their callers.

use vstd::prelude::*;

verus! {

/// A memo as callers see it.
pub struct Memo {
    pub id: String,
    pub topic_id: String,
    pub timestamp: i64,
    /// Whether this is the latest memo of its topic.
    pub latest: bool,
    pub content: String,
}

/// What a memo holds.
pub struct MemoView {
    pub id: Seq<char>,
    pub topic_id: Seq<char>,
    pub timestamp: i64,
    pub latest: bool,
    pub content: Seq<char>,
}

impl View for Memo {
    type V = MemoView;

    open spec fn view(&self) -> MemoView {
        MemoView {
            id: self.id@,
            topic_id: self.topic_id@,
            timestamp: self.timestamp,
            latest: self.latest,
            content: self.content@,
        }
    }
}

/// A topic as callers see it.
pub struct Topic {
    pub id: String,
    pub title: String,
    pub timestamp: i64,
}

/// What a topic holds.
pub struct TopicView {
    pub id: Seq<char>,
    pub title: Seq<char>,
    pub timestamp: i64,
}

impl View for Topic {
    type V = TopicView;

    open spec fn view(&self) -> TopicView {
        TopicView { id: self.id@, title: self.title@, timestamp: self.timestamp }
    }
}

/// What a vector of memos holds.
pub open spec fn memo_views(v: Seq<Memo>) -> Seq<MemoView> {
    v.map_values(|m: Memo| m@)
}

/// What a vector of topics holds.
pub open spec fn topic_views(v: Seq<Topic>) -> Seq<TopicView> {
    v.map_values(|t: Topic| t@)
}

} // verus!
