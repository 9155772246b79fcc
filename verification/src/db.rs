//! The three tables and the operations on their rows.

use crate::recency::{find_latest, latest_index, lemma_latest_index_viewed, viewed};
use crate::seqs::{
    lemma_filter_keeps_all, lemma_filter_none, lemma_filter_step, lemma_map_push, lemma_map_step,
};
use crate::text::{
    contains, is_substring, pieces, str_eq, strings, tag_tokens, to_chars, word_tokens,
};
use vstd::prelude::*;

verus! {

/// A row of the memo table.
pub struct Memo {
    pub id: String,
    pub topic_id: String,
    pub timestamp: i64,
    pub content: String,
}

/// What a memo row holds.
pub struct MemoRow {
    pub id: Seq<char>,
    pub topic_id: Seq<char>,
    pub timestamp: i64,
    pub content: Seq<char>,
}

impl View for Memo {
    type V = MemoRow;

    open spec fn view(&self) -> MemoRow {
        MemoRow {
            id: self.id@,
            topic_id: self.topic_id@,
            timestamp: self.timestamp,
            content: self.content@,
        }
    }
}

impl Clone for Memo {
    fn clone(&self) -> (r: Self)
        ensures
            r@ == self@,
    {
        Memo {
            id: self.id.clone(),
            topic_id: self.topic_id.clone(),
            timestamp: self.timestamp,
            content: self.content.clone(),
        }
    }
}

/// A row of the topic table.
pub struct Topic {
    pub id: String,
    pub title: String,
    pub timestamp: i64,
}

/// What a topic row holds.
pub struct TopicRow {
    pub id: Seq<char>,
    pub title: Seq<char>,
    pub timestamp: i64,
}

impl View for Topic {
    type V = TopicRow;

    open spec fn view(&self) -> TopicRow {
        TopicRow { id: self.id@, title: self.title@, timestamp: self.timestamp }
    }
}

impl Clone for Topic {
    fn clone(&self) -> (r: Self)
        ensures
            r@ == self@,
    {
        Topic { id: self.id.clone(), title: self.title.clone(), timestamp: self.timestamp }
    }
}

/// A row of the tag table: one tag on one topic.
pub struct TopicTag {
    pub name: String,
    pub topic_id: String,
}

/// What a tag row holds.
pub struct TagRow {
    pub name: Seq<char>,
    pub topic_id: Seq<char>,
}

impl View for TopicTag {
    type V = TagRow;

    open spec fn view(&self) -> TagRow {
        TagRow { name: self.name@, topic_id: self.topic_id@ }
    }
}

impl Clone for TopicTag {
    fn clone(&self) -> (r: Self)
        ensures
            r@ == self@,
    {
        TopicTag { name: self.name.clone(), topic_id: self.topic_id.clone() }
    }
}

/// The tables of the schema.
#[derive(Clone, Copy, Debug, PartialEq, Eq, Structural)]
pub enum Table {
    Memo,
    Topic,
    TopicTag,
}

/// A failure of the storage.
#[derive(Clone, Copy, Debug, PartialEq, Eq, Structural)]
pub enum DbError {
    /// A statement named a table that the schema does not hold.
    NoSuchTable(Table),
    /// A query for one row found none.
    QueryReturnedNoRows,
}

/// The storage: three flat tables, with neither keys nor constraints. Rows
/// keep the order in which they were inserted.
pub struct Store {
    /// Whether the tables have been created.
    pub schema: bool,
    pub memo: Vec<Memo>,
    pub topic: Vec<Topic>,
    pub topic_tag: Vec<TopicTag>,
}

/// What the storage holds.
pub struct Tables {
    /// Whether the tables have been created.
    pub schema: bool,
    pub memo: Seq<MemoRow>,
    pub topic: Seq<TopicRow>,
    pub topic_tag: Seq<TagRow>,
}

/// The rows that a vector of memos holds.
pub open spec fn memo_rows(v: Seq<Memo>) -> Seq<MemoRow> {
    v.map_values(|m: Memo| m@)
}

/// The rows that a vector of topics holds.
pub open spec fn topic_rows(v: Seq<Topic>) -> Seq<TopicRow> {
    v.map_values(|t: Topic| t@)
}

/// The rows that a vector of tags holds.
pub open spec fn tag_rows(v: Seq<TopicTag>) -> Seq<TagRow> {
    v.map_values(|t: TopicTag| t@)
}

impl View for Store {
    type V = Tables;

    open spec fn view(&self) -> Tables {
        Tables {
            schema: self.schema,
            memo: memo_rows(self.memo@),
            topic: topic_rows(self.topic@),
            topic_tag: tag_rows(self.topic_tag@),
        }
    }
}

/// The memos of one topic, in storage order.
pub open spec fn memos_of_topic(rows: Seq<MemoRow>, topic_id: Seq<char>) -> Seq<MemoRow> {
    rows.filter(|r: MemoRow| r.topic_id == topic_id)
}

/// The memos that stay when those with the given id are deleted.
pub open spec fn memos_without(rows: Seq<MemoRow>, id: Seq<char>) -> Seq<MemoRow> {
    rows.filter(|r: MemoRow| r.id != id)
}

/// Each memo paired with its timestamp.
pub open spec fn dated_memos(rows: Seq<MemoRow>) -> Seq<(i64, MemoRow)> {
    Seq::new(rows.len(), |i: int| (rows[i].timestamp, rows[i]))
}

/// The latest of the given memos: the one with the greatest timestamp, and
/// among those with the same timestamp the one stored last.
pub open spec fn latest_memo(rows: Seq<MemoRow>) -> MemoRow
    recommends
        rows.len() > 0,
{
    rows[latest_index(dated_memos(rows))]
}

/// Pairs each memo with its timestamp.
pub fn date_memos(memos: Vec<Memo>) -> (pairs: Vec<(i64, Memo)>)
    ensures
        viewed(pairs@) == dated_memos(memo_rows(memos@)),
{
    let ghost all = memos@;
    let mut pairs: Vec<(i64, Memo)> = Vec::new();
    for m in it: memos
        invariant
            it.seq() == all,
            pairs@.len() == it.index(),
            forall|k: int|
                0 <= k < pairs@.len() ==> (#[trigger] pairs@[k]).0 == all[k].timestamp
                    && pairs@[k].1 == all[k],
    {
        pairs.push((m.timestamp, m));
    }
    assert(viewed(pairs@) =~= dated_memos(memo_rows(all)));
    pairs
}

/// Each topic paired with its timestamp.
pub open spec fn dated_topics(rows: Seq<TopicRow>) -> Seq<(i64, TopicRow)> {
    Seq::new(rows.len(), |i: int| (rows[i].timestamp, rows[i]))
}

/// Pairs each topic with its timestamp.
pub fn date_topics(topics: Vec<Topic>) -> (pairs: Vec<(i64, Topic)>)
    ensures
        viewed(pairs@) == dated_topics(topic_rows(topics@)),
{
    let ghost all = topics@;
    let mut pairs: Vec<(i64, Topic)> = Vec::new();
    for t in it: topics
        invariant
            it.seq() == all,
            pairs@.len() == it.index(),
            forall|k: int|
                0 <= k < pairs@.len() ==> (#[trigger] pairs@[k]).0 == all[k].timestamp
                    && pairs@[k].1 == all[k],
    {
        pairs.push((t.timestamp, t));
    }
    assert(viewed(pairs@) =~= dated_topics(topic_rows(all)));
    pairs
}

impl Memo {
    /// Lists the memos of a topic, in storage order.
    pub fn all_by_topic(store: &Store, topic_id: &str) -> (r: Result<Vec<Memo>, DbError>)
        ensures
            !store@.schema ==> r == Err::<Vec<Memo>, DbError>(DbError::NoSuchTable(Table::Memo)),
            store@.schema ==> r is Ok && memo_rows(r->Ok_0@) == memos_of_topic(
                store@.memo,
                topic_id@,
            ),
    {
        if !store.schema {
            return Err(DbError::NoSuchTable(Table::Memo));
        }
        let mut memos: Vec<Memo> = Vec::new();
        let mut i: usize = 0;
        proof {
            lemma_filter_none(store.memo@, |m: Memo| m@, |r: MemoRow| r.topic_id == topic_id@);
        }
        while i < store.memo.len()
            invariant
                i <= store.memo.len(),
                memo_rows(memos@) == memos_of_topic(
                    memo_rows(store.memo@.take(i as int)),
                    topic_id@,
                ),
            decreases store.memo.len() - i,
        {
            proof {
                lemma_filter_step(
                    store.memo@,
                    i as int,
                    |m: Memo| m@,
                    |r: MemoRow| r.topic_id == topic_id@,
                );
            }
            if str_eq(store.memo[i].topic_id.as_str(), topic_id) {
                let m = store.memo[i].clone();
                proof {
                    assert(memo_rows(memos@.push(m)) =~= memo_rows(memos@).push(m@));
                }
                memos.push(m);
            }
            i += 1;
        }
        assert(store.memo@.take(i as int) =~= store.memo@);
        Ok(memos)
    }

    /// Finds the latest memo of a topic.
    pub fn latest_by_topic(store: &Store, topic_id: &str) -> (r: Result<Memo, DbError>)
        ensures
            !store@.schema ==> r == Err::<Memo, DbError>(DbError::NoSuchTable(Table::Memo)),
            store@.schema && memos_of_topic(store@.memo, topic_id@).len() == 0 ==> r == Err::<
                Memo,
                DbError,
            >(DbError::QueryReturnedNoRows),
            store@.schema && memos_of_topic(store@.memo, topic_id@).len() > 0 ==> r is Ok
                && r->Ok_0@ == latest_memo(memos_of_topic(store@.memo, topic_id@)),
    {
        let memos = match Memo::all_by_topic(store, topic_id) {
            Ok(memos) => memos,
            Err(e) => {
                return Err(e);
            },
        };
        let ghost rows = memo_rows(memos@);
        let mut pairs = date_memos(memos);
        assert(viewed(pairs@).len() == pairs@.len());
        if pairs.len() == 0 {
            return Err(DbError::QueryReturnedNoRows);
        }
        let i = find_latest(&pairs);
        proof {
            lemma_latest_index_viewed(pairs@);
            assert(viewed(pairs@)[i as int].1 == rows[i as int]);
        }
        let (_, memo) = pairs.remove(i);
        Ok(memo)
    }

    /// Inserts a memo row.
    pub fn create(store: &mut Store, id: &str, topic_id: &str, timestamp: i64, content: &str) -> (r:
        Result<Memo, DbError>)
        ensures
            !old(store)@.schema ==> r == Err::<Memo, DbError>(DbError::NoSuchTable(Table::Memo))
                && *final(store) == *old(store),
            old(store)@.schema ==> r is Ok && r->Ok_0@ == (MemoRow {
                id: id@,
                topic_id: topic_id@,
                timestamp,
                content: content@,
            }) && final(store)@ == (Tables {
                memo: old(store)@.memo.push(r->Ok_0@),
                ..old(store)@
            }),
    {
        if !store.schema {
            return Err(DbError::NoSuchTable(Table::Memo));
        }
        let memo = Memo {
            id: id.to_owned(),
            topic_id: topic_id.to_owned(),
            timestamp,
            content: content.to_owned(),
        };
        store.memo.push(memo.clone());
        assert(memo_rows(store.memo@) =~= memo_rows(old(store).memo@).push(memo@));
        Ok(memo)
    }

    /// Deletes the memo rows that have this memo's id. Where there is none,
    /// nothing changes.
    pub fn delete(&self, store: &mut Store) -> (r: Result<(), DbError>)
        ensures
            !old(store)@.schema ==> r == Err::<(), DbError>(DbError::NoSuchTable(Table::Memo))
                && *final(store) == *old(store),
            old(store)@.schema ==> r is Ok && final(store)@ == (Tables {
                memo: memos_without(old(store)@.memo, self.id@),
                ..old(store)@
            }),
            !has_memo(old(store)@.memo, self.id@) ==> final(store)@ == old(store)@,
    {
        proof {
            if !has_memo(store@.memo, self.id@) {
                lemma_filter_keeps_all(store@.memo, |r: MemoRow| r.id != self.id@);
            }
        }
        if !store.schema {
            return Err(DbError::NoSuchTable(Table::Memo));
        }
        let mut rows: Vec<Memo> = Vec::new();
        core::mem::swap(&mut store.memo, &mut rows);
        let ghost all = rows@;
        proof {
            lemma_filter_none(all, |m: Memo| m@, |r: MemoRow| r.id != self.id@);
        }
        for m in it: rows
            invariant
                it.seq() == all,
                store.schema == old(store).schema,
                store.topic == old(store).topic,
                store.topic_tag == old(store).topic_tag,
                memo_rows(store.memo@) == memos_without(
                    memo_rows(all.take(it.index() as int)),
                    self.id@,
                ),
        {
            proof {
                lemma_filter_step(
                    all,
                    it.index() as int,
                    |m: Memo| m@,
                    |r: MemoRow| r.id != self.id@,
                );
            }
            if !str_eq(m.id.as_str(), self.id.as_str()) {
                proof {
                    assert(memo_rows(store.memo@.push(m)) =~= memo_rows(store.memo@).push(m@));
                }
                store.memo.push(m);
            }
        }
        assert(all.take(all.len() as int) =~= all);
        Ok(())
    }
}

/// The topics that stay when those with the given id are deleted.
pub open spec fn topics_without(rows: Seq<TopicRow>, id: Seq<char>) -> Seq<TopicRow> {
    rows.filter(|r: TopicRow| r.id != id)
}

/// The topics after those with the given id got a new title and timestamp.
pub open spec fn topics_updated(
    rows: Seq<TopicRow>,
    id: Seq<char>,
    title: Seq<char>,
    timestamp: i64,
) -> Seq<TopicRow> {
    rows.map_values(
        |r: TopicRow|
            if r.id == id {
                TopicRow { id: r.id, title, timestamp }
            } else {
                r
            },
    )
}

/// Whether a topic row has the given id.
pub open spec fn has_topic(rows: Seq<TopicRow>, id: Seq<char>) -> bool {
    exists|i: int| 0 <= i < rows.len() && (#[trigger] rows[i]).id == id
}

/// The topic rows with the given id, in storage order.
pub open spec fn topics_with_id(rows: Seq<TopicRow>, id: Seq<char>) -> Seq<TopicRow> {
    rows.filter(|r: TopicRow| r.id == id)
}

/// Whether a memo row has the given id.
pub open spec fn has_memo(rows: Seq<MemoRow>, id: Seq<char>) -> bool {
    exists|i: int| 0 <= i < rows.len() && (#[trigger] rows[i]).id == id
}

/// Whether a memo row belongs to the given topic.
pub open spec fn has_memo_of(rows: Seq<MemoRow>, topic_id: Seq<char>) -> bool {
    exists|i: int| 0 <= i < rows.len() && (#[trigger] rows[i]).topic_id == topic_id
}

/// Whether the topics mirror the memos: a topic row stands for every topic
/// that has a memo, and for no other.
pub open spec fn mirrored(t: Tables) -> bool {
    forall|topic_id: Seq<char>|
        (#[trigger] has_topic(t.topic, topic_id)) <==> has_memo_of(t.memo, topic_id)
}

/// Whether no memo row has another id than the given one.
pub open spec fn every_memo(rows: Seq<MemoRow>, id: Seq<char>) -> bool {
    forall|i: int| 0 <= i < rows.len() ==> (#[trigger] rows[i]).id == id
}

/// Whether the given id is the only one among the memo rows: there is a
/// row, and no row has another id.
pub open spec fn only_memo(rows: Seq<MemoRow>, id: Seq<char>) -> bool {
    rows.len() > 0 && every_memo(rows, id)
}

/// Whether one of the words occurs in the content.
pub open spec fn mentions_any(content: Seq<char>, words: Seq<Seq<char>>) -> bool {
    exists|k: int| 0 <= k < words.len() && is_substring(#[trigger] words[k], content)
}

/// Whether the topic has a memo in which one of the words occurs.
pub open spec fn has_word(memos: Seq<MemoRow>, topic_id: Seq<char>, words: Seq<Seq<char>>) -> bool {
    exists|j: int|
        0 <= j < memos.len() && (#[trigger] memos[j]).topic_id == topic_id && mentions_any(
            memos[j].content,
            words,
        )
}

/// Whether the topic has a tag with one of the names.
pub open spec fn has_tag(tags: Seq<TagRow>, topic_id: Seq<char>, names: Seq<Seq<char>>) -> bool {
    exists|j: int|
        0 <= j < tags.len() && (#[trigger] tags[j]).topic_id == topic_id && names.contains(
            tags[j].name,
        )
}

/// Whether a search for the words and tag names finds the topic: where
/// there are words, one of its memos must hold one of them; where there are
/// tag names, it must have a tag of one of them.
pub open spec fn topic_matches(
    t: Tables,
    topic_id: Seq<char>,
    words: Seq<Seq<char>>,
    tags: Seq<Seq<char>>,
) -> bool {
    &&& words.len() > 0 ==> has_word(t.memo, topic_id, words)
    &&& tags.len() > 0 ==> has_tag(t.topic_tag, topic_id, tags)
}

/// The topics that a search for the words and tag names finds, in storage
/// order.
pub open spec fn search_result(t: Tables, words: Seq<Seq<char>>, tags: Seq<Seq<char>>) -> Seq<
    TopicRow,
> {
    t.topic.filter(|r: TopicRow| topic_matches(t, r.id, words, tags))
}

/// The characters of each string.
fn chars_of_each(v: &Vec<String>) -> (r: Vec<Vec<char>>)
    ensures
        r@.len() == v@.len(),
        forall|k: int| 0 <= k < v@.len() ==> (#[trigger] r@[k])@ == v@[k]@,
{
    let mut r: Vec<Vec<char>> = Vec::new();
    let mut i: usize = 0;
    while i < v.len()
        invariant
            i <= v.len(),
            r@.len() == i,
            forall|k: int| 0 <= k < i ==> (#[trigger] r@[k])@ == v@[k]@,
        decreases v.len() - i,
    {
        r.push(to_chars(v[i].as_str()));
        i += 1;
    }
    r
}

/// Tells whether one of the words occurs in the content.
fn mentions(content: &Vec<char>, words: &Vec<Vec<char>>) -> (r: bool)
    ensures
        r == exists|k: int|
            0 <= k < words@.len() && is_substring((#[trigger] words@[k])@, content@),
{
    let mut i: usize = 0;
    while i < words.len()
        invariant
            i <= words.len(),
            forall|k: int| 0 <= k < i ==> !is_substring((#[trigger] words@[k])@, content@),
        decreases words.len() - i,
    {
        if contains(content, &words[i]) {
            return true;
        }
        i += 1;
    }
    false
}

/// For each memo row, whether one of the words occurs in its content.
fn memo_hits(store: &Store, words: &Vec<String>) -> (hits: Vec<bool>)
    ensures
        hits@.len() == store@.memo.len(),
        forall|j: int|
            0 <= j < hits@.len() ==> #[trigger] hits@[j] == mentions_any(
                store@.memo[j].content,
                strings(words@),
            ),
{
    let needles = chars_of_each(words);
    let mut hits: Vec<bool> = Vec::new();
    let mut i: usize = 0;
    while i < store.memo.len()
        invariant
            i <= store.memo.len(),
            hits@.len() == i,
            needles@.len() == words@.len(),
            forall|k: int| 0 <= k < words@.len() ==> (#[trigger] needles@[k])@ == words@[k]@,
            forall|j: int|
                0 <= j < i ==> #[trigger] hits@[j] == mentions_any(
                    store@.memo[j].content,
                    strings(words@),
                ),
        decreases store.memo.len() - i,
    {
        let content = to_chars(store.memo[i].content.as_str());
        let hit = mentions(&content, &needles);
        proof {
            let c = store@.memo[i as int].content;
            assert(c == content@);
            if hit {
                let k = choose|k: int|
                    0 <= k < needles@.len() && is_substring((#[trigger] needles@[k])@, content@);
                assert(is_substring(strings(words@)[k], c));
            }
            if mentions_any(c, strings(words@)) {
                let k = choose|k: int|
                    0 <= k < strings(words@).len() && is_substring(
                        #[trigger] strings(words@)[k],
                        c,
                    );
                assert(is_substring(needles@[k]@, content@));
            }
        }
        hits.push(hit);
        i += 1;
    }
    hits
}

/// Tells whether the topic has a memo that was hit.
fn topic_hit(store: &Store, hits: &Vec<bool>, topic_id: &str) -> (r: bool)
    requires
        hits@.len() == store@.memo.len(),
    ensures
        r == exists|j: int|
            0 <= j < store@.memo.len() && (#[trigger] store@.memo[j]).topic_id == topic_id@
                && hits@[j],
{
    let mut i: usize = 0;
    while i < store.memo.len()
        invariant
            i <= store.memo.len(),
            hits@.len() == store@.memo.len(),
            forall|j: int|
                0 <= j < i ==> !((#[trigger] store@.memo[j]).topic_id == topic_id@ && hits@[j]),
        decreases store.memo.len() - i,
    {
        if hits[i] && str_eq(store.memo[i].topic_id.as_str(), topic_id) {
            assert(store@.memo[i as int].topic_id == topic_id@ && hits@[i as int]);
            return true;
        }
        i += 1;
    }
    false
}

/// Tells whether the name is one of the given names.
fn name_among(names: &Vec<String>, name: &str) -> (r: bool)
    ensures
        r == strings(names@).contains(name@),
{
    let mut i: usize = 0;
    while i < names.len()
        invariant
            i <= names.len(),
            forall|k: int| 0 <= k < i ==> strings(names@)[k] != name@,
        decreases names.len() - i,
    {
        if str_eq(names[i].as_str(), name) {
            assert(strings(names@)[i as int] == name@);
            return true;
        }
        i += 1;
    }
    false
}

/// Tells whether the topic has a tag with one of the names.
fn topic_tagged(store: &Store, topic_id: &str, names: &Vec<String>) -> (r: bool)
    ensures
        r == has_tag(store@.topic_tag, topic_id@, strings(names@)),
{
    let mut i: usize = 0;
    while i < store.topic_tag.len()
        invariant
            i <= store.topic_tag.len(),
            forall|j: int|
                0 <= j < i ==> !((#[trigger] store@.topic_tag[j]).topic_id == topic_id@ && strings(
                    names@,
                ).contains(store@.topic_tag[j].name)),
        decreases store.topic_tag.len() - i,
    {
        if str_eq(store.topic_tag[i].topic_id.as_str(), topic_id) && name_among(
            names,
            store.topic_tag[i].name.as_str(),
        ) {
            assert(store@.topic_tag[i as int].topic_id == topic_id@ && strings(names@).contains(
                store@.topic_tag[i as int].name,
            ));
            return true;
        }
        i += 1;
    }
    false
}

impl Topic {
    /// Lists every topic, in storage order.
    pub fn all(store: &Store) -> (r: Result<Vec<Topic>, DbError>)
        ensures
            !store@.schema ==> r == Err::<Vec<Topic>, DbError>(DbError::NoSuchTable(Table::Topic)),
            store@.schema ==> r is Ok && topic_rows(r->Ok_0@) == store@.topic,
    {
        if !store.schema {
            return Err(DbError::NoSuchTable(Table::Topic));
        }
        let mut topics: Vec<Topic> = Vec::new();
        let mut i: usize = 0;
        while i < store.topic.len()
            invariant
                i <= store.topic.len(),
                topic_rows(topics@) == topic_rows(store.topic@.take(i as int)),
            decreases store.topic.len() - i,
        {
            let t = store.topic[i].clone();
            proof {
                lemma_map_step(store.topic@, i as int, |t: Topic| t@);
                lemma_map_push(topics@, t, |t: Topic| t@);
            }
            topics.push(t);
            i += 1;
        }
        assert(store.topic@.take(i as int) =~= store.topic@);
        Ok(topics)
    }

    /// Cuts a keyword into search tokens: the words, and the names of the
    /// tags.
    pub fn split_keyword(keyword: &str) -> (r: (Vec<String>, Vec<String>))
        ensures
            strings(r.0@) == word_tokens(pieces(keyword@)),
            strings(r.1@) == tag_tokens(pieces(keyword@)),
    {
        crate::text::split_keyword(keyword)
    }

    /// Lists the topics that a search for the words and tag names finds, in
    /// storage order.
    pub fn search_tokens(store: &Store, words: &Vec<String>, tags: &Vec<String>) -> (r: Result<
        Vec<Topic>,
        DbError,
    >)
        ensures
            !store@.schema ==> r == Err::<Vec<Topic>, DbError>(DbError::NoSuchTable(Table::Topic)),
            store@.schema ==> r is Ok && topic_rows(r->Ok_0@) == search_result(
                store@,
                strings(words@),
                strings(tags@),
            ),
    {
        if !store.schema {
            return Err(DbError::NoSuchTable(Table::Topic));
        }
        let hits = memo_hits(store, words);
        let mut topics: Vec<Topic> = Vec::new();
        let mut i: usize = 0;
        let ghost w = strings(words@);
        let ghost g = strings(tags@);
        proof {
            lemma_filter_none(
                store.topic@,
                |t: Topic| t@,
                |r: TopicRow| topic_matches(store@, r.id, w, g),
            );
        }
        while i < store.topic.len()
            invariant
                i <= store.topic.len(),
                w == strings(words@),
                g == strings(tags@),
                hits@.len() == store@.memo.len(),
                forall|j: int|
                    0 <= j < hits@.len() ==> #[trigger] hits@[j] == mentions_any(
                        store@.memo[j].content,
                        w,
                    ),
                topic_rows(topics@) == topic_rows(store.topic@.take(i as int)).filter(
                    |r: TopicRow| topic_matches(store@, r.id, w, g),
                ),
            decreases store.topic.len() - i,
        {
            proof {
                lemma_filter_step(
                    store.topic@,
                    i as int,
                    |t: Topic| t@,
                    |r: TopicRow| topic_matches(store@, r.id, w, g),
                );
            }
            let id = store.topic[i].id.as_str();
            let by_word = words.len() == 0 || topic_hit(store, &hits, id);
            let by_tag = tags.len() == 0 || topic_tagged(store, id, tags);
            proof {
                if words.len() > 0 {
                    if has_word(store@.memo, id@, w) {
                        let j = choose|j: int|
                            0 <= j < store@.memo.len() && (#[trigger] store@.memo[j]).topic_id
                                == id@ && mentions_any(store@.memo[j].content, w);
                        assert(hits@[j]);
                    }
                }
            }
            if by_word && by_tag {
                let t = store.topic[i].clone();
                proof {
                    lemma_map_push(topics@, t, |t: Topic| t@);
                }
                topics.push(t);
            }
            i += 1;
        }
        assert(store.topic@.take(i as int) =~= store.topic@);
        Ok(topics)
    }

    /// Lists the topics that a keyword finds, in storage order. The keyword
    /// is cut at white space; its words are looked for in the content of
    /// memos, its tag names among the tags.
    pub fn search(store: &Store, keyword: &str) -> (r: Result<Vec<Topic>, DbError>)
        ensures
            !store@.schema ==> r == Err::<Vec<Topic>, DbError>(DbError::NoSuchTable(Table::Topic)),
            store@.schema ==> r is Ok && topic_rows(r->Ok_0@) == search_result(
                store@,
                word_tokens(pieces(keyword@)),
                tag_tokens(pieces(keyword@)),
            ),
    {
        let (words, tags) = Topic::split_keyword(keyword);
        Topic::search_tokens(store, &words, &tags)
    }

    /// Inserts a topic row.
    pub fn create(store: &mut Store, id: &str, title: &str, timestamp: i64) -> (r: Result<
        Topic,
        DbError,
    >)
        ensures
            !old(store)@.schema ==> r == Err::<Topic, DbError>(DbError::NoSuchTable(Table::Topic))
                && *final(store) == *old(store),
            old(store)@.schema ==> r is Ok && r->Ok_0@ == (TopicRow {
                id: id@,
                title: title@,
                timestamp,
            }) && final(store)@ == (Tables {
                topic: old(store)@.topic.push(r->Ok_0@),
                ..old(store)@
            }),
    {
        if !store.schema {
            return Err(DbError::NoSuchTable(Table::Topic));
        }
        let topic = Topic { id: id.to_owned(), title: title.to_owned(), timestamp };
        store.topic.push(topic.clone());
        assert(topic_rows(store.topic@) =~= topic_rows(old(store).topic@).push(topic@));
        Ok(topic)
    }

    /// Deletes the topic rows that have this topic's id. Where there is
    /// none, nothing changes.
    pub fn delete(&self, store: &mut Store) -> (r: Result<(), DbError>)
        ensures
            !old(store)@.schema ==> r == Err::<(), DbError>(DbError::NoSuchTable(Table::Topic))
                && *final(store) == *old(store),
            old(store)@.schema ==> r is Ok && final(store)@ == (Tables {
                topic: topics_without(old(store)@.topic, self.id@),
                ..old(store)@
            }),
            !has_topic(old(store)@.topic, self.id@) ==> final(store)@ == old(store)@,
    {
        proof {
            if !has_topic(store@.topic, self.id@) {
                lemma_filter_keeps_all(store@.topic, |r: TopicRow| r.id != self.id@);
            }
        }
        if !store.schema {
            return Err(DbError::NoSuchTable(Table::Topic));
        }
        let mut rows: Vec<Topic> = Vec::new();
        core::mem::swap(&mut store.topic, &mut rows);
        let ghost all = rows@;
        proof {
            lemma_filter_none(all, |t: Topic| t@, |r: TopicRow| r.id != self.id@);
        }
        for t in it: rows
            invariant
                it.seq() == all,
                store.schema == old(store).schema,
                store.memo == old(store).memo,
                store.topic_tag == old(store).topic_tag,
                topic_rows(store.topic@) == topics_without(
                    topic_rows(all.take(it.index() as int)),
                    self.id@,
                ),
        {
            proof {
                lemma_filter_step(
                    all,
                    it.index() as int,
                    |t: Topic| t@,
                    |r: TopicRow| r.id != self.id@,
                );
            }
            if !str_eq(t.id.as_str(), self.id.as_str()) {
                proof {
                    assert(topic_rows(store.topic@.push(t)) =~= topic_rows(store.topic@).push(t@));
                }
                store.topic.push(t);
            }
        }
        assert(all.take(all.len() as int) =~= all);
        Ok(())
    }

    /// Gives the topic rows that have this topic's id a new title and
    /// timestamp, and returns the topic as it then reads.
    pub fn update(&self, store: &mut Store, title: &str, timestamp: i64) -> (r: Result<
        Topic,
        DbError,
    >)
        ensures
            !old(store)@.schema ==> r == Err::<Topic, DbError>(DbError::NoSuchTable(Table::Topic))
                && *final(store) == *old(store),
            old(store)@.schema ==> r is Ok && r->Ok_0@ == (TopicRow {
                id: self.id@,
                title: title@,
                timestamp,
            }) && final(store)@ == (Tables {
                topic: topics_updated(old(store)@.topic, self.id@, title@, timestamp),
                ..old(store)@
            }),
    {
        if !store.schema {
            return Err(DbError::NoSuchTable(Table::Topic));
        }
        let mut rows: Vec<Topic> = Vec::new();
        core::mem::swap(&mut store.topic, &mut rows);
        let ghost all = rows@;
        assert(topic_rows(store.topic@) =~= topics_updated(
            topic_rows(all.take(0)),
            self.id@,
            title@,
            timestamp,
        ));
        for t in it: rows
            invariant
                it.seq() == all,
                store.schema == old(store).schema,
                store.memo == old(store).memo,
                store.topic_tag == old(store).topic_tag,
                topic_rows(store.topic@) == topics_updated(
                    topic_rows(all.take(it.index() as int)),
                    self.id@,
                    title@,
                    timestamp,
                ),
        {
            let row = if str_eq(t.id.as_str(), self.id.as_str()) {
                Topic { id: t.id, title: title.to_owned(), timestamp }
            } else {
                t
            };
            proof {
                let k = it.index() as int;
                let change = |r: TopicRow|
                    if r.id == self.id@ {
                        TopicRow { id: r.id, title: title@, timestamp }
                    } else {
                        r
                    };
                lemma_map_step(all, k, |t: Topic| t@);
                lemma_map_push(topic_rows(all.take(k)), all[k]@, change);
                lemma_map_push(store.topic@, row, |t: Topic| t@);
            }
            store.topic.push(row);
        }
        assert(all.take(all.len() as int) =~= all);
        Ok(Topic { id: self.id.clone(), title: title.to_owned(), timestamp })
    }
}

/// The tags of one topic, in storage order.
pub open spec fn tags_of_topic(rows: Seq<TagRow>, topic_id: Seq<char>) -> Seq<TagRow> {
    rows.filter(|r: TagRow| r.topic_id == topic_id)
}

/// The names of the given tags.
pub open spec fn tag_names(rows: Seq<TagRow>) -> Seq<Seq<char>> {
    rows.map_values(|r: TagRow| r.name)
}

/// The tags that stay when those with the given name on the given topic are
/// deleted.
pub open spec fn tags_without(rows: Seq<TagRow>, name: Seq<char>, topic_id: Seq<char>) -> Seq<
    TagRow,
> {
    rows.filter(|r: TagRow| !(r.name == name && r.topic_id == topic_id))
}

/// Whether the topic has a tag of the given name.
pub open spec fn has_tag_named(rows: Seq<TagRow>, name: Seq<char>, topic_id: Seq<char>) -> bool {
    exists|i: int|
        0 <= i < rows.len() && (#[trigger] rows[i]).name == name && rows[i].topic_id == topic_id
}

/// The tags that stay when those of the given topic are deleted.
pub open spec fn tags_without_topic(rows: Seq<TagRow>, topic_id: Seq<char>) -> Seq<TagRow> {
    rows.filter(|r: TagRow| r.topic_id != topic_id)
}

impl TopicTag {
    /// Deletes every tag row of a topic. Where it has none, nothing changes.
    pub fn delete_by_topic(store: &mut Store, topic_id: &str) -> (r: Result<(), DbError>)
        ensures
            !old(store)@.schema ==> r == Err::<(), DbError>(DbError::NoSuchTable(Table::TopicTag))
                && *final(store) == *old(store),
            old(store)@.schema ==> r is Ok && final(store)@ == (Tables {
                topic_tag: tags_without_topic(old(store)@.topic_tag, topic_id@),
                ..old(store)@
            }),
    {
        if !store.schema {
            return Err(DbError::NoSuchTable(Table::TopicTag));
        }
        let mut rows: Vec<TopicTag> = Vec::new();
        core::mem::swap(&mut store.topic_tag, &mut rows);
        let ghost all = rows@;
        proof {
            lemma_filter_none(all, |t: TopicTag| t@, |r: TagRow| r.topic_id != topic_id@);
        }
        for t in it: rows
            invariant
                it.seq() == all,
                store.schema == old(store).schema,
                store.memo == old(store).memo,
                store.topic == old(store).topic,
                tag_rows(store.topic_tag@) == tags_without_topic(
                    tag_rows(all.take(it.index() as int)),
                    topic_id@,
                ),
        {
            proof {
                lemma_filter_step(
                    all,
                    it.index() as int,
                    |t: TopicTag| t@,
                    |r: TagRow| r.topic_id != topic_id@,
                );
            }
            if !str_eq(t.topic_id.as_str(), topic_id) {
                proof {
                    lemma_map_push(store.topic_tag@, t, |t: TopicTag| t@);
                }
                store.topic_tag.push(t);
            }
        }
        assert(all.take(all.len() as int) =~= all);
        Ok(())
    }

    /// Lists the names of a topic's tags, in storage order.
    pub fn all_by_topic(store: &Store, topic_id: &str) -> (r: Result<Vec<String>, DbError>)
        ensures
            !store@.schema ==> r == Err::<Vec<String>, DbError>(
                DbError::NoSuchTable(Table::TopicTag),
            ),
            store@.schema ==> r is Ok && strings(r->Ok_0@) == tag_names(
                tags_of_topic(store@.topic_tag, topic_id@),
            ),
    {
        if !store.schema {
            return Err(DbError::NoSuchTable(Table::TopicTag));
        }
        let mut names: Vec<String> = Vec::new();
        let mut i: usize = 0;
        proof {
            lemma_filter_none(
                store.topic_tag@,
                |t: TopicTag| t@,
                |r: TagRow| r.topic_id == topic_id@,
            );
            assert(strings(names@) =~= tag_names(Seq::<TagRow>::empty()));
        }
        while i < store.topic_tag.len()
            invariant
                i <= store.topic_tag.len(),
                strings(names@) == tag_names(
                    tags_of_topic(tag_rows(store.topic_tag@.take(i as int)), topic_id@),
                ),
            decreases store.topic_tag.len() - i,
        {
            proof {
                lemma_filter_step(
                    store.topic_tag@,
                    i as int,
                    |t: TopicTag| t@,
                    |r: TagRow| r.topic_id == topic_id@,
                );
            }
            if str_eq(store.topic_tag[i].topic_id.as_str(), topic_id) {
                let name = store.topic_tag[i].name.clone();
                proof {
                    let before = tags_of_topic(
                        tag_rows(store.topic_tag@.take(i as int)),
                        topic_id@,
                    );
                    lemma_map_push(names@, name, |s: String| s@);
                    lemma_map_push(before, store.topic_tag@[i as int]@, |r: TagRow| r.name);
                }
                names.push(name);
            }
            i += 1;
        }
        assert(store.topic_tag@.take(i as int) =~= store.topic_tag@);
        Ok(names)
    }

    /// Inserts a tag row. A tag that the topic already has is stored again.
    pub fn create(store: &mut Store, name: &str, topic_id: &str) -> (r: Result<TopicTag, DbError>)
        ensures
            !old(store)@.schema ==> r == Err::<TopicTag, DbError>(
                DbError::NoSuchTable(Table::TopicTag),
            ) && *final(store) == *old(store),
            old(store)@.schema ==> r is Ok && r->Ok_0@ == (TagRow {
                name: name@,
                topic_id: topic_id@,
            }) && final(store)@ == (Tables {
                topic_tag: old(store)@.topic_tag.push(r->Ok_0@),
                ..old(store)@
            }),
    {
        if !store.schema {
            return Err(DbError::NoSuchTable(Table::TopicTag));
        }
        let tag = TopicTag { name: name.to_owned(), topic_id: topic_id.to_owned() };
        store.topic_tag.push(tag.clone());
        assert(tag_rows(store.topic_tag@) =~= tag_rows(old(store).topic_tag@).push(tag@));
        Ok(tag)
    }

    /// Deletes the tag rows with this tag's name on this tag's topic. Where
    /// there is none, nothing changes.
    pub fn delete(&self, store: &mut Store) -> (r: Result<(), DbError>)
        ensures
            !old(store)@.schema ==> r == Err::<(), DbError>(DbError::NoSuchTable(Table::TopicTag))
                && *final(store) == *old(store),
            old(store)@.schema ==> r is Ok && final(store)@ == (Tables {
                topic_tag: tags_without(old(store)@.topic_tag, self.name@, self.topic_id@),
                ..old(store)@
            }),
            !has_tag_named(old(store)@.topic_tag, self.name@, self.topic_id@) ==> final(store)@
                == old(store)@,
    {
        proof {
            if !has_tag_named(store@.topic_tag, self.name@, self.topic_id@) {
                lemma_filter_keeps_all(
                    store@.topic_tag,
                    |r: TagRow| !(r.name == self.name@ && r.topic_id == self.topic_id@),
                );
            }
        }
        if !store.schema {
            return Err(DbError::NoSuchTable(Table::TopicTag));
        }
        let mut rows: Vec<TopicTag> = Vec::new();
        core::mem::swap(&mut store.topic_tag, &mut rows);
        let ghost all = rows@;
        proof {
            lemma_filter_none(
                all,
                |t: TopicTag| t@,
                |r: TagRow| !(r.name == self.name@ && r.topic_id == self.topic_id@),
            );
        }
        for t in it: rows
            invariant
                it.seq() == all,
                store.schema == old(store).schema,
                store.memo == old(store).memo,
                store.topic == old(store).topic,
                tag_rows(store.topic_tag@) == tags_without(
                    tag_rows(all.take(it.index() as int)),
                    self.name@,
                    self.topic_id@,
                ),
        {
            proof {
                lemma_filter_step(
                    all,
                    it.index() as int,
                    |t: TopicTag| t@,
                    |r: TagRow| !(r.name == self.name@ && r.topic_id == self.topic_id@),
                );
            }
            if !(str_eq(t.name.as_str(), self.name.as_str()) && str_eq(
                t.topic_id.as_str(),
                self.topic_id.as_str(),
            )) {
                proof {
                    assert(tag_rows(store.topic_tag@.push(t)) =~= tag_rows(store.topic_tag@).push(
                        t@,
                    ));
                }
                store.topic_tag.push(t);
            }
        }
        assert(all.take(all.len() as int) =~= all);
        Ok(())
    }
}

/// The folder of the application in the platform's data directory.
pub const APP_FOLDER: &'static str = "markdown-memo";

/// The name of the storage file in that folder.
pub const DB_FILE: &'static str = "memo.db";

/// Where the storage is kept.
pub enum Location {
    /// In memory only: gone when the process ends.
    Memory,
    /// In the file at the given path.
    File(String),
    /// In the file `DB_FILE` of the folder `APP_FOLDER` in the platform's
    /// data directory.
    Default,
}

/// Decides where the storage is kept: in memory where that is asked for,
/// else at the given path, else at the default place.
pub fn storage_location(file_path: Option<&str>, in_memory: bool) -> (place: Location)
    ensures
        in_memory ==> place is Memory,
        !in_memory ==> match file_path {
            Some(path) => (place matches Location::File(p) && p@ == path@),
            None => place is Default,
        },
{
    if in_memory {
        Location::Memory
    } else {
        match file_path {
            Some(path) => Location::File(path.to_owned()),
            None => Location::Default,
        }
    }
}

impl Store {
    /// A storage that holds nothing, not even the tables.
    pub fn open_in_memory() -> (store: Store)
        ensures
            store@ == (Tables {
                schema: false,
                memo: Seq::empty(),
                topic: Seq::empty(),
                topic_tag: Seq::empty(),
            }),
    {
        let store = Store {
            schema: false,
            memo: Vec::new(),
            topic: Vec::new(),
            topic_tag: Vec::new(),
        };
        assert(store@.memo =~= Seq::empty());
        assert(store@.topic =~= Seq::empty());
        assert(store@.topic_tag =~= Seq::empty());
        store
    }
}

/// Creates the three tables where the storage does not hold them yet. The
/// rows of tables that exist stay as they are.
pub fn create_table_if_not_exists(store: &mut Store) -> (r: Result<(), DbError>)
    ensures
        r is Ok,
        final(store)@ == (Tables { schema: true, ..old(store)@ }),
{
    store.schema = true;
    Ok(())
}

} // verus!
