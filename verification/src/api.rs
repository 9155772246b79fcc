//! The operations offered to callers: memo, topic and tag services.

use crate::db;
use crate::db::{
    date_memos, date_topics, dated_memos, dated_topics, every_memo, has_memo, has_topic,
    latest_memo, memo_rows, memos_of_topic, memos_without, only_memo, search_result, tag_names,
    tags_of_topic, tags_without_topic, topic_rows, topics_updated, topics_without, DbError,
    MemoRow, Table, Tables, TagRow, TopicRow, TopicTag,
};
use crate::error::{database, Error};
use crate::laws::{lemma_memo_listing, lemma_topic_listing};
use crate::model;
use crate::recency::{
    latest_first, lemma_latest_first_len, lemma_latest_first_viewed, sort_latest_first, viewed,
};
use crate::text::{
    at_most, count_leading, count_trailing, leading_run, pieces, str_eq, strings, tag_tokens,
    to_chars, trimmed, without_leading, word_tokens, CharClass,
};
use crate::{AppData, POISONED};
use std::time::{Duration, SystemTime, SystemTimeError};
use uuid::Uuid;
use vstd::prelude::*;
use vstd::string::StrSliceExecFns;

verus! {

/// The longest title, in characters, before trimming.
pub const TITLE_LIMIT: usize = 10;

/// The title that a memo's content gives its topic: the heading markers at
/// the start are dropped, the rest is cut at the first line feed and after
/// ten characters, and white space at both ends is removed.
pub open spec fn title_of(content: Seq<char>) -> Seq<char> {
    let body = without_leading(content, CharClass::Hash);
    let line = leading_run(body, CharClass::NotNewline);
    trimmed(at_most(line, TITLE_LIMIT as nat))
}

/// Derives a topic title from a memo's content.
pub fn parse_title(content: &str) -> (title: String)
    ensures
        title@ == title_of(content@),
{
    let chars = to_chars(content);
    let n: usize = chars.len();
    let start: usize = count_leading(&chars, 0, n, CharClass::Hash);
    let line: usize = count_leading(&chars, start, n, CharClass::NotNewline);
    let end: usize = if line > TITLE_LIMIT {
        start + TITLE_LIMIT
    } else {
        start + line
    };
    let from: usize = start + count_leading(&chars, start, end, CharClass::WhiteSpace);
    let to: usize = end - count_trailing(&chars, from, end, CharClass::WhiteSpace);
    proof {
        let s = content@;
        assert(s.subrange(0, n as int) =~= s);
        let body = without_leading(s, CharClass::Hash);
        assert(body =~= s.subrange(start as int, n as int));
        let run = leading_run(body, CharClass::NotNewline);
        assert(run =~= s.subrange(start as int, start + line));
        let cut = at_most(run, TITLE_LIMIT as nat);
        assert(cut =~= s.subrange(start as int, end as int));
        let head = without_leading(cut, CharClass::WhiteSpace);
        assert(head =~= s.subrange(from as int, end as int));
        assert(trimmed(cut) =~= s.subrange(from as int, to as int));
    }
    content.substring_char(from, to).to_owned()
}

/// The call failed because the storage handle is poisoned.
pub open spec fn lock_failed<T>(r: Result<T, Error>) -> bool {
    r matches Err(Error::LockError(msg)) && msg@ == POISONED@
}

/// The call failed because the storage does not hold the table.
pub open spec fn table_missing<T>(r: Result<T, Error>, table: Table) -> bool {
    r matches Err(Error::Database(DbError::NoSuchTable(t))) && t == table
}

/// The handle can be acquired and the storage holds its tables.
pub open spec fn ready(data: AppData) -> bool {
    !data.poisoned && data.db@.schema
}

/// A stored memo as callers see it, with the mark of the latest.
pub open spec fn with_latest(row: MemoRow, latest: bool) -> model::MemoView {
    model::MemoView {
        id: row.id,
        topic_id: row.topic_id,
        timestamp: row.timestamp,
        latest,
        content: row.content,
    }
}

/// What stands for the memo of a topic that has none yet.
pub open spec fn placeholder(topic_id: Seq<char>) -> model::MemoView {
    model::MemoView {
        id: Seq::empty(),
        topic_id,
        timestamp: 0,
        latest: true,
        content: Seq::empty(),
    }
}

/// A stored topic as callers see it.
pub open spec fn shown(row: TopicRow) -> model::TopicView {
    model::TopicView { id: row.id, title: row.title, timestamp: row.timestamp }
}

/// The position of the first memo with the given id, or the number of memos
/// where none has it.
pub open spec fn first_with_id(rows: Seq<MemoRow>, id: Seq<char>) -> int
    decreases rows.len(),
{
    if rows.len() == 0 || rows[0].id == id {
        0
    } else {
        1 + first_with_id(rows.skip(1), id)
    }
}

/// `first_with_id` is the first position at which the id stands.
pub proof fn lemma_first_with_id(rows: Seq<MemoRow>, id: Seq<char>, k: int)
    requires
        0 <= k <= rows.len(),
        forall|j: int| 0 <= j < k ==> (#[trigger] rows[j]).id != id,
        k == rows.len() || rows[k].id == id,
    ensures
        first_with_id(rows, id) == k,
    decreases rows.len(),
{
    if k > 0 {
        assert(rows[0].id != id);
        let rest = rows.skip(1);
        assert forall|j: int| 0 <= j < k - 1 implies (#[trigger] rest[j]).id != id by {
            assert(rest[j] == rows[j + 1]);
        }
        lemma_first_with_id(rest, id, k - 1);
    }
}

/// The memos of a topic as a listing shows them: latest first, and the
/// first one marked as the latest.
pub open spec fn memo_listing(mine: Seq<MemoRow>) -> Seq<model::MemoView> {
    let sorted = latest_first(dated_memos(mine));
    Seq::new(sorted.len(), |k: int| with_latest(sorted[k].1, k == 0))
}

/// Topics as a listing shows them: latest first.
pub open spec fn topic_listing(found: Seq<TopicRow>) -> Seq<model::TopicView> {
    let sorted = latest_first(dated_topics(found));
    Seq::new(sorted.len(), |k: int| shown(sorted[k].1))
}

/// The topics that a keyword selects: all of them for the empty keyword,
/// else those that a search for its tokens finds.
pub open spec fn topics_found(t: Tables, keyword: Seq<char>) -> Seq<TopicRow> {
    if keyword.len() == 0 {
        t.topic
    } else {
        search_result(t, word_tokens(pieces(keyword)), tag_tokens(pieces(keyword)))
    }
}

/// Shows a stored memo to callers.
pub fn present(memo: db::Memo, latest: bool) -> (m: model::Memo)
    ensures
        m@ == with_latest(memo@, latest),
{
    model::Memo {
        id: memo.id,
        topic_id: memo.topic_id,
        timestamp: memo.timestamp,
        latest,
        content: memo.content,
    }
}

// -----------------------------------------------------------------------------------------------

/// The storage after a memo was created: the memo is stored, and its topic
/// carries the title that the content gives and the memo's timestamp. A
/// topic that was there is updated; one that was not is stored.
pub open spec fn memo_created(
    t: Tables,
    id: Seq<char>,
    topic_id: Seq<char>,
    timestamp: i64,
    content: Seq<char>,
) -> Tables {
    let title = title_of(content);
    Tables {
        memo: t.memo.push(MemoRow { id, topic_id, timestamp, content }),
        topic: if has_topic(t.topic, topic_id) {
            topics_updated(t.topic, topic_id, title, timestamp)
        } else {
            t.topic.push(TopicRow { id: topic_id, title, timestamp })
        },
        ..t
    }
}

/// The storage after the memo with the given id was deleted from a topic.
/// Where the topic has such a memo, the memos with that id are gone. Where
/// it was the only memo of the topic, the topic and its tags are gone too.
/// Where the topic has no such memo, nothing is deleted.
pub open spec fn memo_deleted(t: Tables, topic_id: Seq<char>, id: Seq<char>) -> Tables {
    let mine = memos_of_topic(t.memo, topic_id);
    Tables {
        memo: if has_memo(mine, id) {
            memos_without(t.memo, id)
        } else {
            t.memo
        },
        topic: if only_memo(mine, id) {
            topics_without(t.topic, topic_id)
        } else {
            t.topic
        },
        topic_tag: if only_memo(mine, id) {
            tags_without_topic(t.topic_tag, topic_id)
        } else {
            t.topic_tag
        },
        ..t
    }
}

/// The length of a memo id.
pub const ID_LEN: usize = 36;

/// Makes the id of a new memo.
///
/// Calls `uuid::Uuid::new_v4` and formats the value with its `Display`
/// impl. The value is random; the contract claims only the length of the
/// hyphenated form, which is the same for every value.
#[verifier::external_body]
fn new_memo_id() -> (id: String)
    ensures
        id@.len() == ID_LEN,
{
    Uuid::new_v4().to_string()
}

/// A point in time as the system clock reads it.
#[verifier::external_type_specification]
#[verifier::external_body]
pub struct ExSystemTime(SystemTime);

/// The failure of `SystemTime::duration_since`.
#[verifier::external_type_specification]
#[verifier::external_body]
pub struct ExSystemTimeError(SystemTimeError);

/// `SystemTime::now` reads the system clock. Nothing is claimed of the value.
pub assume_specification[ SystemTime::now ]() -> (t: SystemTime)
;

/// `SystemTime::duration_since` measures the time from `earlier` to `t`, and
/// fails where `earlier` is the later one. Nothing is claimed of the value.
pub assume_specification[ SystemTime::duration_since ](t: &SystemTime, earlier: SystemTime) -> (r:
    Result<Duration, SystemTimeError>)
;

/// `Duration::as_secs` gives the whole seconds of a duration. Nothing is
/// claimed of the value.
pub assume_specification[ Duration::as_secs ](d: &Duration) -> (secs: u64)
;

/// The start of Unix time, `SystemTime::UNIX_EPOCH`.
#[verifier::external_body]
fn unix_epoch() -> (t: SystemTime) {
    SystemTime::UNIX_EPOCH
}

/// Reads the clock in whole seconds of Unix time. A clock that stands
/// before the start of Unix time reads as zero.
pub fn unix_timestamp() -> (t: i64)
    ensures
        t >= 0,
{
    let now = SystemTime::now();
    let elapsed: Option<u64> = match now.duration_since(unix_epoch()) {
        Ok(d) => Some(d.as_secs()),
        Err(_) => None,
    };
    timestamp_from(elapsed)
}

/// The timestamp for a reading of the clock: the whole seconds since the
/// start of Unix time, or the greatest timestamp where they exceed it. A
/// clock that stands before the start of Unix time has no such seconds and
/// reads as zero.
pub open spec fn timestamp_of(elapsed: Option<u64>) -> i64 {
    match elapsed {
        Some(secs) => if secs > i64::MAX {
            i64::MAX
        } else {
            secs as i64
        },
        None => 0,
    }
}

/// Turns a reading of the clock into a timestamp.
pub fn timestamp_from(elapsed: Option<u64>) -> (t: i64)
    ensures
        t == timestamp_of(elapsed),
{
    match elapsed {
        Some(secs) => {
            if secs > 0x7fff_ffff_ffff_ffff {
                i64::MAX
            } else {
                secs as i64
            }
        },
        None => 0,
    }
}

/// Tells whether a topic row has the given id.
fn topic_exists(topics: &Vec<db::Topic>, id: &str) -> (r: bool)
    ensures
        r == has_topic(topic_rows(topics@), id@),
{
    let mut i: usize = 0;
    while i < topics.len()
        invariant
            i <= topics.len(),
            forall|j: int| 0 <= j < i ==> (#[trigger] topic_rows(topics@)[j]).id != id@,
        decreases topics.len() - i,
    {
        if str_eq(topics[i].id.as_str(), id) {
            assert(topic_rows(topics@)[i as int].id == id@);
            return true;
        }
        i += 1;
    }
    false
}

/// Stores a memo with the given id and timestamp, and stores or updates its
/// topic. Nothing changes where the call fails.
pub fn create_memo_with(
    data: &mut AppData,
    id: &str,
    timestamp: i64,
    topic_id: &str,
    content: &str,
) -> (r: Result<model::Memo, Error>)
    ensures
        old(data).poisoned ==> lock_failed(r),
        !old(data).poisoned && !old(data).db@.schema ==> table_missing(r, Table::Topic),
        !ready(*old(data)) ==> *final(data) == *old(data),
        ready(*old(data)) ==> r is Ok && r->Ok_0@ == with_latest(
            MemoRow { id: id@, topic_id: topic_id@, timestamp, content: content@ },
            true,
        ) && !final(data).poisoned && final(data).db@ == memo_created(
            old(data).db@,
            id@,
            topic_id@,
            timestamp,
            content@,
        ),
{
    let db = match data.lock() {
        Ok(db) => db,
        Err(e) => {
            return Err(e);
        },
    };
    let title = parse_title(content);
    let topics = match database(db::Topic::all(db)) {
        Ok(topics) => topics,
        Err(e) => {
            return Err(e);
        },
    };
    if topic_exists(&topics, topic_id) {
        let topic = db::Topic { id: topic_id.to_owned(), title: String::new(), timestamp: 0 };
        match database(topic.update(db, title.as_str(), timestamp)) {
            Ok(_) => {},
            Err(e) => {
                return Err(e);
            },
        }
    } else {
        match database(db::Topic::create(db, topic_id, title.as_str(), timestamp)) {
            Ok(_) => {},
            Err(e) => {
                return Err(e);
            },
        }
    }
    match database(db::Memo::create(db, id, topic_id, timestamp, content)) {
        Ok(memo) => Ok(present(memo, true)),
        Err(e) => Err(e),
    }
}

/// Stores a new memo under a fresh id and the current time, and stores or
/// updates its topic. The memo comes back marked as the latest. Nothing
/// changes where the call fails.
pub fn create_memo_fn(data: &mut AppData, topic_id: &str, content: &str) -> (r: Result<
    model::Memo,
    Error,
>)
    ensures
        old(data).poisoned ==> lock_failed(r),
        !old(data).poisoned && !old(data).db@.schema ==> table_missing(r, Table::Topic),
        !ready(*old(data)) ==> *final(data) == *old(data),
        ready(*old(data)) ==> r is Ok && r->Ok_0@.id.len() == ID_LEN && r->Ok_0@.timestamp >= 0
            && r->Ok_0@.topic_id == topic_id@ && r->Ok_0@.content == content@ && r->Ok_0@.latest
            && !final(data).poisoned && final(data).db@ == memo_created(
            old(data).db@,
            r->Ok_0@.id,
            topic_id@,
            r->Ok_0@.timestamp,
            content@,
        ),
{
    let id = new_memo_id();
    let timestamp = unix_timestamp();
    create_memo_with(data, id.as_str(), timestamp, topic_id, content)
}

/// Deletes the memo with the given id from a topic. Where it was the only
/// memo of the topic, the topic and its tags are deleted too. Where the
/// topic has no such memo, nothing changes. Nothing changes where the call
/// fails.
pub fn delete_memo_fn(data: &mut AppData, topic_id: &str, id: &str) -> (r: Result<(), Error>)
    ensures
        old(data).poisoned ==> lock_failed(r),
        !old(data).poisoned && !old(data).db@.schema ==> table_missing(r, Table::Memo),
        !ready(*old(data)) ==> *final(data) == *old(data),
        ready(*old(data)) ==> r is Ok && !final(data).poisoned && final(data).db@ == memo_deleted(
            old(data).db@,
            topic_id@,
            id@,
        ),
{
    let db = match data.lock() {
        Ok(db) => db,
        Err(e) => {
            return Err(e);
        },
    };
    let memos = match database(db::Memo::all_by_topic(db, topic_id)) {
        Ok(memos) => memos,
        Err(e) => {
            return Err(e);
        },
    };
    let ghost mine = memo_rows(memos@);
    let mut hit = false;
    let mut delete_all = true;
    let mut i: usize = 0;
    while i < memos.len()
        invariant
            i <= memos.len(),
            mine == memo_rows(memos@),
            hit == has_memo(mine.take(i as int), id@),
            delete_all == every_memo(mine.take(i as int), id@),
        decreases memos.len() - i,
    {
        proof {
            let before = mine.take(i as int);
            let after = mine.take(i + 1);
            assert(after[i as int] == mine[i as int]);
            assert forall|j: int| 0 <= j < i implies before[j] == after[j] by {}
            if has_memo(before, id@) {
                let j = choose|j: int| 0 <= j < before.len() && (#[trigger] before[j]).id == id@;
                assert(after[j].id == id@);
            }
            if has_memo(after, id@) && mine[i as int].id != id@ {
                let j = choose|j: int| 0 <= j < after.len() && (#[trigger] after[j]).id == id@;
                assert(before[j].id == id@);
            }
            if every_memo(after, id@) {
                assert forall|j: int| 0 <= j < before.len() implies (#[trigger] before[j]).id
                    == id@ by {
                    assert(after[j].id == id@);
                }
            }
        }
        if str_eq(memos[i].id.as_str(), id) {
            hit = true;
        } else {
            delete_all = false;
        }
        i += 1;
    }
    assert(mine.take(i as int) =~= mine);
    if hit {
        let memo = db::Memo {
            id: id.to_owned(),
            topic_id: topic_id.to_owned(),
            timestamp: 0,
            content: String::new(),
        };
        match database(memo.delete(db)) {
            Ok(_) => {},
            Err(e) => {
                return Err(e);
            },
        }
    }
    proof {
        if only_memo(mine, id@) {
            assert(mine[0].id == id@);
        }
        assert((hit && delete_all) == only_memo(mine, id@));
    }
    if hit && delete_all {
        let topic = db::Topic { id: topic_id.to_owned(), title: String::new(), timestamp: 0 };
        match database(topic.delete(db)) {
            Ok(_) => {},
            Err(e) => {
                return Err(e);
            },
        }
        match database(TopicTag::delete_by_topic(db, topic_id)) {
            Ok(_) => {},
            Err(e) => {
                return Err(e);
            },
        }
    }
    Ok(())
}

/// Puts a tag on a topic. A tag that the topic already has is stored again.
pub fn add_memo_tag_fn(data: &mut AppData, topic_id: &str, name: &str) -> (r: Result<(), Error>)
    ensures
        old(data).poisoned ==> lock_failed(r),
        !old(data).poisoned && !old(data).db@.schema ==> table_missing(r, Table::TopicTag),
        !ready(*old(data)) ==> *final(data) == *old(data),
        ready(*old(data)) ==> r is Ok && !final(data).poisoned && final(data).db@ == (Tables {
            topic_tag: old(data).db@.topic_tag.push(TagRow { name: name@, topic_id: topic_id@ }),
            ..old(data).db@
        }),
{
    let db = match data.lock() {
        Ok(db) => db,
        Err(e) => {
            return Err(e);
        },
    };
    match database(TopicTag::create(db, name, topic_id)) {
        Ok(_) => Ok(()),
        Err(e) => Err(e),
    }
}

/// Takes a tag off a topic. Where the topic has no such tag, nothing changes.
pub fn remove_memo_tag_fn(data: &mut AppData, topic_id: &str, name: &str) -> (r: Result<
    (),
    Error,
>)
    ensures
        old(data).poisoned ==> lock_failed(r),
        !old(data).poisoned && !old(data).db@.schema ==> table_missing(r, Table::TopicTag),
        !ready(*old(data)) ==> *final(data) == *old(data),
        ready(*old(data)) ==> r is Ok && !final(data).poisoned && final(data).db@ == (Tables {
            topic_tag: crate::db::tags_without(old(data).db@.topic_tag, name@, topic_id@),
            ..old(data).db@
        }),
{
    let db = match data.lock() {
        Ok(db) => db,
        Err(e) => {
            return Err(e);
        },
    };
    let tag = TopicTag { name: name.to_owned(), topic_id: topic_id.to_owned() };
    database(tag.delete(db))
}

/// Lists the names of a topic's tags, in storage order.
pub fn get_memo_tag_fn(data: &AppData, topic_id: &str) -> (r: Result<Vec<String>, Error>)
    ensures
        data.poisoned ==> lock_failed(r),
        !data.poisoned && !data.db@.schema ==> table_missing(r, Table::TopicTag),
        ready(*data) ==> r is Ok && strings(r->Ok_0@) == tag_names(
            tags_of_topic(data.db@.topic_tag, topic_id@),
        ),
{
    let db = match data.read() {
        Ok(db) => db,
        Err(e) => {
            return Err(e);
        },
    };
    database(TopicTag::all_by_topic(db, topic_id))
}

// -----------------------------------------------------------------------------------------------

/// Fetches one memo of a topic: the latest where no id is given, else the
/// first one with the given id, marked as the latest where it has the
/// latest memo's id. A topic without memos yields a placeholder, not a
/// failure; an id that no memo of the topic has is a failure.
pub fn get_memo_fn(data: &AppData, topic_id: &str, id: Option<&str>) -> (r: Result<
    model::Memo,
    Error,
>)
    ensures
        data.poisoned ==> lock_failed(r),
        !data.poisoned && !data.db@.schema ==> table_missing(r, Table::Memo),
        ready(*data) ==> ({
            let mine = memos_of_topic(data.db@.memo, topic_id@);
            &&& mine.len() == 0 ==> r is Ok && r->Ok_0@ == placeholder(topic_id@)
            &&& mine.len() > 0 ==> match id {
                None => r is Ok && r->Ok_0@ == with_latest(latest_memo(mine), true),
                Some(want) => {
                    let at = first_with_id(mine, want@);
                    &&& at < mine.len() ==> r is Ok && r->Ok_0@ == with_latest(
                        mine[at],
                        want@ == latest_memo(mine).id,
                    )
                    &&& at >= mine.len() ==> (r matches Err(Error::NotFound(s)) && s@ == want@)
                },
            }
        }),
        ready(*data) && id is None ==> r is Ok && r->Ok_0@.latest,
{
    let db = match data.read() {
        Ok(db) => db,
        Err(e) => {
            return Err(e);
        },
    };
    let memos = match database(db::Memo::all_by_topic(db, topic_id)) {
        Ok(memos) => memos,
        Err(e) => {
            return Err(e);
        },
    };
    let latest = match db::Memo::latest_by_topic(db, topic_id) {
        Ok(latest) => latest,
        Err(_) => {
            return Ok(
                model::Memo {
                    id: String::new(),
                    topic_id: topic_id.to_owned(),
                    timestamp: 0,
                    latest: true,
                    content: String::new(),
                },
            );
        },
    };
    let want: &str = match id {
        Some(want) => want,
        None => {
            return Ok(present(latest, true));
        },
    };
    let ghost mine = memo_rows(memos@);
    let mut i: usize = 0;
    while i < memos.len()
        invariant
            i <= memos.len(),
            ready(*data),
            id == Some(want),
            mine == memo_rows(memos@),
            mine == memos_of_topic(data.db@.memo, topic_id@),
            mine.len() > 0,
            latest@ == latest_memo(mine),
            forall|j: int| 0 <= j < i ==> (#[trigger] mine[j]).id != want@,
        decreases memos.len() - i,
    {
        if str_eq(memos[i].id.as_str(), want) {
            proof {
                lemma_first_with_id(mine, want@, i as int);
            }
            let is_latest = str_eq(want, latest.id.as_str());
            return Ok(present(memos[i].clone(), is_latest));
        }
        i += 1;
    }
    proof {
        lemma_first_with_id(mine, want@, i as int);
    }
    Err(Error::NotFound(want.to_owned()))
}

/// Lists the memos of a topic, latest first, the first one marked as the
/// latest.
pub fn get_memo_all_fn(data: &AppData, topic_id: &str) -> (r: Result<Vec<model::Memo>, Error>)
    ensures
        data.poisoned ==> lock_failed(r),
        !data.poisoned && !data.db@.schema ==> table_missing(r, Table::Memo),
        ready(*data) ==> r is Ok && model::memo_views(r->Ok_0@) == memo_listing(
            memos_of_topic(data.db@.memo, topic_id@),
        ),
        ready(*data) ==> r->Ok_0@.len() == memos_of_topic(data.db@.memo, topic_id@).len(),
        ready(*data) ==> forall|a: int, b: int|
            0 <= a <= b < r->Ok_0@.len() ==> (#[trigger] r->Ok_0@[a]).timestamp >= (
            #[trigger] r->Ok_0@[b]).timestamp,
        ready(*data) ==> forall|k: int|
            0 <= k < r->Ok_0@.len() ==> (#[trigger] r->Ok_0@[k]).latest == (k == 0),
{
    let db = match data.read() {
        Ok(db) => db,
        Err(e) => {
            return Err(e);
        },
    };
    let memos = match database(db::Memo::all_by_topic(db, topic_id)) {
        Ok(memos) => memos,
        Err(e) => {
            return Err(e);
        },
    };
    let ghost mine = memo_rows(memos@);
    let pairs = date_memos(memos);
    let sorted = sort_latest_first(pairs);
    proof {
        lemma_latest_first_viewed(pairs@);
        lemma_latest_first_len(pairs@);
    }
    let ghost rows = sorted@;
    let mut models: Vec<model::Memo> = Vec::new();
    for pair in it: sorted
        invariant
            it.seq() == rows,
            models@.len() == it.index(),
            forall|k: int|
                0 <= k < models@.len() ==> (#[trigger] models@[k])@ == with_latest(
                    rows[k].1@,
                    k == 0,
                ),
    {
        let first = models.len() == 0;
        models.push(present(pair.1, first));
    }
    proof {
        assert(viewed(rows) == latest_first(dated_memos(mine)));
        assert(model::memo_views(models@) =~= memo_listing(mine));
        lemma_memo_listing(mine);
        assert forall|a: int, b: int| 0 <= a <= b < models@.len() implies (
        #[trigger] models@[a]).timestamp >= (#[trigger] models@[b]).timestamp by {
            assert(models@[a]@ == memo_listing(mine)[a]);
            assert(models@[b]@ == memo_listing(mine)[b]);
        }
    }
    Ok(models)
}

// -----------------------------------------------------------------------------------------------

/// Lists the topics that a keyword selects, latest first. The empty keyword
/// selects every topic.
pub fn get_topics_fn(data: &AppData, keyword: &str) -> (r: Result<Vec<model::Topic>, Error>)
    ensures
        data.poisoned ==> lock_failed(r),
        !data.poisoned && !data.db@.schema ==> table_missing(r, Table::Topic),
        ready(*data) ==> r is Ok && model::topic_views(r->Ok_0@) == topic_listing(
            topics_found(data.db@, keyword@),
        ),
        ready(*data) ==> r->Ok_0@.len() == topics_found(data.db@, keyword@).len(),
        ready(*data) ==> forall|a: int, b: int|
            0 <= a <= b < r->Ok_0@.len() ==> (#[trigger] r->Ok_0@[a]).timestamp >= (
            #[trigger] r->Ok_0@[b]).timestamp,
{
    let db = match data.read() {
        Ok(db) => db,
        Err(e) => {
            return Err(e);
        },
    };
    let found = if keyword.is_empty() {
        db::Topic::all(db)
    } else {
        db::Topic::search(db, keyword)
    };
    let topics = match database(found) {
        Ok(topics) => topics,
        Err(e) => {
            return Err(e);
        },
    };
    let ghost mine = topic_rows(topics@);
    let pairs = date_topics(topics);
    let sorted = sort_latest_first(pairs);
    proof {
        lemma_latest_first_viewed(pairs@);
        lemma_latest_first_len(pairs@);
    }
    let ghost rows = sorted@;
    let mut models: Vec<model::Topic> = Vec::new();
    for pair in it: sorted
        invariant
            it.seq() == rows,
            models@.len() == it.index(),
            forall|k: int| 0 <= k < models@.len() ==> (#[trigger] models@[k])@ == shown(rows[k].1@),
    {
        let topic = pair.1;
        models.push(model::Topic { id: topic.id, title: topic.title, timestamp: topic.timestamp });
    }
    proof {
        assert(viewed(rows) == latest_first(dated_topics(mine)));
        assert(model::topic_views(models@) =~= topic_listing(mine));
        lemma_topic_listing(mine);
        assert forall|a: int, b: int| 0 <= a <= b < models@.len() implies (
        #[trigger] models@[a]).timestamp >= (#[trigger] models@[b]).timestamp by {
            assert(models@[a]@ == topic_listing(mine)[a]);
            assert(models@[b]@ == topic_listing(mine)[b]);
        }
    }
    Ok(models)
}

} // verus!
