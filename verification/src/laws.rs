//! What holds of the services on every storage, proved from the
//! definitions that their contracts use.

use crate::api::{
    first_with_id, memo_created, memo_deleted, memo_listing, title_of, topic_listing, with_latest,
};
use crate::db::{
    dated_memos, dated_topics, has_memo, has_memo_of, has_tag, has_tag_named, has_topic,
    has_word, latest_memo, mirrored,
    memos_of_topic, memos_without, only_memo, search_result, tags_of_topic, tags_without,
    topic_matches, topics_with_id, topics_without, MemoRow, Tables, TagRow,
    TopicRow,
};
use crate::recency::{
    latest_first, latest_index, lemma_latest_first_descends, lemma_latest_first_len,
    lemma_latest_first_members, lemma_latest_first_permutes, lemma_latest_index,
};
use crate::seqs::{
    lemma_filter_keeps_all, lemma_filter_keeps_none, lemma_filter_members, lemma_filter_twice,
};
use crate::text::{
    is_tag_token, is_word_token, starts_with_hash, tag_name, tag_pieces, tag_tokens, word_tokens,
};
use vstd::prelude::*;

verus! {

/// A memo for a topic that the storage does not hold yet stores exactly one
/// topic row with that id. Its title is the one that the content gives,
/// its timestamp is the memo's, and the rows of other topics stay.
pub proof fn lemma_create_for_new_topic(
    t: Tables,
    id: Seq<char>,
    topic_id: Seq<char>,
    timestamp: i64,
    content: Seq<char>,
)
    requires
        !has_topic(t.topic, topic_id),
    ensures
        ({
            let after = memo_created(t, id, topic_id, timestamp, content);
            let row = TopicRow { id: topic_id, title: title_of(content), timestamp };
            &&& after.topic == t.topic.push(row)
            &&& topics_with_id(after.topic, topic_id) == seq![row]
            &&& after.memo == t.memo.push(MemoRow { id, topic_id, timestamp, content })
            &&& after.topic_tag == t.topic_tag
        }),
{
    let keep = |r: TopicRow| r.id == topic_id;
    let row = TopicRow { id: topic_id, title: title_of(content), timestamp };
    lemma_filter_keeps_none(t.topic, keep);
    t.topic.lemma_filter_push(row, keep);
    assert(Seq::<TopicRow>::empty().push(row) =~= seq![row]);
}

/// A memo for a topic that the storage holds stores no topic row: every row
/// keeps its place and its id, the rows of that topic get the title that
/// the content gives and the memo's timestamp, and the other rows stay.
pub proof fn lemma_create_for_existing_topic(
    t: Tables,
    id: Seq<char>,
    topic_id: Seq<char>,
    timestamp: i64,
    content: Seq<char>,
)
    requires
        has_topic(t.topic, topic_id),
    ensures
        ({
            let after = memo_created(t, id, topic_id, timestamp, content);
            let row = TopicRow { id: topic_id, title: title_of(content), timestamp };
            &&& after.topic.len() == t.topic.len()
            &&& forall|i: int|
                0 <= i < t.topic.len() ==> #[trigger] after.topic[i] == if t.topic[i].id
                    == topic_id {
                    row
                } else {
                    t.topic[i]
                }
            &&& has_topic(after.topic, topic_id)
            &&& after.memo == t.memo.push(MemoRow { id, topic_id, timestamp, content })
            &&& after.topic_tag == t.topic_tag
        }),
{
    let after = memo_created(t, id, topic_id, timestamp, content);
    let i = choose|i: int| 0 <= i < t.topic.len() && (#[trigger] t.topic[i]).id == topic_id;
    assert(after.topic[i].id == topic_id);
}

/// Where the given id is the only one among the memos of a topic,
/// deleting it leaves the topic without memos, without a topic row and
/// without tags.
pub proof fn lemma_delete_last_memo(t: Tables, topic_id: Seq<char>, id: Seq<char>)
    requires
        only_memo(memos_of_topic(t.memo, topic_id), id),
    ensures
        ({
            let after = memo_deleted(t, topic_id, id);
            &&& after.memo == memos_without(t.memo, id)
            &&& memos_of_topic(after.memo, topic_id) == Seq::<MemoRow>::empty()
            &&& !has_topic(after.topic, topic_id)
            &&& tags_of_topic(after.topic_tag, topic_id) == Seq::<TagRow>::empty()
        }),
{
    let after = memo_deleted(t, topic_id, id);
    let mine = memos_of_topic(t.memo, topic_id);
    let of_topic = |r: MemoRow| r.topic_id == topic_id;
    assert(mine[0].id == id);
    lemma_filter_members(t.memo, of_topic);
    lemma_filter_members(t.memo, |r: MemoRow| r.id != id);
    assert forall|i: int| 0 <= i < after.memo.len() implies !of_topic(#[trigger] after.memo[i]) by {
        let r = after.memo[i];
        if r.topic_id == topic_id {
            let j = choose|j: int| 0 <= j < t.memo.len() && t.memo[j] == r;
            assert(mine.contains(t.memo[j]));
            let k = choose|k: int| 0 <= k < mine.len() && mine[k] == r;
            assert(mine[k].id == id);
        }
    }
    lemma_filter_keeps_none(after.memo, of_topic);
    lemma_filter_members(t.topic, |r: TopicRow| r.id != topic_id);
    lemma_filter_members(t.topic_tag, |r: TagRow| r.topic_id != topic_id);
    lemma_filter_keeps_none(after.topic_tag, |r: TagRow| r.topic_id == topic_id);
}

/// Where a topic has a memo with the given id and another one, deleting
/// that id leaves topics and tags as they are, removes the memos with that
/// id and keeps every other memo.
pub proof fn lemma_delete_one_of_several(t: Tables, topic_id: Seq<char>, id: Seq<char>)
    requires
        has_memo(memos_of_topic(t.memo, topic_id), id),
        !only_memo(memos_of_topic(t.memo, topic_id), id),
    ensures
        ({
            let after = memo_deleted(t, topic_id, id);
            &&& after.topic == t.topic
            &&& after.topic_tag == t.topic_tag
            &&& after.memo == memos_without(t.memo, id)
            &&& !has_memo(after.memo, id)
            &&& forall|i: int|
                0 <= i < t.memo.len() && t.memo[i].id != id ==> after.memo.contains(
                    #[trigger] t.memo[i],
                )
            &&& memos_of_topic(after.memo, topic_id).len() > 0
        }),
{
    let after = memo_deleted(t, topic_id, id);
    let mine = memos_of_topic(t.memo, topic_id);
    lemma_filter_members(t.memo, |r: MemoRow| r.id != id);
    lemma_filter_members(t.memo, |r: MemoRow| r.topic_id == topic_id);
    let k = choose|k: int| 0 <= k < mine.len() && (#[trigger] mine[k]).id != id;
    let other = mine[k];
    let j = choose|j: int| 0 <= j < t.memo.len() && t.memo[j] == other;
    assert(after.memo.contains(t.memo[j]));
    let a = choose|a: int| 0 <= a < after.memo.len() && after.memo[a] == other;
    lemma_filter_members(after.memo, |r: MemoRow| r.topic_id == topic_id);
    assert(memos_of_topic(after.memo, topic_id).contains(after.memo[a]));
}

/// Deleting a memo id that no memo has changes nothing.
pub proof fn lemma_delete_absent_memo(rows: Seq<MemoRow>, id: Seq<char>)
    requires
        !has_memo(rows, id),
    ensures
        memos_without(rows, id) == rows,
{
    lemma_filter_keeps_all(rows, |r: MemoRow| r.id != id);
}

/// Deleting a topic id that no topic has changes nothing.
pub proof fn lemma_delete_absent_topic(rows: Seq<TopicRow>, id: Seq<char>)
    requires
        !has_topic(rows, id),
    ensures
        topics_without(rows, id) == rows,
{
    lemma_filter_keeps_all(rows, |r: TopicRow| r.id != id);
}

/// Deleting a tag that the topic does not have changes nothing.
pub proof fn lemma_delete_absent_tag(rows: Seq<TagRow>, name: Seq<char>, topic_id: Seq<char>)
    requires
        !has_tag_named(rows, name, topic_id),
    ensures
        tags_without(rows, name, topic_id) == rows,
{
    lemma_filter_keeps_all(rows, |r: TagRow| !(r.name == name && r.topic_id == topic_id));
}

/// Deleting a second time changes nothing more.
pub proof fn lemma_delete_twice(t: Tables, id: Seq<char>, name: Seq<char>)
    ensures
        memos_without(memos_without(t.memo, id), id) == memos_without(t.memo, id),
        topics_without(topics_without(t.topic, id), id) == topics_without(t.topic, id),
        tags_without(tags_without(t.topic_tag, name, id), name, id) == tags_without(
            t.topic_tag,
            name,
            id,
        ),
{
    lemma_filter_twice(t.memo, |r: MemoRow| r.id != id);
    lemma_filter_twice(t.topic, |r: TopicRow| r.id != id);
    lemma_filter_twice(t.topic_tag, |r: TagRow| !(r.name == name && r.topic_id == id));
}

/// Deleting from a topic a memo id that it does not have changes nothing,
/// whether the topic has other memos or none.
pub proof fn lemma_delete_unknown_memo(t: Tables, topic_id: Seq<char>, id: Seq<char>)
    requires
        !has_memo(memos_of_topic(t.memo, topic_id), id),
    ensures
        memo_deleted(t, topic_id, id) == t,
{
    let mine = memos_of_topic(t.memo, topic_id);
    if mine.len() > 0 {
        assert(mine[0].id != id);
    }
}

/// A lookup by the latest memo's id finds a memo in every topic that has
/// one, and the memo found has that id.
pub proof fn lemma_latest_is_found(mine: Seq<MemoRow>)
    requires
        mine.len() > 0,
    ensures
        0 <= first_with_id(mine, latest_memo(mine).id) < mine.len(),
        mine[first_with_id(mine, latest_memo(mine).id)].id == latest_memo(mine).id,
{
    lemma_latest_index(dated_memos(mine));
    lemma_first_with_id_finds(mine, latest_memo(mine).id, latest_index(dated_memos(mine)));
}

/// Where a memo has the id, `first_with_id` is the position of one that has it.
pub proof fn lemma_first_with_id_finds(rows: Seq<MemoRow>, id: Seq<char>, k: int)
    requires
        0 <= k < rows.len(),
        rows[k].id == id,
    ensures
        0 <= first_with_id(rows, id) <= k,
        rows[first_with_id(rows, id)].id == id,
    decreases rows.len(),
{
    if rows[0].id != id {
        let rest = rows.skip(1);
        assert(rest[k - 1] == rows[k]);
        lemma_first_with_id_finds(rest, id, k - 1);
        assert(rest[first_with_id(rest, id)] == rows[first_with_id(rest, id) + 1]);
    }
}

/// A listing of memos shows each memo of the topic once, in descending
/// order of timestamp. The first entry is the latest memo and the only one
/// marked as the latest.
pub proof fn lemma_memo_listing(mine: Seq<MemoRow>)
    ensures
        memo_listing(mine).len() == mine.len(),
        forall|a: int, b: int|
            0 <= a <= b < mine.len() ==> (#[trigger] memo_listing(mine)[a]).timestamp >= (
            #[trigger] memo_listing(mine)[b]).timestamp,
        forall|k: int|
            0 <= k < mine.len() ==> (#[trigger] memo_listing(mine)[k]).latest == (k == 0),
        forall|k: int|
            0 <= k < mine.len() ==> exists|j: int|
                0 <= j < mine.len() && #[trigger] memo_listing(mine)[k] == with_latest(
                    #[trigger] mine[j],
                    k == 0,
                ),
        latest_first(dated_memos(mine)).to_multiset() == dated_memos(mine).to_multiset(),
        mine.len() > 0 ==> memo_listing(mine)[0] == with_latest(latest_memo(mine), true),
{
    let dated = dated_memos(mine);
    let sorted = latest_first(dated);
    lemma_latest_first_len(dated);
    lemma_latest_first_descends(dated);
    lemma_latest_first_permutes(dated);
    assert forall|a: int, b: int| 0 <= a <= b < mine.len() implies (#[trigger] memo_listing(
        mine,
    )[a]).timestamp >= (#[trigger] memo_listing(mine)[b]).timestamp by {
        lemma_latest_first_members(dated, a);
        lemma_latest_first_members(dated, b);
        let i = choose|i: int| 0 <= i < dated.len() && dated[i] == sorted[a];
        let j = choose|j: int| 0 <= j < dated.len() && dated[j] == sorted[b];
        assert(sorted[a].0 >= sorted[b].0);
    }
    assert forall|k: int| 0 <= k < mine.len() implies exists|j: int|
        0 <= j < mine.len() && #[trigger] memo_listing(mine)[k] == with_latest(
            #[trigger] mine[j],
            k == 0,
        ) by {
        lemma_latest_first_members(dated, k);
        let j = choose|j: int| 0 <= j < dated.len() && dated[j] == sorted[k];
        assert(memo_listing(mine)[k] == with_latest(mine[j], k == 0));
    }
    if mine.len() > 0 {
        lemma_latest_index(dated);
    }
}

/// A listing of topics shows each topic once, in descending order of
/// timestamp.
pub proof fn lemma_topic_listing(found: Seq<TopicRow>)
    ensures
        topic_listing(found).len() == found.len(),
        forall|a: int, b: int|
            0 <= a <= b < found.len() ==> (#[trigger] topic_listing(found)[a]).timestamp >= (
            #[trigger] topic_listing(found)[b]).timestamp,
        latest_first(dated_topics(found)).to_multiset() == dated_topics(found).to_multiset(),
{
    let dated = dated_topics(found);
    let sorted = latest_first(dated);
    lemma_latest_first_len(dated);
    lemma_latest_first_descends(dated);
    lemma_latest_first_permutes(dated);
    assert forall|a: int, b: int| 0 <= a <= b < found.len() implies (#[trigger] topic_listing(
        found,
    )[a]).timestamp >= (#[trigger] topic_listing(found)[b]).timestamp by {
        lemma_latest_first_members(dated, a);
        lemma_latest_first_members(dated, b);
        let i = choose|i: int| 0 <= i < dated.len() && dated[i] == sorted[a];
        let j = choose|j: int| 0 <= j < dated.len() && dated[j] == sorted[b];
        assert(sorted[a].0 >= sorted[b].0);
    }
}

/// A piece of at most one character is no token, and a piece that begins
/// with `#` and has at most two characters is none either.
pub proof fn lemma_short_pieces_dropped(t: Seq<char>)
    ensures
        t.len() <= 1 ==> !is_word_token(t) && !is_tag_token(t),
        starts_with_hash(t) && t.len() <= 2 ==> !is_word_token(t) && !is_tag_token(t),
        !(is_word_token(t) && is_tag_token(t)),
{
}

/// Every word of a search is a piece longer than one character that does
/// not begin with `#`, and every tag name is what follows the markers of a
/// piece that begins with `#` and is longer than two characters.
pub proof fn lemma_tokens(parts: Seq<Seq<char>>)
    ensures
        forall|i: int|
            0 <= i < word_tokens(parts).len() ==> is_word_token(#[trigger] word_tokens(parts)[i])
                && parts.contains(word_tokens(parts)[i]),
        tag_tokens(parts).len() == tag_pieces(parts).len(),
        forall|i: int|
            0 <= i < tag_pieces(parts).len() ==> is_tag_token(#[trigger] tag_pieces(parts)[i])
                && parts.contains(tag_pieces(parts)[i]) && tag_tokens(parts)[i] == tag_name(
                tag_pieces(parts)[i],
            ),
{
    lemma_filter_members(parts, |t: Seq<char>| is_word_token(t));
    lemma_filter_members(parts, |t: Seq<char>| is_tag_token(t));
}

/// A search finds exactly the topics that match: no other row comes back,
/// and none that matches is left out. Without tokens every topic matches.
pub proof fn lemma_search(t: Tables, words: Seq<Seq<char>>, tags: Seq<Seq<char>>)
    ensures
        forall|i: int|
            0 <= i < search_result(t, words, tags).len() ==> topic_matches(
                t,
                (#[trigger] search_result(t, words, tags)[i]).id,
                words,
                tags,
            ) && t.topic.contains(search_result(t, words, tags)[i]),
        forall|i: int|
            0 <= i < t.topic.len() && topic_matches(t, t.topic[i].id, words, tags)
                ==> search_result(t, words, tags).contains(#[trigger] t.topic[i]),
        words.len() == 0 && tags.len() == 0 ==> search_result(t, words, tags) == t.topic,
        words.len() > 0 && tags.len() > 0 ==> forall|i: int|
            0 <= i < search_result(t, words, tags).len() ==> has_word(
                t.memo,
                (#[trigger] search_result(t, words, tags)[i]).id,
                words,
            ) && has_tag(t.topic_tag, search_result(t, words, tags)[i].id, tags),
{
    let keep = |r: TopicRow| topic_matches(t, r.id, words, tags);
    lemma_filter_members(t.topic, keep);
    if words.len() == 0 && tags.len() == 0 {
        lemma_filter_keeps_all(t.topic, keep);
    }
}

/// Deleting a memo from a topic that has no memo changes nothing: a topic
/// row and tags that the storage holds for it stay.
pub proof fn lemma_delete_from_unknown_topic(t: Tables, topic_id: Seq<char>, id: Seq<char>)
    requires
        !has_memo_of(t.memo, topic_id),
    ensures
        memo_deleted(t, topic_id, id) == t,
{
    let mine = memos_of_topic(t.memo, topic_id);
    lemma_filter_members(t.memo, |r: MemoRow| r.topic_id == topic_id);
    if mine.len() > 0 {
        assert(t.memo.contains(mine[0]));
    }
}

/// Creating a memo keeps the topics in step with the memos.
pub proof fn lemma_create_keeps_mirror(
    t: Tables,
    id: Seq<char>,
    topic_id: Seq<char>,
    timestamp: i64,
    content: Seq<char>,
)
    requires
        mirrored(t),
    ensures
        mirrored(memo_created(t, id, topic_id, timestamp, content)),
{
    let after = memo_created(t, id, topic_id, timestamp, content);
    let n = t.memo.len() as int;
    assert(after.memo[n].topic_id == topic_id);
    assert forall|x: Seq<char>|
        (#[trigger] has_topic(after.topic, x)) <==> has_memo_of(after.memo, x) by {
        assert(has_topic(t.topic, x) <==> has_memo_of(t.memo, x));
        if has_memo_of(t.memo, x) {
            let i = choose|i: int| 0 <= i < t.memo.len() && (#[trigger] t.memo[i]).topic_id == x;
            assert(after.memo[i].topic_id == x);
        }
        if has_memo_of(after.memo, x) && x != topic_id {
            let i = choose|i: int|
                0 <= i < after.memo.len() && (#[trigger] after.memo[i]).topic_id == x;
            assert(t.memo[i].topic_id == x);
        }
        if has_topic(t.topic, x) {
            let i = choose|i: int| 0 <= i < t.topic.len() && (#[trigger] t.topic[i]).id == x;
            assert(after.topic[i].id == x);
        }
        if has_topic(after.topic, x) && x != topic_id {
            let i = choose|i: int|
                0 <= i < after.topic.len() && (#[trigger] after.topic[i]).id == x;
            assert(t.topic[i].id == x);
        }
        if x == topic_id && !has_topic(t.topic, topic_id) {
            assert(after.topic[t.topic.len() as int].id == topic_id);
        }
    }
}

/// Deleting a memo keeps the topics in step with the memos, where no other
/// topic has a memo with the same id.
pub proof fn lemma_delete_keeps_mirror(t: Tables, topic_id: Seq<char>, id: Seq<char>)
    requires
        mirrored(t),
        forall|i: int|
            0 <= i < t.memo.len() && (#[trigger] t.memo[i]).id == id ==> t.memo[i].topic_id
                == topic_id,
    ensures
        mirrored(memo_deleted(t, topic_id, id)),
{
    let after = memo_deleted(t, topic_id, id);
    let mine = memos_of_topic(t.memo, topic_id);
    if !has_memo(mine, id) {
        lemma_delete_unknown_memo(t, topic_id, id);
    } else {
        lemma_filter_members(t.memo, |r: MemoRow| r.topic_id == topic_id);
        lemma_filter_members(t.memo, |r: MemoRow| r.id != id);
        lemma_filter_members(t.topic, |r: TopicRow| r.id != topic_id);
        assert forall|x: Seq<char>|
            (#[trigger] has_topic(after.topic, x)) <==> has_memo_of(after.memo, x) by {
            assert(has_topic(t.topic, x) <==> has_memo_of(t.memo, x));
            // What is left of the memos stood there before.
            if has_memo_of(after.memo, x) {
                let i = choose|i: int|
                    0 <= i < after.memo.len() && (#[trigger] after.memo[i]).topic_id == x;
                assert(t.memo.contains(after.memo[i]));
                let j = choose|j: int| 0 <= j < t.memo.len() && t.memo[j] == after.memo[i];
                assert(t.memo[j].topic_id == x);
            }
            // What is left of the topics stood there before.
            if has_topic(after.topic, x) {
                let i = choose|i: int|
                    0 <= i < after.topic.len() && (#[trigger] after.topic[i]).id == x;
                assert(t.topic.contains(after.topic[i]));
                let j = choose|j: int| 0 <= j < t.topic.len() && t.topic[j] == after.topic[i];
                assert(t.topic[j].id == x);
            }
            if x != topic_id {
                if has_memo_of(t.memo, x) {
                    let i = choose|i: int|
                        0 <= i < t.memo.len() && (#[trigger] t.memo[i]).topic_id == x;
                    assert(t.memo[i].id != id);
                    assert(after.memo.contains(t.memo[i]));
                    let r = t.memo[i];
                    let k = choose|k: int| 0 <= k < after.memo.len() && after.memo[k] == r;
                    assert(after.memo[k].topic_id == x);
                }
                if has_topic(t.topic, x) {
                    let i = choose|i: int|
                        0 <= i < t.topic.len() && (#[trigger] t.topic[i]).id == x;
                    assert(topics_without(t.topic, topic_id).contains(t.topic[i]));
                    let r = t.topic[i];
                    if only_memo(mine, id) {
                        let k = choose|k: int| 0 <= k < after.topic.len() && after.topic[k] == r;
                        assert(after.topic[k].id == x);
                    }
                }
            } else if only_memo(mine, id) {
                lemma_delete_last_memo(t, topic_id, id);
                if has_memo_of(after.memo, topic_id) {
                    let i = choose|i: int|
                        0 <= i < after.memo.len() && (#[trigger] after.memo[i]).topic_id
                            == topic_id;
                    lemma_filter_members(after.memo, |r: MemoRow| r.topic_id == topic_id);
                    assert(memos_of_topic(after.memo, topic_id).contains(after.memo[i]));
                }
            } else {
                let k = choose|k: int| 0 <= k < mine.len() && (#[trigger] mine[k]).id != id;
                assert(t.memo.contains(mine[k]));
                let j = choose|j: int| 0 <= j < t.memo.len() && t.memo[j] == mine[k];
                assert(t.memo[j].topic_id == topic_id);
                assert(after.memo.contains(t.memo[j]));
                let r = t.memo[j];
                let a = choose|a: int| 0 <= a < after.memo.len() && after.memo[a] == r;
                assert(after.memo[a].topic_id == topic_id);
            }
        }
    }
}

} // verus!
