use markdown_memo::api::{
    add_memo_tag_fn, create_memo_fn, create_memo_with, delete_memo_fn, get_memo_all_fn,
    get_memo_fn, get_memo_tag_fn, get_topics_fn, parse_title, remove_memo_tag_fn, timestamp_from,
    unix_timestamp,
};
use markdown_memo::db::{
    create_table_if_not_exists, storage_location, DbError, Location, Memo, Store, Table, Topic,
    TopicTag,
};
use markdown_memo::error::Error;
use markdown_memo::recency::{find_latest, sort_latest_first};
use markdown_memo::text::{classify, contains, is_whitespace, split_keyword, str_eq, Token};
use markdown_memo::{AppData, POISONED};

fn ready_store() -> Store {
    let mut store = Store::open_in_memory();
    create_table_if_not_exists(&mut store).unwrap();
    store
}

fn ready_data() -> AppData {
    AppData::new(ready_store())
}

fn ids(topics: &[markdown_memo::model::Topic]) -> Vec<String> {
    topics.iter().map(|t| t.id.clone()).collect()
}

fn row_ids(topics: &[Topic]) -> Vec<String> {
    topics.iter().map(|t| t.id.clone()).collect()
}

fn chars(s: &str) -> Vec<char> {
    s.chars().collect()
}

// ---- title ----

#[test]
fn title_of_empty_content_is_empty() {
    assert_eq!("", parse_title(""));
    assert_eq!("", parse_title("###"));
    assert_eq!("", parse_title("   "));
    assert_eq!("", parse_title("#\nbody"));
    assert_eq!("", parse_title("\nbody"));
}

#[test]
fn title_counts_ten_characters_before_trimming() {
    assert_eq!("0123456789", parse_title("0123456789 tail"));
    assert_eq!("abc", parse_title("  abc"));
    assert_eq!("", parse_title("          x"));
    assert_eq!("x", parse_title("         x"));
    assert_eq!("a b", parse_title("# a b      c"));
}

#[test]
fn title_counts_characters_not_bytes() {
    assert_eq!("あいうえおかきくけこ", parse_title("あいうえおかきくけこさしすせそ"));
    assert_eq!("題名", parse_title("##\u{3000}題名\u{3000}\n本文"));
}

#[test]
fn title_keeps_inner_hash_and_trims_tabs() {
    assert_eq!("a#b", parse_title("#a#b"));
    assert_eq!("a", parse_title("\ta\t"));
    assert_eq!("a\rb", parse_title("a\rb"));
}

// ---- text ----

#[test]
fn white_space_is_the_unicode_property() {
    for c in ['\t', '\n', '\u{b}', '\u{c}', '\r', ' ', '\u{85}', '\u{a0}', '\u{1680}', '\u{2000}',
        '\u{200a}', '\u{2028}', '\u{2029}', '\u{202f}', '\u{205f}', '\u{3000}']
    {
        assert!(is_whitespace(c));
        assert!(c.is_whitespace());
    }
    for c in ['a', '#', '0', '\u{8}', '\u{e}', '\u{200b}', '\u{feff}', '\u{180e}', 'あ'] {
        assert!(!is_whitespace(c));
        assert!(!c.is_whitespace());
    }
}

#[test]
fn white_space_agrees_with_std_on_every_character() {
    let mut code: u32 = 0;
    while code <= 0x10ffff {
        if let Some(c) = char::from_u32(code) {
            assert_eq!(c.is_whitespace(), is_whitespace(c));
        }
        code += 1;
    }
}

#[test]
fn strings_compare_by_content() {
    assert!(str_eq("", ""));
    assert!(str_eq("abc", "abc"));
    assert!(str_eq("あ", "あ"));
    assert!(!str_eq("abc", "abd"));
    assert!(!str_eq("abc", "ab"));
    assert!(!str_eq("abc", "ABC"));
}

#[test]
fn substring_search_is_exact() {
    assert!(contains(&chars("content1"), &chars("tent")));
    assert!(contains(&chars("abc"), &chars("abc")));
    assert!(contains(&chars("abc"), &chars("")));
    assert!(contains(&chars(""), &chars("")));
    assert!(contains(&chars("aab"), &chars("ab")));
    assert!(!contains(&chars("abc"), &chars("abcd")));
    assert!(!contains(&chars("abc"), &chars("ac")));
    assert!(!contains(&chars("abc"), &chars("BC")));
    assert!(!contains(&chars(""), &chars("a")));
}

#[test]
fn short_pieces_are_dropped() {
    assert!(matches!(classify(""), Token::Dropped));
    assert!(matches!(classify("a"), Token::Dropped));
    assert!(matches!(classify("#"), Token::Dropped));
    assert!(matches!(classify("#a"), Token::Dropped));
    assert!(matches!(classify("##"), Token::Dropped));
}

#[test]
fn pieces_are_classified_by_marker_and_length() {
    assert!(matches!(classify("ab"), Token::Word(w) if w == "ab"));
    assert!(matches!(classify("a#"), Token::Word(w) if w == "a#"));
    assert!(matches!(classify("#ab"), Token::Tag(t) if t == "ab"));
    assert!(matches!(classify("##a"), Token::Tag(t) if t == "a"));
    assert!(matches!(classify("###"), Token::Tag(t) if t.is_empty()));
    assert!(matches!(classify("#a#b"), Token::Tag(t) if t == "a#b"));
}

#[test]
fn length_of_a_piece_is_counted_in_characters() {
    assert!(matches!(classify("猫"), Token::Dropped));
    assert!(matches!(classify("#猫"), Token::Dropped));
    assert!(matches!(classify("é"), Token::Dropped));
    assert!(matches!(classify("\u{1f600}"), Token::Dropped));
    assert!(matches!(classify("猫犬"), Token::Word(w) if w == "猫犬"));
    assert!(matches!(classify("#猫犬"), Token::Tag(t) if t == "猫犬"));
    assert!(matches!(classify("é!"), Token::Word(w) if w == "é!"));
}

#[test]
fn keyword_of_short_pieces_gives_no_token() {
    let (w, t) = split_keyword("あ #い");
    assert!(w.is_empty());
    assert!(t.is_empty());

    let (w, t) = split_keyword("あ");
    assert!(w.is_empty());
    assert!(t.is_empty());

    let (w, t) = split_keyword("あい\u{3000}#いう\u{3000}う");
    assert_eq!(vec!["あい"], w);
    assert_eq!(vec!["いう"], t);
}

#[test]
fn keyword_is_cut_at_every_white_space_character() {
    let (w, t) = split_keyword("ab\tcd\nef\u{a0}gh\u{85}ij\u{2003}kl");
    assert_eq!(vec!["ab", "cd", "ef", "gh", "ij", "kl"], w);
    assert!(t.is_empty());

    let (w, t) = split_keyword("");
    assert!(w.is_empty());
    assert!(t.is_empty());

    let (w, t) = split_keyword("   ");
    assert!(w.is_empty());
    assert!(t.is_empty());

    let (w, t) = split_keyword("ab");
    assert_eq!(vec!["ab"], w);
    assert!(t.is_empty());

    let (w, t) = split_keyword(" #tag word #x y ##zz ");
    assert_eq!(vec!["word"], w);
    assert_eq!(vec!["tag", "zz"], t);
}

#[test]
fn keyword_is_cut_at_each_of_the_white_space_characters() {
    let spaces = [
        '\t', '\n', '\u{b}', '\u{c}', '\r', ' ', '\u{85}', '\u{a0}', '\u{1680}', '\u{2000}',
        '\u{2001}', '\u{2002}', '\u{2003}', '\u{2004}', '\u{2005}', '\u{2006}', '\u{2007}',
        '\u{2008}', '\u{2009}', '\u{200a}', '\u{2028}', '\u{2029}', '\u{202f}', '\u{205f}',
        '\u{3000}',
    ];
    for c in spaces {
        let (w, t) = split_keyword(&format!("ab{}#cd", c));
        assert_eq!(vec!["ab"], w);
        assert_eq!(vec!["cd"], t);
    }
    for c in ['\u{8}', '\u{e}', '\u{1f}', '\u{200b}', '\u{2060}', '\u{feff}', '\u{180e}', '-'] {
        let (w, t) = split_keyword(&format!("ab{}#cd", c));
        assert_eq!(vec![format!("ab{}#cd", c)], w);
        assert!(t.is_empty());
    }
}

#[test]
fn keyword_is_not_cut_at_other_separators() {
    let (w, t) = split_keyword("ab,cd\u{200b}ef");
    assert_eq!(vec!["ab,cd\u{200b}ef"], w);
    assert!(t.is_empty());
}

// ---- ordering ----

#[test]
fn latest_is_the_greatest_timestamp_and_the_last_among_equals() {
    assert_eq!(0, find_latest(&vec![(5, 'a')]));
    assert_eq!(1, find_latest(&vec![(1, 'a'), (3, 'b'), (2, 'c')]));
    assert_eq!(2, find_latest(&vec![(3, 'a'), (1, 'b'), (3, 'c')]));
    assert_eq!(0, find_latest(&vec![(i64::MAX, 'a'), (i64::MIN, 'b')]));
}

#[test]
fn rows_are_sorted_latest_first() {
    let sorted = sort_latest_first(vec![(1, 'a'), (3, 'b'), (2, 'c'), (3, 'd'), (-1, 'e')]);
    assert_eq!(vec![(3, 'd'), (3, 'b'), (2, 'c'), (1, 'a'), (-1, 'e')], sorted);
    let none: Vec<(i64, char)> = Vec::new();
    assert!(sort_latest_first(none).is_empty());
}

// ---- storage ----

#[test]
fn storage_without_tables_fails_every_statement() {
    let mut store = Store::open_in_memory();
    assert_eq!(Some(DbError::NoSuchTable(Table::Memo)), Memo::all_by_topic(&store, "t").err());
    assert_eq!(Some(DbError::NoSuchTable(Table::Memo)), Memo::latest_by_topic(&store, "t").err());
    assert_eq!(
        Some(DbError::NoSuchTable(Table::Memo)),
        Memo::create(&mut store, "m", "t", 0, "c").err()
    );
    assert_eq!(Some(DbError::NoSuchTable(Table::Topic)), Topic::all(&store).err());
    assert_eq!(Some(DbError::NoSuchTable(Table::Topic)), Topic::search(&store, "ab").err());
    assert_eq!(
        Some(DbError::NoSuchTable(Table::Topic)),
        Topic::create(&mut store, "t", "x", 0).err()
    );
    assert_eq!(
        Some(DbError::NoSuchTable(Table::TopicTag)),
        TopicTag::all_by_topic(&store, "t").err()
    );
    assert_eq!(
        Some(DbError::NoSuchTable(Table::TopicTag)),
        TopicTag::create(&mut store, "n", "t").err()
    );
    assert_eq!(
        Some(DbError::NoSuchTable(Table::TopicTag)),
        TopicTag::delete_by_topic(&mut store, "t").err()
    );
    assert!(store.memo.is_empty() && store.topic.is_empty() && store.topic_tag.is_empty());
}

#[test]
fn creating_the_tables_keeps_the_rows() {
    let mut store = ready_store();
    Memo::create(&mut store, "m1", "t1", 1, "c").unwrap();
    create_table_if_not_exists(&mut store).unwrap();
    assert_eq!(1, Memo::all_by_topic(&store, "t1").unwrap().len());
}

#[test]
fn latest_of_no_rows_is_reported_as_such() {
    let store = ready_store();
    assert_eq!(Some(DbError::QueryReturnedNoRows), Memo::latest_by_topic(&store, "t1").err());
}

#[test]
fn latest_by_topic_looks_at_one_topic_only() {
    let mut store = ready_store();
    Memo::create(&mut store, "m1", "t1", 5, "a").unwrap();
    Memo::create(&mut store, "m2", "t2", 9, "b").unwrap();
    Memo::create(&mut store, "m3", "t1", 7, "c").unwrap();
    Memo::create(&mut store, "m4", "t1", 7, "d").unwrap();
    Memo::create(&mut store, "m5", "t1", 6, "e").unwrap();
    assert_eq!("m4", Memo::latest_by_topic(&store, "t1").unwrap().id);
    assert_eq!("m2", Memo::latest_by_topic(&store, "t2").unwrap().id);
}

#[test]
fn deleting_what_is_not_there_changes_nothing() {
    let mut store = ready_store();
    Memo::create(&mut store, "m1", "t1", 1, "c").unwrap();
    Topic::create(&mut store, "t1", "title", 1).unwrap();
    TopicTag::create(&mut store, "tag", "t1").unwrap();

    let memo = Memo { id: "m9".to_owned(), topic_id: "t1".to_owned(), timestamp: 0, content: String::new() };
    memo.delete(&mut store).unwrap();
    let topic = Topic { id: "t9".to_owned(), title: String::new(), timestamp: 0 };
    topic.delete(&mut store).unwrap();
    let tag = TopicTag { name: "tag".to_owned(), topic_id: "t9".to_owned() };
    tag.delete(&mut store).unwrap();
    let tag = TopicTag { name: "other".to_owned(), topic_id: "t1".to_owned() };
    tag.delete(&mut store).unwrap();
    TopicTag::delete_by_topic(&mut store, "t9").unwrap();

    assert_eq!(1, store.memo.len());
    assert_eq!(1, store.topic.len());
    assert_eq!(1, store.topic_tag.len());
}

#[test]
fn deleting_removes_every_row_with_the_key() {
    let mut store = ready_store();
    TopicTag::create(&mut store, "tag", "t1").unwrap();
    TopicTag::create(&mut store, "tag", "t1").unwrap();
    TopicTag::create(&mut store, "tag", "t2").unwrap();
    TopicTag::create(&mut store, "gat", "t1").unwrap();
    assert_eq!(vec!["tag", "tag", "gat"], TopicTag::all_by_topic(&store, "t1").unwrap());

    let tag = TopicTag { name: "tag".to_owned(), topic_id: "t1".to_owned() };
    tag.delete(&mut store).unwrap();
    assert_eq!(vec!["gat"], TopicTag::all_by_topic(&store, "t1").unwrap());
    assert_eq!(vec!["tag"], TopicTag::all_by_topic(&store, "t2").unwrap());

    TopicTag::delete_by_topic(&mut store, "t1").unwrap();
    assert!(TopicTag::all_by_topic(&store, "t1").unwrap().is_empty());
    assert_eq!(vec!["tag"], TopicTag::all_by_topic(&store, "t2").unwrap());
}

#[test]
fn update_changes_the_rows_of_one_topic() {
    let mut store = ready_store();
    Topic::create(&mut store, "t1", "one", 1).unwrap();
    Topic::create(&mut store, "t2", "two", 2).unwrap();
    let topic = Topic { id: "t1".to_owned(), title: String::new(), timestamp: 0 };
    topic.update(&mut store, "new", 9).unwrap();
    let topics = Topic::all(&store).unwrap();
    assert_eq!(2, topics.len());
    assert_eq!(("t1", "new", 9), (topics[0].id.as_str(), topics[0].title.as_str(), topics[0].timestamp));
    assert_eq!(("t2", "two", 2), (topics[1].id.as_str(), topics[1].title.as_str(), topics[1].timestamp));
}

#[test]
fn location_prefers_memory_then_the_given_path() {
    assert!(matches!(storage_location(Some("a.db"), true), Location::Memory));
    assert!(matches!(storage_location(None, true), Location::Memory));
    assert!(matches!(storage_location(Some("a.db"), false), Location::File(p) if p == "a.db"));
    assert!(matches!(storage_location(None, false), Location::Default));
}

// ---- search ----

fn search_fixture() -> Store {
    let mut store = ready_store();
    Topic::create(&mut store, "t1", "title1", 0).unwrap();
    Topic::create(&mut store, "t2", "title2", 1).unwrap();
    Memo::create(&mut store, "m1", "t1", 0, "abc").unwrap();
    Memo::create(&mut store, "m2", "t1", 0, "cde").unwrap();
    Memo::create(&mut store, "m3", "t2", 0, "bcd").unwrap();
    TopicTag::create(&mut store, "abc", "t1").unwrap();
    TopicTag::create(&mut store, "cde", "t1").unwrap();
    TopicTag::create(&mut store, "abc", "t2").unwrap();
    store
}

#[test]
fn search_by_word_finds_topics_whose_memos_hold_it() {
    let store = search_fixture();
    assert_eq!(vec!["t1", "t2"], row_ids(&Topic::search(&store, "bc").unwrap()));
    assert_eq!(vec!["t1"], row_ids(&Topic::search(&store, "de").unwrap()));
    assert_eq!(vec!["t2"], row_ids(&Topic::search(&store, "bcd").unwrap()));
    assert!(Topic::search(&store, "xyz").unwrap().is_empty());
}

#[test]
fn search_by_tag_finds_topics_that_carry_it() {
    let store = search_fixture();
    assert_eq!(vec!["t1", "t2"], row_ids(&Topic::search(&store, "#abc").unwrap()));
    assert_eq!(vec!["t1"], row_ids(&Topic::search(&store, "#cde").unwrap()));
    assert!(Topic::search(&store, "#ab").unwrap().is_empty());
}

#[test]
fn search_by_word_and_tag_asks_for_both() {
    let store = search_fixture();
    assert_eq!(vec!["t1", "t2"], row_ids(&Topic::search(&store, "bc #abc").unwrap()));
    assert_eq!(vec!["t1"], row_ids(&Topic::search(&store, "cd #cde").unwrap()));
    assert_eq!(vec!["t1"], row_ids(&Topic::search(&store, "bcd #cde ab").unwrap()));
    assert!(Topic::search(&store, "bcd #cde").unwrap().is_empty());
    assert!(Topic::search(&store, "xyz #abc").unwrap().is_empty());
}

#[test]
fn search_takes_any_of_several_words_or_tags() {
    let store = search_fixture();
    assert_eq!(vec!["t1", "t2"], row_ids(&Topic::search(&store, "xyz bcd abc").unwrap()));
    assert_eq!(vec!["t1"], row_ids(&Topic::search(&store, "#xyz #cde").unwrap()));
}

#[test]
fn search_without_tokens_lists_every_topic() {
    let store = search_fixture();
    assert_eq!(vec!["t1", "t2"], row_ids(&Topic::search(&store, "").unwrap()));
    assert_eq!(vec!["t1", "t2"], row_ids(&Topic::search(&store, " a #b ").unwrap()));
}

#[test]
fn search_tells_upper_from_lower_case() {
    let store = search_fixture();
    assert!(Topic::search(&store, "BC").unwrap().is_empty());
    assert!(Topic::search(&store, "#ABC").unwrap().is_empty());
}

#[test]
fn search_takes_tokens_literally() {
    let mut store = ready_store();
    Topic::create(&mut store, "t1", "title1", 0).unwrap();
    Topic::create(&mut store, "t2", "title2", 0).unwrap();
    Memo::create(&mut store, "m1", "t1", 0, "100% sure it's so").unwrap();
    Memo::create(&mut store, "m2", "t2", 0, "a_b").unwrap();
    TopicTag::create(&mut store, "it's", "t1").unwrap();
    assert_eq!(vec!["t1"], row_ids(&Topic::search(&store, "0%").unwrap()));
    assert_eq!(vec!["t1"], row_ids(&Topic::search(&store, "it's").unwrap()));
    assert_eq!(vec!["t1"], row_ids(&Topic::search(&store, "#it's").unwrap()));
    assert_eq!(vec!["t2"], row_ids(&Topic::search(&store, "a_").unwrap()));
    assert!(Topic::search(&store, "a%").unwrap().is_empty());
    assert!(Topic::search(&store, "__").unwrap().is_empty());
}

#[test]
fn search_by_tokens_needs_no_keyword() {
    let store = search_fixture();
    let words = vec!["cd".to_owned()];
    let tags = vec!["cde".to_owned()];
    assert_eq!(vec!["t1"], row_ids(&Topic::search_tokens(&store, &words, &tags).unwrap()));
    assert_eq!(vec!["t1", "t2"], row_ids(&Topic::search_tokens(&store, &words, &vec![]).unwrap()));
    assert_eq!(vec!["t1", "t2"], row_ids(&Topic::search_tokens(&store, &vec![], &vec![]).unwrap()));
}

// ---- services ----

#[test]
fn new_memo_gets_an_id_and_the_time() {
    let mut data = ready_data();
    let a = create_memo_fn(&mut data, "t1", "one").unwrap();
    let b = create_memo_fn(&mut data, "t1", "two").unwrap();
    assert_eq!(36, a.id.chars().count());
    assert_eq!(36, b.id.chars().count());
    assert_ne!(a.id, b.id);
    assert!(a.timestamp > 1_500_000_000);
    assert!(a.latest && b.latest);
    assert!(unix_timestamp() >= a.timestamp);
}

#[test]
fn clock_reading_becomes_a_timestamp() {
    assert_eq!(0, timestamp_from(None));
    assert_eq!(0, timestamp_from(Some(0)));
    assert_eq!(1, timestamp_from(Some(1)));
    assert_eq!(1_700_000_000, timestamp_from(Some(1_700_000_000)));
    assert_eq!(i64::MAX, timestamp_from(Some(0x7fff_ffff_ffff_ffff)));
    assert_eq!(i64::MAX, timestamp_from(Some(0x8000_0000_0000_0000)));
    assert_eq!(i64::MAX, timestamp_from(Some(u64::MAX)));
}

#[test]
fn memo_for_a_new_topic_stores_one_topic() {
    let mut data = ready_data();
    let memo = create_memo_with(&mut data, "m1", 42, "t1", "## Heading line\nbody").unwrap();
    assert_eq!(("m1", "t1", 42, true), (memo.id.as_str(), memo.topic_id.as_str(), memo.timestamp, memo.latest));
    assert_eq!("## Heading line\nbody", memo.content);
    assert_eq!(1, data.db.topic.len());
    assert_eq!("t1", data.db.topic[0].id);
    assert_eq!("Heading l", data.db.topic[0].title);
    assert_eq!(42, data.db.topic[0].timestamp);
    assert_eq!(1, data.db.memo.len());
}

#[test]
fn memo_for_a_known_topic_updates_it() {
    let mut data = ready_data();
    create_memo_with(&mut data, "m1", 1, "t1", "first").unwrap();
    create_memo_with(&mut data, "m2", 2, "t2", "other").unwrap();
    create_memo_with(&mut data, "m3", 3, "t1", "# second").unwrap();
    assert_eq!(2, data.db.topic.len());
    assert_eq!(("t1", "second", 3), (data.db.topic[0].id.as_str(), data.db.topic[0].title.as_str(), data.db.topic[0].timestamp));
    assert_eq!(("t2", "other", 2), (data.db.topic[1].id.as_str(), data.db.topic[1].title.as_str(), data.db.topic[1].timestamp));
    assert_eq!(3, data.db.memo.len());
}

#[test]
fn deleting_the_only_memo_removes_topic_and_tags() {
    let mut data = ready_data();
    create_memo_with(&mut data, "m1", 1, "t1", "first").unwrap();
    create_memo_with(&mut data, "m2", 2, "t2", "other").unwrap();
    add_memo_tag_fn(&mut data, "t1", "x").unwrap();
    add_memo_tag_fn(&mut data, "t1", "y").unwrap();
    add_memo_tag_fn(&mut data, "t2", "x").unwrap();

    delete_memo_fn(&mut data, "t1", "m1").unwrap();

    assert_eq!(vec!["t2"], ids(&get_topics_fn(&data, "").unwrap()));
    assert!(get_memo_all_fn(&data, "t1").unwrap().is_empty());
    assert!(get_memo_tag_fn(&data, "t1").unwrap().is_empty());
    assert_eq!(vec!["x"], get_memo_tag_fn(&data, "t2").unwrap());
    assert_eq!(1, get_memo_all_fn(&data, "t2").unwrap().len());
}

#[test]
fn deleting_one_of_several_memos_keeps_topic_and_tags() {
    let mut data = ready_data();
    create_memo_with(&mut data, "m1", 1, "t1", "first").unwrap();
    create_memo_with(&mut data, "m2", 2, "t1", "second").unwrap();
    add_memo_tag_fn(&mut data, "t1", "x").unwrap();

    delete_memo_fn(&mut data, "t1", "m2").unwrap();

    let memos = get_memo_all_fn(&data, "t1").unwrap();
    assert_eq!(1, memos.len());
    assert_eq!("m1", memos[0].id);
    assert_eq!(vec!["t1"], ids(&get_topics_fn(&data, "").unwrap()));
    assert_eq!(vec!["x"], get_memo_tag_fn(&data, "t1").unwrap());
}

#[test]
fn deleting_an_unknown_memo_is_no_failure() {
    let mut data = ready_data();
    create_memo_with(&mut data, "m1", 1, "t1", "first").unwrap();
    create_memo_with(&mut data, "m2", 2, "t2", "other").unwrap();
    add_memo_tag_fn(&mut data, "t1", "x").unwrap();

    delete_memo_fn(&mut data, "t1", "m9").unwrap();
    delete_memo_fn(&mut data, "t1", "m2").unwrap();

    assert_eq!(1, get_memo_all_fn(&data, "t1").unwrap().len());
    assert_eq!(1, get_memo_all_fn(&data, "t2").unwrap().len());
    assert_eq!(2, get_topics_fn(&data, "").unwrap().len());
    assert_eq!(vec!["x"], get_memo_tag_fn(&data, "t1").unwrap());
}

#[test]
fn deleting_twice_is_deleting_once() {
    let mut data = ready_data();
    create_memo_with(&mut data, "m1", 1, "t1", "first").unwrap();
    create_memo_with(&mut data, "m2", 2, "t1", "second").unwrap();
    delete_memo_fn(&mut data, "t1", "m1").unwrap();
    delete_memo_fn(&mut data, "t1", "m1").unwrap();
    assert_eq!(1, get_memo_all_fn(&data, "t1").unwrap().len());
    assert_eq!(1, get_topics_fn(&data, "").unwrap().len());
}

#[test]
fn deleting_from_a_topic_without_memos_changes_nothing() {
    let mut data = ready_data();
    {
        let db = data.lock().unwrap();
        Topic::create(db, "t1", "kept", 0).unwrap();
        TopicTag::create(db, "x", "t1").unwrap();
        Topic::create(db, "t2", "other", 0).unwrap();
        Memo::create(db, "m1", "t2", 0, "content").unwrap();
    }
    delete_memo_fn(&mut data, "t1", "m1").unwrap();
    assert_eq!(vec!["t1", "t2"], row_ids(&data.db.topic));
    assert_eq!(vec!["x"], get_memo_tag_fn(&data, "t1").unwrap());
    assert_eq!(1, data.db.memo.len());
}

#[test]
fn deleting_from_a_tagged_topic_without_memos_keeps_the_tags() {
    let mut data = ready_data();
    add_memo_tag_fn(&mut data, "t1", "x").unwrap();
    delete_memo_fn(&mut data, "t1", "m1").unwrap();
    assert_eq!(vec!["x"], get_memo_tag_fn(&data, "t1").unwrap());
}

#[test]
fn unknown_memo_id_is_not_found() {
    let mut data = ready_data();
    create_memo_with(&mut data, "m1", 1, "t1", "first").unwrap();
    create_memo_with(&mut data, "m2", 2, "t2", "other").unwrap();
    assert!(matches!(get_memo_fn(&data, "t1", Some("m9")), Err(Error::NotFound(id)) if id == "m9"));
    assert!(matches!(get_memo_fn(&data, "t1", Some("m2")), Err(Error::NotFound(id)) if id == "m2"));
    assert!(matches!(get_memo_fn(&data, "t1", Some("")), Err(Error::NotFound(id)) if id.is_empty()));
}

#[test]
fn topic_without_memos_yields_the_placeholder_whatever_the_id() {
    let data = ready_data();
    let memo = get_memo_fn(&data, "t1", Some("m1")).unwrap();
    assert_eq!(("", "t1", 0, true, ""), (memo.id.as_str(), memo.topic_id.as_str(), memo.timestamp, memo.latest, memo.content.as_str()));
    let memo = get_memo_fn(&data, "t1", None).unwrap();
    assert_eq!(("", "t1", 0, true, ""), (memo.id.as_str(), memo.topic_id.as_str(), memo.timestamp, memo.latest, memo.content.as_str()));
}

#[test]
fn latest_is_marked_also_when_asked_for_by_id() {
    let mut data = ready_data();
    create_memo_with(&mut data, "a", 0, "t1", "A").unwrap();
    create_memo_with(&mut data, "b", 1, "t1", "B").unwrap();
    let b = get_memo_fn(&data, "t1", None).unwrap();
    assert_eq!(("b", true), (b.id.as_str(), b.latest));
    let b = get_memo_fn(&data, "t1", Some("b")).unwrap();
    assert_eq!(("b", true), (b.id.as_str(), b.latest));
    let a = get_memo_fn(&data, "t1", Some("a")).unwrap();
    assert_eq!(("a", false, "A"), (a.id.as_str(), a.latest, a.content.as_str()));
}

#[test]
fn lookup_without_id_gives_the_latest_memo_itself() {
    let mut data = ready_data();
    create_memo_with(&mut data, "a", 5, "t1", "old").unwrap();
    create_memo_with(&mut data, "a", 9, "t1", "new").unwrap();
    create_memo_with(&mut data, "b", 7, "t1", "between").unwrap();
    let m = get_memo_fn(&data, "t1", None).unwrap();
    assert_eq!(("a", 9, true, "new"), (m.id.as_str(), m.timestamp, m.latest, m.content.as_str()));
    let m = get_memo_fn(&data, "t1", Some("a")).unwrap();
    assert_eq!(("a", 5, true, "old"), (m.id.as_str(), m.timestamp, m.latest, m.content.as_str()));
    let m = get_memo_fn(&data, "t1", Some("b")).unwrap();
    assert_eq!(("b", 7, false), (m.id.as_str(), m.timestamp, m.latest));
}

#[test]
fn listing_is_sorted_and_marks_the_first() {
    let mut data = ready_data();
    create_memo_with(&mut data, "m1", 5, "t1", "a").unwrap();
    create_memo_with(&mut data, "m2", 9, "t1", "b").unwrap();
    create_memo_with(&mut data, "m3", 1, "t1", "c").unwrap();
    create_memo_with(&mut data, "m4", 9, "t1", "d").unwrap();
    create_memo_with(&mut data, "m5", 7, "t2", "e").unwrap();
    let memos = get_memo_all_fn(&data, "t1").unwrap();
    let got: Vec<(&str, i64, bool)> = memos.iter().map(|m| (m.id.as_str(), m.timestamp, m.latest)).collect();
    assert_eq!(vec![("m4", 9, true), ("m2", 9, false), ("m1", 5, false), ("m3", 1, false)], got);
    assert_eq!("m4", get_memo_fn(&data, "t1", None).unwrap().id);
    assert!(get_memo_all_fn(&data, "t3").unwrap().is_empty());
}

#[test]
fn topics_are_listed_latest_first() {
    let mut data = ready_data();
    create_memo_with(&mut data, "m1", 5, "t1", "alpha").unwrap();
    create_memo_with(&mut data, "m2", 9, "t2", "beta").unwrap();
    create_memo_with(&mut data, "m3", 1, "t3", "gamma").unwrap();
    assert_eq!(vec!["t2", "t1", "t3"], ids(&get_topics_fn(&data, "").unwrap()));
    assert_eq!(vec!["t2", "t1"], ids(&get_topics_fn(&data, "et lp").unwrap()));
    create_memo_with(&mut data, "m4", 10, "t3", "gamma two").unwrap();
    assert_eq!(vec!["t3", "t2", "t1"], ids(&get_topics_fn(&data, "").unwrap()));
    let topics = get_topics_fn(&data, "gamma").unwrap();
    assert_eq!(("t3", "gamma two", 10), (topics[0].id.as_str(), topics[0].title.as_str(), topics[0].timestamp));
}

#[test]
fn tags_may_repeat() {
    let mut data = ready_data();
    add_memo_tag_fn(&mut data, "t1", "x").unwrap();
    add_memo_tag_fn(&mut data, "t1", "x").unwrap();
    assert_eq!(vec!["x", "x"], get_memo_tag_fn(&data, "t1").unwrap());
    remove_memo_tag_fn(&mut data, "t1", "x").unwrap();
    assert!(get_memo_tag_fn(&data, "t1").unwrap().is_empty());
    remove_memo_tag_fn(&mut data, "t1", "x").unwrap();
    assert!(get_memo_tag_fn(&data, "t1").unwrap().is_empty());
}

// ---- failures ----

#[test]
fn poisoned_handle_fails_every_service() {
    let mut data = ready_data();
    create_memo_with(&mut data, "m1", 1, "t1", "first").unwrap();
    data.poison();
    assert!(matches!(data.lock(), Err(Error::LockError(msg)) if msg == POISONED));
    assert!(matches!(data.read(), Err(Error::LockError(msg)) if msg == POISONED));
    assert!(matches!(create_memo_fn(&mut data, "t1", "c"), Err(Error::LockError(_))));
    assert!(matches!(create_memo_with(&mut data, "m", 1, "t1", "c"), Err(Error::LockError(_))));
    assert!(matches!(delete_memo_fn(&mut data, "t1", "m1"), Err(Error::LockError(_))));
    assert!(matches!(get_memo_fn(&data, "t1", None), Err(Error::LockError(_))));
    assert!(matches!(get_memo_all_fn(&data, "t1"), Err(Error::LockError(_))));
    assert!(matches!(get_topics_fn(&data, ""), Err(Error::LockError(_))));
    assert!(matches!(add_memo_tag_fn(&mut data, "t1", "x"), Err(Error::LockError(_))));
    assert!(matches!(remove_memo_tag_fn(&mut data, "t1", "x"), Err(Error::LockError(_))));
    assert!(matches!(get_memo_tag_fn(&data, "t1"), Err(Error::LockError(_))));
    assert_eq!(1, data.db.memo.len());
    assert_eq!(1, data.db.topic.len());
    assert!(data.db.topic_tag.is_empty());
}

#[test]
fn missing_tables_fail_every_service() {
    let mut data = AppData::new(Store::open_in_memory());
    let no = |t: Table| Error::Database(DbError::NoSuchTable(t));
    assert!(matches!(create_memo_fn(&mut data, "t1", "c"), Err(e) if format!("{:?}", e) == format!("{:?}", no(Table::Topic))));
    assert!(matches!(delete_memo_fn(&mut data, "t1", "m1"), Err(Error::Database(DbError::NoSuchTable(Table::Memo)))));
    assert!(matches!(get_memo_fn(&data, "t1", None), Err(Error::Database(DbError::NoSuchTable(Table::Memo)))));
    assert!(matches!(get_memo_all_fn(&data, "t1"), Err(Error::Database(DbError::NoSuchTable(Table::Memo)))));
    assert!(matches!(get_topics_fn(&data, ""), Err(Error::Database(DbError::NoSuchTable(Table::Topic)))));
    assert!(matches!(get_topics_fn(&data, "ab"), Err(Error::Database(DbError::NoSuchTable(Table::Topic)))));
    assert!(matches!(add_memo_tag_fn(&mut data, "t1", "x"), Err(Error::Database(DbError::NoSuchTable(Table::TopicTag)))));
    assert!(matches!(remove_memo_tag_fn(&mut data, "t1", "x"), Err(Error::Database(DbError::NoSuchTable(Table::TopicTag)))));
    assert!(matches!(get_memo_tag_fn(&data, "t1"), Err(Error::Database(DbError::NoSuchTable(Table::TopicTag)))));
    assert!(!data.db.schema);
    assert!(data.db.memo.is_empty() && data.db.topic.is_empty() && data.db.topic_tag.is_empty());
}

#[test]
fn storage_failure_becomes_a_service_failure() {
    let e = Error::from(DbError::QueryReturnedNoRows);
    assert!(matches!(e, Error::Database(DbError::QueryReturnedNoRows)));
}
