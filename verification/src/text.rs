//! Character classes and string helpers shared by title derivation and search.

use crate::seqs::{lemma_filter_none, lemma_filter_step, lemma_map_push};
use regex::Regex;
use vstd::prelude::*;
use vstd::string::{StrSliceExecFns, StringSliceAdditionalSpecFns};

verus! {

/// The Unicode `White_Space` property, as a predicate on code points.
pub open spec fn is_white_space(c: char) -> bool {
    let u = c as u32;
    ||| 0x09 <= u <= 0x0D
    ||| u == 0x20
    ||| u == 0x85
    ||| u == 0xA0
    ||| u == 0x1680
    ||| 0x2000 <= u <= 0x200A
    ||| u == 0x2028
    ||| u == 0x2029
    ||| u == 0x202F
    ||| u == 0x205F
    ||| u == 0x3000
}

/// The sets of characters that titles and search tokens are cut at.
#[derive(Clone, Copy, Debug)]
pub enum CharClass {
    /// The heading marker `#`.
    Hash,
    /// Every character but the line feed.
    NotNewline,
    /// The characters with the `White_Space` property.
    WhiteSpace,
    /// Every character without the `White_Space` property.
    NotWhiteSpace,
}

impl CharClass {
    /// Whether `c` belongs to the class.
    pub open spec fn holds(self, c: char) -> bool {
        match self {
            CharClass::Hash => c == '#',
            CharClass::NotNewline => c != '\n',
            CharClass::WhiteSpace => is_white_space(c),
            CharClass::NotWhiteSpace => !is_white_space(c),
        }
    }

    /// Tells whether `c` belongs to the class.
    pub fn contains(self, c: char) -> (r: bool)
        ensures
            r == self.holds(c),
    {
        match self {
            CharClass::Hash => c == '#',
            CharClass::NotNewline => c != '\n',
            CharClass::WhiteSpace => is_whitespace(c),
            CharClass::NotWhiteSpace => !is_whitespace(c),
        }
    }
}

/// How many characters at the start of `s` belong to `class`.
pub open spec fn leading(s: Seq<char>, class: CharClass) -> nat
    decreases s.len(),
{
    if s.len() > 0 && class.holds(s[0]) {
        1 + leading(s.skip(1), class)
    } else {
        0
    }
}

/// How many characters at the end of `s` belong to `class`.
pub open spec fn trailing(s: Seq<char>, class: CharClass) -> nat
    decreases s.len(),
{
    if s.len() > 0 && class.holds(s.last()) {
        1 + trailing(s.drop_last(), class)
    } else {
        0
    }
}

/// `s` without the characters of `class` at its start.
pub open spec fn without_leading(s: Seq<char>, class: CharClass) -> Seq<char> {
    s.skip(leading(s, class) as int)
}

/// The characters of `class` at the start of `s`.
pub open spec fn leading_run(s: Seq<char>, class: CharClass) -> Seq<char> {
    s.take(leading(s, class) as int)
}

/// `s` without the characters of `class` at its end.
pub open spec fn without_trailing(s: Seq<char>, class: CharClass) -> Seq<char> {
    s.take(s.len() - trailing(s, class))
}

/// `s` without white space at either end.
pub open spec fn trimmed(s: Seq<char>) -> Seq<char> {
    without_trailing(without_leading(s, CharClass::WhiteSpace), CharClass::WhiteSpace)
}

/// The first `n` characters of `s`, or all of `s` where it has fewer.
pub open spec fn at_most(s: Seq<char>, n: nat) -> Seq<char> {
    if s.len() > n {
        s.take(n as int)
    } else {
        s
    }
}

/// `leading` is the index of the first character outside the class.
pub proof fn lemma_leading_is(s: Seq<char>, class: CharClass, k: int)
    requires
        0 <= k <= s.len(),
        forall|i: int| 0 <= i < k ==> class.holds(#[trigger] s[i]),
        k == s.len() || !class.holds(s[k]),
    ensures
        leading(s, class) == k,
    decreases s.len(),
{
    if k > 0 {
        assert(class.holds(s[0]));
        let t = s.skip(1);
        assert forall|i: int| 0 <= i < k - 1 implies class.holds(#[trigger] t[i]) by {
            assert(t[i] == s[i + 1]);
        }
        lemma_leading_is(t, class, k - 1);
    }
}

/// `trailing` is the distance from the end to the last character outside the class.
pub proof fn lemma_trailing_is(s: Seq<char>, class: CharClass, k: int)
    requires
        0 <= k <= s.len(),
        forall|i: int| s.len() - k <= i < s.len() ==> class.holds(#[trigger] s[i]),
        k == s.len() || !class.holds(s[s.len() - k - 1]),
    ensures
        trailing(s, class) == k,
    decreases s.len(),
{
    if k > 0 {
        assert(class.holds(s.last()));
        let t = s.drop_last();
        assert forall|i: int| t.len() - (k - 1) <= i < t.len() implies class.holds(
            #[trigger] t[i],
        ) by {
            assert(t[i] == s[i]);
        }
        lemma_trailing_is(t, class, k - 1);
    }
}

/// Tells whether `c` is a white-space character.
pub fn is_whitespace(c: char) -> (r: bool)
    ensures
        r == is_white_space(c),
{
    let u: u32 = c as u32;
    (0x09 <= u && u <= 0x0D) || u == 0x20 || u == 0x85 || u == 0xA0 || u == 0x1680 || (0x2000 <= u
        && u <= 0x200A) || u == 0x2028 || u == 0x2029 || u == 0x202F || u == 0x205F || u == 0x3000
}

/// The characters of `s`, in order.
pub fn to_chars(s: &str) -> (v: Vec<char>)
    ensures
        v@ == s@,
{
    let mut v: Vec<char> = Vec::new();
    for c in it: s.chars()
        invariant
            v@ == it.seq().take(it.index()),
    {
        v.push(c);
    }
    v
}

/// Counts the characters of `class` in `v` from index `from` on, stopping
/// before index `to`.
pub fn count_leading(v: &Vec<char>, from: usize, to: usize, class: CharClass) -> (k: usize)
    requires
        from <= to <= v.len(),
    ensures
        k == leading(v@.subrange(from as int, to as int), class),
        from + k <= to,
{
    let mut i: usize = from;
    while i < to && class.contains(v[i])
        invariant
            from <= i <= to <= v.len(),
            forall|j: int| from <= j < i ==> class.holds(#[trigger] v@[j]),
        decreases to - i,
    {
        i += 1;
    }
    proof {
        lemma_leading_is(v@.subrange(from as int, to as int), class, i - from);
    }
    i - from
}

/// Counts the characters of `class` in `v` from index `to` back, stopping
/// at index `from`.
pub fn count_trailing(v: &Vec<char>, from: usize, to: usize, class: CharClass) -> (k: usize)
    requires
        from <= to <= v.len(),
    ensures
        k == trailing(v@.subrange(from as int, to as int), class),
        from + k <= to,
{
    let mut i: usize = to;
    while i > from && class.contains(v[i - 1])
        invariant
            from <= i <= to <= v.len(),
            forall|j: int| i <= j < to ==> class.holds(#[trigger] v@[j]),
        decreases i - from,
    {
        i -= 1;
    }
    proof {
        lemma_trailing_is(v@.subrange(from as int, to as int), class, to - i);
    }
    to - i
}

/// Tells whether two strings hold the same characters.
pub fn str_eq(a: &str, b: &str) -> (r: bool)
    ensures
        r == (a@ == b@),
{
    let x = a.as_bytes();
    let y = b.as_bytes();
    proof {
        vstd::utf8::encode_utf8_decode_utf8(a@);
        vstd::utf8::encode_utf8_decode_utf8(b@);
    }
    if x.len() != y.len() {
        return false;
    }
    let mut i: usize = 0;
    while i < x.len()
        invariant
            x@ == a.spec_bytes(),
            y@ == b.spec_bytes(),
            x@.len() == y@.len(),
            i <= x@.len(),
            forall|j: int| 0 <= j < i ==> x@[j] == y@[j],
        decreases x.len() - i,
    {
        if x[i] != y[i] {
            return false;
        }
        i += 1;
    }
    assert(x@ =~= y@);
    true
}

/// Whether `needle` occurs in `hay` as a run of adjacent characters. Case
/// counts, and the empty sequence occurs in every sequence.
pub open spec fn is_substring(needle: Seq<char>, hay: Seq<char>) -> bool {
    exists|i: int| occurs_at(needle, hay, i)
}

/// Whether `needle` occurs in `hay` at position `i`.
pub open spec fn occurs_at(needle: Seq<char>, hay: Seq<char>, i: int) -> bool {
    0 <= i && i + needle.len() <= hay.len() && hay.subrange(i, i + needle.len()) == needle
}

/// Tells whether `needle` occurs in `hay` at position `i`.
pub fn matches_at(needle: &Vec<char>, hay: &Vec<char>, i: usize) -> (r: bool)
    requires
        i + needle.len() <= hay.len(),
    ensures
        r == occurs_at(needle@, hay@, i as int),
{
    let mut k: usize = 0;
    while k < needle.len()
        invariant
            k <= needle.len(),
            i + needle.len() <= hay.len(),
            forall|j: int| 0 <= j < k ==> hay@[i + j] == needle@[j],
        decreases needle.len() - k,
    {
        if hay[i + k] != needle[k] {
            proof {
                assert(hay@.subrange(i as int, i + needle.len())[k as int] == hay@[i + k]);
            }
            return false;
        }
        k += 1;
    }
    assert(hay@.subrange(i as int, i + needle.len()) =~= needle@);
    true
}

/// Tells whether `needle` occurs in `hay`.
pub fn contains(hay: &Vec<char>, needle: &Vec<char>) -> (r: bool)
    ensures
        r == is_substring(needle@, hay@),
{
    if needle.len() > hay.len() {
        return false;
    }
    let last: usize = hay.len() - needle.len();
    let mut i: usize = 0;
    while i < last
        invariant
            last == hay.len() - needle.len(),
            i <= last,
            forall|j: int| 0 <= j < i ==> !occurs_at(needle@, hay@, j),
        decreases last - i,
    {
        if matches_at(needle, hay, i) {
            return true;
        }
        i += 1;
    }
    matches_at(needle, hay, last)
}

/// The character sequences that a vector of strings holds.
pub open spec fn strings(v: Seq<String>) -> Seq<Seq<char>> {
    v.map_values(|s: String| s@)
}

/// The pieces that `s` falls into when it is cut at every white-space
/// character. The separators belong to no piece; two of them side by side,
/// or one at either end, leave an empty piece.
pub open spec fn pieces(s: Seq<char>) -> Seq<Seq<char>>
    decreases s.len(),
{
    let k = leading(s, CharClass::NotWhiteSpace) as int;
    if k >= s.len() {
        seq![s]
    } else {
        seq![s.take(k)] + pieces(s.skip(k + 1))
    }
}

/// Whether a token begins with the tag marker `#`.
pub open spec fn starts_with_hash(t: Seq<char>) -> bool {
    t.len() > 0 && t[0] == '#'
}

/// A tag token begins with `#` and is longer than two characters.
pub open spec fn is_tag_token(t: Seq<char>) -> bool {
    starts_with_hash(t) && t.len() > 2
}

/// A word token does not begin with `#` and is longer than one character.
pub open spec fn is_word_token(t: Seq<char>) -> bool {
    !starts_with_hash(t) && t.len() > 1
}

/// The name that a tag token stands for: the token without its markers.
pub open spec fn tag_name(t: Seq<char>) -> Seq<char> {
    without_leading(t, CharClass::Hash)
}

/// The words among the pieces of a keyword, in order.
pub open spec fn word_tokens(parts: Seq<Seq<char>>) -> Seq<Seq<char>> {
    parts.filter(|t: Seq<char>| is_word_token(t))
}

/// The tag tokens among the pieces of a keyword, in order.
pub open spec fn tag_pieces(parts: Seq<Seq<char>>) -> Seq<Seq<char>> {
    parts.filter(|t: Seq<char>| is_tag_token(t))
}

/// The tag names among the pieces of a keyword, in order.
pub open spec fn tag_tokens(parts: Seq<Seq<char>>) -> Seq<Seq<char>> {
    tag_pieces(parts).map_values(|t: Seq<char>| tag_name(t))
}

/// Cuts `keyword` at every white-space character.
///
/// Calls `regex::Regex::split` with the expression `\s`, which matches one
/// character with the `White_Space` property. The contract claims that the
/// substrings between the matches come back in order, empty ones included,
/// and that a keyword without a match comes back as its only piece.
#[verifier::external_body]
pub(crate) fn split_at_white_space(keyword: &str) -> (parts: Vec<String>)
    ensures
        strings(parts@) == pieces(keyword@),
{
    let re = Regex::new(r"\s").unwrap();
    re.split(keyword).map(|s| s.to_owned()).collect()
}

/// How a piece of a keyword is used in a search.
pub enum Token {
    /// Part of no search: too short.
    Dropped,
    /// Looked for in the content of memos.
    Word(String),
    /// Looked for among the names of tags.
    Tag(String),
}

/// Decides what a piece of a keyword is used for.
pub fn classify(piece: &str) -> (token: Token)
    ensures
        is_word_token(piece@) ==> (token matches Token::Word(w) && w@ == piece@),
        is_tag_token(piece@) ==> (token matches Token::Tag(t) && t@ == tag_name(piece@)),
        !is_word_token(piece@) && !is_tag_token(piece@) ==> token is Dropped,
        piece@.len() <= 1 ==> token is Dropped,
        starts_with_hash(piece@) && piece@.len() <= 2 ==> token is Dropped,
{
    let chars = to_chars(piece);
    let n: usize = chars.len();
    let hash: bool = n > 0 && chars[0] == '#';
    if hash && n > 2 {
        let k: usize = count_leading(&chars, 0, n, CharClass::Hash);
        assert(piece@.subrange(0, n as int) =~= piece@);
        assert(piece@.subrange(k as int, n as int) =~= tag_name(piece@));
        Token::Tag(piece.substring_char(k, n).to_owned())
    } else if !hash && n > 1 {
        Token::Word(piece.to_owned())
    } else {
        Token::Dropped
    }
}

/// Cuts a keyword into search tokens: the words, and the names of the tags.
pub fn split_keyword(keyword: &str) -> (r: (Vec<String>, Vec<String>))
    ensures
        strings(r.0@) == word_tokens(pieces(keyword@)),
        strings(r.1@) == tag_tokens(pieces(keyword@)),
{
    let parts = split_at_white_space(keyword);
    let mut words: Vec<String> = Vec::new();
    let mut tags: Vec<String> = Vec::new();
    let mut i: usize = 0;
    proof {
        lemma_filter_none(parts@, |s: String| s@, |t: Seq<char>| is_word_token(t));
        lemma_filter_none(parts@, |s: String| s@, |t: Seq<char>| is_tag_token(t));
        assert(strings(words@) =~= Seq::<Seq<char>>::empty());
        assert(strings(tags@) =~= tag_tokens(strings(parts@.take(0))));
    }
    while i < parts.len()
        invariant
            i <= parts.len(),
            strings(words@) == word_tokens(strings(parts@.take(i as int))),
            strings(tags@) == tag_tokens(strings(parts@.take(i as int))),
        decreases parts.len() - i,
    {
        proof {
            lemma_filter_step(parts@, i as int, |s: String| s@, |t: Seq<char>| is_word_token(t));
            lemma_filter_step(parts@, i as int, |s: String| s@, |t: Seq<char>| is_tag_token(t));
        }
        match classify(parts[i].as_str()) {
            Token::Word(w) => {
                proof {
                    lemma_map_push(words@, w, |s: String| s@);
                }
                words.push(w);
            },
            Token::Tag(t) => {
                proof {
                    let before = strings(parts@.take(i as int)).filter(
                        |t: Seq<char>| is_tag_token(t),
                    );
                    lemma_map_push(tags@, t, |s: String| s@);
                    lemma_map_push(before, parts@[i as int]@, |t: Seq<char>| tag_name(t));
                }
                tags.push(t);
            },
            Token::Dropped => {},
        }
        i += 1;
    }
    assert(parts@.take(i as int) =~= parts@);
    (words, tags)
}

} // verus!
