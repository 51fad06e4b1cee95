//! Text as sequences of characters: searching, splitting, replacing and trimming.
use vstd::prelude::*;
use vstd::string::*;

verus! {

/// `String::push`: appends one character.
pub assume_specification[ String::push ](s: &mut String, c: char)
    ensures
        final(s)@ == old(s)@.push(c),
;

/// The text that bytes spell, with a replacement character for what is not UTF-8.
pub uninterp spec fn utf8_lossy(bytes: Seq<u8>) -> Seq<char>;

/// `String::from_utf8_lossy`: the text that the bytes spell. Of bytes that are not UTF-8 the
/// result is named, not stated; bytes that are UTF-8 are decoded.
#[verifier::external_body]
pub(crate) fn lossy_text(bytes: &[u8]) -> (r: String)
    ensures
        r@ == utf8_lossy(bytes@),
        vstd::utf8::valid_utf8(bytes@) ==> r@ == vstd::utf8::decode_utf8(bytes@),
{
    String::from_utf8_lossy(bytes).into_owned()
}

/// What is said of bytes that are not UTF-8.
pub uninterp spec fn utf8_fault(bytes: Seq<u8>) -> Seq<char>;

/// `String::from_utf8`: the text that the bytes spell, where they are UTF-8. Otherwise what the
/// error says, which is named and not stated.
#[verifier::external_body]
pub(crate) fn strict_text(bytes: Vec<u8>) -> (r: Result<String, String>)
    ensures
        match r {
            Ok(s) => vstd::utf8::valid_utf8(bytes@) && s@ == vstd::utf8::decode_utf8(bytes@),
            Err(e) => !vstd::utf8::valid_utf8(bytes@) && e@ == utf8_fault(bytes@),
        },
{
    String::from_utf8(bytes).map_err(|e| e.to_string())
}

/// The texts that a sequence of strings holds.
pub open spec fn texts(v: Seq<String>) -> Seq<Seq<char>> {
    v.map_values(|s: String| s@)
}

/// The text that an optional string holds.
pub open spec fn opt_text(s: Option<String>) -> Option<Seq<char>> {
    match s {
        Some(t) => Some(t@),
        None => None,
    }
}

/// `pat` stands in `s` at position `i`.
pub open spec fn matches_at(s: Seq<char>, pat: Seq<char>, i: int) -> bool {
    &&& 0 <= i
    &&& i + pat.len() <= s.len()
    &&& s.subrange(i, i + pat.len()) == pat
}

/// The first position, from `i` on, at which `pat` stands in `s`.
pub open spec fn find_from(s: Seq<char>, pat: Seq<char>, i: int) -> Option<int>
    decreases s.len() + 1 - i,
{
    if i < 0 || i + pat.len() > s.len() {
        None
    } else if matches_at(s, pat, i) {
        Some(i)
    } else {
        find_from(s, pat, i + 1)
    }
}

/// The first position at which `pat` stands in `s`.
pub open spec fn find(s: Seq<char>, pat: Seq<char>) -> Option<int> {
    find_from(s, pat, 0)
}

/// `s` begins with `pat`.
pub open spec fn starts_with(s: Seq<char>, pat: Seq<char>) -> bool {
    matches_at(s, pat, 0)
}

/// What stands between the occurrences of `sep` in `s`, searched from the left.
pub open spec fn split(s: Seq<char>, sep: Seq<char>) -> Seq<Seq<char>>
    decreases s.len(),
{
    match find(s, sep) {
        Some(i) if sep.len() > 0 => {
            proof {
                lemma_find_from(s, sep, 0);
            }
            seq![s.take(i)] + split(s.skip(i + sep.len()), sep)
        },
        _ => seq![s],
    }
}

/// `s` with each occurrence of `from`, searched from the left, replaced by `to`.
pub open spec fn replace(s: Seq<char>, from: Seq<char>, to: Seq<char>) -> Seq<char>
    decreases s.len(),
{
    match find(s, from) {
        Some(i) if from.len() > 0 => {
            proof {
                lemma_find_from(s, from, 0);
            }
            s.take(i) + to + replace(s.skip(i + from.len()), from, to)
        },
        _ => s,
    }
}

/// `s` without the first occurrence of `pat`.
pub open spec fn remove_first(s: Seq<char>, pat: Seq<char>) -> Seq<char> {
    match find(s, pat) {
        Some(i) => s.take(i) + s.skip(i + pat.len()),
        None => s,
    }
}

/// The characters that Unicode counts as white space.
pub open spec fn is_space(c: char) -> bool {
    ||| '\u{9}' <= c <= '\u{d}'
    ||| c == ' '
    ||| c == '\u{85}'
    ||| c == '\u{a0}'
    ||| c == '\u{1680}'
    ||| '\u{2000}' <= c <= '\u{200a}'
    ||| c == '\u{2028}'
    ||| c == '\u{2029}'
    ||| c == '\u{202f}'
    ||| c == '\u{205f}'
    ||| c == '\u{3000}'
}

/// How many white space characters `s` begins with.
pub open spec fn space_len(s: Seq<char>) -> nat
    decreases s.len(),
{
    if s.len() > 0 && is_space(s[0]) {
        1 + space_len(s.skip(1))
    } else {
        0
    }
}

/// How many characters other than white space `s` begins with.
pub open spec fn word_len(s: Seq<char>) -> nat
    decreases s.len(),
{
    if s.len() > 0 && !is_space(s[0]) {
        1 + word_len(s.skip(1))
    } else {
        0
    }
}

/// The words of `s`: its longest runs of characters other than white space.
pub open spec fn words(s: Seq<char>) -> Seq<Seq<char>>
    decreases s.len(),
{
    proof {
        lemma_space_len(s);
        lemma_word_len(s.skip(space_len(s) as int));
    }
    let t = s.skip(space_len(s) as int);
    if word_len(t) == 0 {
        seq![]
    } else {
        seq![t.take(word_len(t) as int)] + words(t.skip(word_len(t) as int))
    }
}

/// `s` without the white space it begins with.
pub open spec fn trim_start(s: Seq<char>) -> Seq<char> {
    s.skip(space_len(s) as int)
}

/// `s` without the white space it ends with.
pub open spec fn trim_end(s: Seq<char>) -> Seq<char>
    decreases s.len(),
{
    if s.len() > 0 && is_space(s.last()) {
        trim_end(s.drop_last())
    } else {
        s
    }
}

/// `s` without the white space around it.
pub open spec fn trim(s: Seq<char>) -> Seq<char> {
    trim_end(trim_start(s))
}

/// What `find_from` gives: the least position at which the pattern stands.
pub proof fn lemma_find_from(s: Seq<char>, pat: Seq<char>, i: int)
    requires
        0 <= i,
    ensures
        match find_from(s, pat, i) {
            Some(k) => i <= k && matches_at(s, pat, k) && (forall|j: int|
                i <= j < k ==> !matches_at(s, pat, j)),
            None => forall|j: int| i <= j ==> !matches_at(s, pat, j),
        },
    decreases s.len() + 1 - i,
{
    if i + pat.len() <= s.len() && !matches_at(s, pat, i) {
        lemma_find_from(s, pat, i + 1);
    }
}

/// A position at which the pattern stands, and no earlier one, is what `find_from` gives.
pub proof fn lemma_find_from_is(s: Seq<char>, pat: Seq<char>, i: int, k: int)
    requires
        0 <= i <= k,
        matches_at(s, pat, k),
        forall|j: int| i <= j < k ==> !matches_at(s, pat, j),
    ensures
        find_from(s, pat, i) == Some(k),
{
    lemma_find_from(s, pat, i);
}

/// Searching from a position is searching what is left of the text from there on.
pub proof fn lemma_find_skip(s: Seq<char>, pat: Seq<char>, k: int)
    requires
        0 <= k <= s.len(),
    ensures
        find_from(s, pat, k) == match find(s.skip(k), pat) {
            Some(i) => Some(i + k),
            None => None,
        },
{
    lemma_find_from(s, pat, k);
    lemma_find_from(s.skip(k), pat, 0);
    assert forall|j: int| 0 <= j implies matches_at(s.skip(k), pat, j) == #[trigger] matches_at(
        s,
        pat,
        j + k,
    ) by {
        if j + k + pat.len() <= s.len() {
            assert(s.skip(k).subrange(j, j + pat.len()) =~= s.subrange(j + k, j + k + pat.len()));
        }
    }
    match find_from(s, pat, k) {
        Some(i) => {
            assert(matches_at(s.skip(k), pat, i - k)) by {
                assert(matches_at(s, pat, (i - k) + k));
            }
            assert forall|j: int| 0 <= j < i - k implies !matches_at(s.skip(k), pat, j) by {
                assert(!matches_at(s, pat, j + k));
            }
            lemma_find_from_is(s.skip(k), pat, 0, i - k);
        },
        None => {
            assert forall|j: int| 0 <= j implies !matches_at(s.skip(k), pat, j) by {
                assert(!matches_at(s, pat, j + k));
            }
        },
    }
}

/// The white space that a text begins with: its length, and what follows it.
pub proof fn lemma_space_len(s: Seq<char>)
    ensures
        space_len(s) <= s.len(),
        forall|j: int| 0 <= j < space_len(s) ==> is_space(#[trigger] s[j]),
        space_len(s) < s.len() ==> !is_space(s[space_len(s) as int]),
    decreases s.len(),
{
    if s.len() > 0 && is_space(s[0]) {
        let t = s.skip(1);
        lemma_space_len(t);
        assert forall|j: int| 0 <= j < space_len(s) implies is_space(#[trigger] s[j]) by {
            if j > 0 {
                assert(s[j] == t[j - 1]);
            }
        }
    }
}

/// The word that a text begins with: its length, and what follows it.
pub proof fn lemma_word_len(s: Seq<char>)
    ensures
        word_len(s) <= s.len(),
        forall|j: int| 0 <= j < word_len(s) ==> !is_space(#[trigger] s[j]),
        word_len(s) < s.len() ==> is_space(s[word_len(s) as int]),
    decreases s.len(),
{
    if s.len() > 0 && !is_space(s[0]) {
        let t = s.skip(1);
        lemma_word_len(t);
        assert forall|j: int| 0 <= j < word_len(s) implies !is_space(#[trigger] s[j]) by {
            if j > 0 {
                assert(s[j] == t[j - 1]);
            }
        }
    }
}

/// The character does not stand in the text.
pub open spec fn lacks(s: Seq<char>, c: char) -> bool {
    forall|i: int| 0 <= i < s.len() ==> #[trigger] s[i] != c
}

/// A word: not empty, and without white space.
pub open spec fn is_word(s: Seq<char>) -> bool {
    &&& s.len() > 0
    &&& forall|i: int| 0 <= i < s.len() ==> !is_space(#[trigger] s[i])
}

/// One character stands where the text has it.
pub proof fn lemma_matches_char(s: Seq<char>, c: char, i: int)
    ensures
        matches_at(s, seq![c], i) == (0 <= i < s.len() && s[i] == c),
{
    if 0 <= i < s.len() {
        let part = s.subrange(i, i + 1);
        assert(part[0] == s[i]);
        if s[i] == c {
            assert(part =~= seq![c]);
        } else {
            assert(part[0] != seq![c][0]);
        }
    }
}

/// Where a character does not stand in a text, it is not found.
pub proof fn lemma_find_lacking(s: Seq<char>, c: char)
    requires
        lacks(s, c),
    ensures
        find(s, seq![c]) is None,
{
    lemma_find_from(s, seq![c], 0);
    match find(s, seq![c]) {
        Some(k) => {
            lemma_matches_char(s, c, k);
        },
        None => {},
    }
}

/// The first place of a character is behind a text that lacks it.
pub proof fn lemma_find_behind(a: Seq<char>, c: char, rest: Seq<char>)
    requires
        lacks(a, c),
    ensures
        find(a + seq![c] + rest, seq![c]) == Some(a.len() as int),
{
    let s = a + seq![c] + rest;
    lemma_matches_char(s, c, a.len() as int);
    assert forall|j: int| 0 <= j < a.len() implies !matches_at(s, seq![c], j) by {
        lemma_matches_char(s, c, j);
        assert(s[j] == a[j]);
    }
    lemma_find_from_is(s, seq![c], 0, a.len() as int);
}

/// A text that lacks the separator is one piece.
pub proof fn lemma_split_lacking(s: Seq<char>, c: char)
    requires
        lacks(s, c),
    ensures
        split(s, seq![c]) == seq![s],
{
    lemma_find_lacking(s, c);
}

/// A text that lacks the separator is the first piece of what it begins.
pub proof fn lemma_split_first(a: Seq<char>, c: char, rest: Seq<char>)
    requires
        lacks(a, c),
    ensures
        split(a + seq![c] + rest, seq![c]) == seq![a] + split(rest, seq![c]),
{
    let s = a + seq![c] + rest;
    lemma_find_behind(a, c, rest);
    assert(s.take(a.len() as int) =~= a);
    assert(s.skip(a.len() as int + 1) =~= rest);
}

/// The first piece of a text, and what is left behind the separator.
pub proof fn lemma_split_rest(s: Seq<char>, c: char) -> (rest: Seq<char>)
    requires
        split(s, seq![c]).len() > 1,
    ensures
        split(s, seq![c]) == seq![split(s, seq![c])[0]] + split(rest, seq![c]),
        s == split(s, seq![c])[0] + seq![c] + rest,
        lacks(split(s, seq![c])[0], c),
{
    lemma_find_from(s, seq![c], 0);
    let i = find(s, seq![c])->0;
    let a = s.take(i);
    let rest = s.skip(i + 1);
    lemma_matches_char(s, c, i);
    assert(s =~= a + seq![c] + rest);
    assert forall|j: int| 0 <= j < a.len() implies #[trigger] a[j] != c by {
        lemma_matches_char(s, c, j);
    }
    assert(split(s, seq![c])[0] == a);
    rest
}

/// A text in one piece lacks the separator.
pub proof fn lemma_split_whole(s: Seq<char>, c: char)
    requires
        split(s, seq![c]).len() == 1,
    ensures
        split(s, seq![c])[0] == s,
        lacks(s, c),
{
    lemma_find_from(s, seq![c], 0);
    match find(s, seq![c]) {
        Some(i) => {
            let rest = s.skip(i + 1);
            lemma_split_len(rest, c);
            assert(split(s, seq![c]).len() == 1 + split(rest, seq![c]).len());
        },
        None => {
            assert forall|j: int| 0 <= j < s.len() implies #[trigger] s[j] != c by {
                lemma_matches_char(s, c, j);
            }
        },
    }
}

/// There is at least one piece.
pub proof fn lemma_split_len(s: Seq<char>, c: char)
    ensures
        split(s, seq![c]).len() >= 1,
{
}

/// White space in front does not change the words.
pub proof fn lemma_words_behind_space(c: char, s: Seq<char>)
    requires
        is_space(c),
    ensures
        words(seq![c] + s) == words(s),
        space_len(seq![c] + s) == 1 + space_len(s),
{
    let t = seq![c] + s;
    lemma_space_len(s);
    assert(t.skip(1) =~= s);
    assert(t.skip(1 + space_len(s) as int) =~= s.skip(space_len(s) as int));
}

/// White space in front is trimmed.
pub proof fn lemma_trim_behind_space(c: char, s: Seq<char>)
    requires
        is_space(c),
    ensures
        trim(seq![c] + s) == trim(s),
{
    let t = seq![c] + s;
    lemma_space_len(s);
    lemma_words_behind_space(c, s);
    assert(t.skip(1 + space_len(s) as int) =~= s.skip(space_len(s) as int));
}

/// How far a word goes that is followed by white space or by nothing.
pub proof fn lemma_word_len_is(w: Seq<char>, rest: Seq<char>)
    requires
        forall|i: int| 0 <= i < w.len() ==> !is_space(#[trigger] w[i]),
        rest.len() > 0 ==> is_space(rest[0]),
    ensures
        word_len(w + rest) == w.len(),
    decreases w.len(),
{
    let s = w + rest;
    if w.len() > 0 {
        assert(s[0] == w[0]);
        assert(s.skip(1) =~= w.skip(1) + rest);
        lemma_word_len_is(w.skip(1), rest);
    } else {
        assert(s =~= rest);
    }
}

/// A word followed by white space or by nothing is the first of the words.
pub proof fn lemma_words_first(w: Seq<char>, rest: Seq<char>)
    requires
        is_word(w),
        rest.len() > 0 ==> is_space(rest[0]),
    ensures
        words(w + rest) == seq![w] + words(rest),
{
    let s = w + rest;
    assert(s[0] == w[0]);
    assert(space_len(s) == 0);
    assert(s.skip(0) =~= s);
    lemma_word_len_is(w, rest);
    assert(s.take(w.len() as int) =~= w);
    assert(s.skip(w.len() as int) =~= rest);
}

/// The words are words.
pub proof fn lemma_words_are_words(s: Seq<char>)
    ensures
        forall|i: int| 0 <= i < words(s).len() ==> is_word(#[trigger] words(s)[i]),
    decreases s.len(),
{
    lemma_space_len(s);
    let t = s.skip(space_len(s) as int);
    lemma_word_len(t);
    let n = word_len(t);
    if n > 0 {
        let w = t.take(n as int);
        let rest = t.skip(n as int);
        lemma_words_are_words(rest);
        assert forall|i: int| 0 <= i < w.len() implies !is_space(#[trigger] w[i]) by {
            assert(w[i] == t[i]);
        }
        assert forall|i: int| 0 <= i < words(s).len() implies is_word(#[trigger] words(s)[i]) by {
            if i > 0 {
                assert(words(s)[i] == words(rest)[i - 1]);
            }
        }
    }
}

/// A text that begins with what is removed loses just that.
pub proof fn lemma_remove_head(w: Seq<char>, rest: Seq<char>)
    ensures
        remove_first(w + rest, w) == rest,
{
    let s = w + rest;
    assert(s.subrange(0, w.len() as int) =~= w);
    lemma_find_from_is(s, w, 0, 0);
    assert(s.take(0) + s.skip(w.len() as int) =~= rest);
}

/// A character in front that is not the first of what is removed stays in front.
pub proof fn lemma_remove_behind(c: char, s: Seq<char>, w: Seq<char>)
    requires
        w.len() > 0,
        w[0] != c,
    ensures
        remove_first(seq![c] + s, w) == seq![c] + remove_first(s, w),
{
    let t = seq![c] + s;
    lemma_find_skip(t, w, 1);
    assert(t.skip(1) =~= s);
    assert(!matches_at(t, w, 0)) by {
        if matches_at(t, w, 0) {
            assert(t.subrange(0, w.len() as int)[0] == t[0]);
        }
    }
    lemma_find_from(s, w, 0);
    match find(s, w) {
        Some(i) => {
            assert(find(t, w) == Some(i + 1));
            assert(t.take(i + 1) + t.skip(i + 1 + w.len()) =~= seq![c] + (s.take(i) + s.skip(
                i + w.len(),
            )));
        },
        None => {
            assert(find(t, w) is None);
        },
    }
}

/// A text that lacks the character is not changed by replacing it.
pub proof fn lemma_replace_lacking(s: Seq<char>, c: char, to: Seq<char>)
    requires
        lacks(s, c),
    ensures
        replace(s, seq![c], to) == s,
{
    lemma_find_lacking(s, c);
}

/// Replacing goes on behind the first place.
pub proof fn lemma_replace_first(a: Seq<char>, c: char, rest: Seq<char>, to: Seq<char>)
    requires
        lacks(a, c),
    ensures
        replace(a + seq![c] + rest, seq![c], to) == a + to + replace(rest, seq![c], to),
{
    let s = a + seq![c] + rest;
    lemma_find_behind(a, c, rest);
    assert(s.take(a.len() as int) =~= a);
    assert(s.skip(a.len() as int + 1) =~= rest);
}

/// The words of a text have no character that the text lacks.
pub proof fn lemma_words_lack(s: Seq<char>, c: char)
    requires
        lacks(s, c),
    ensures
        forall|i: int| 0 <= i < words(s).len() ==> lacks(#[trigger] words(s)[i], c),
    decreases s.len(),
{
    lemma_space_len(s);
    let t = s.skip(space_len(s) as int);
    lemma_word_len(t);
    let n = word_len(t);
    assert(lacks(t, c));
    if n > 0 {
        let w = t.take(n as int);
        let rest = t.skip(n as int);
        assert(lacks(w, c));
        assert(lacks(rest, c));
        lemma_words_lack(rest, c);
        assert forall|i: int| 0 <= i < words(s).len() implies lacks(#[trigger] words(s)[i], c) by {
            if i > 0 {
                assert(words(s)[i] == words(rest)[i - 1]);
            }
        }
    }
}

/// A text from which a character is taken out has the characters that it had, but for that one.
pub proof fn lemma_taken_out(s: Seq<char>, c: char)
    ensures
        lacks(replace(s, seq![c], seq![]), c),
        forall|i: int|
            0 <= i < replace(s, seq![c], seq![]).len() ==> s.contains(
                #[trigger] replace(s, seq![c], seq![])[i],
            ),
    decreases s.len(),
{
    lemma_find_from(s, seq![c], 0);
    let r = replace(s, seq![c], seq![]);
    match find(s, seq![c]) {
        Some(k) => {
            let a = s.take(k);
            let rest = s.skip(k + 1);
            let q = replace(rest, seq![c], seq![]);
            lemma_taken_out(rest, c);
            assert(r =~= a + q);
            assert forall|i: int| 0 <= i < r.len() implies s.contains(#[trigger] r[i]) && r[i]
                != c by {
                if i < k {
                    assert(r[i] == s[i]);
                    lemma_matches_char(s, c, i);
                } else {
                    assert(r[i] == q[i - k]);
                    let j = choose|j: int| 0 <= j < rest.len() && rest[j] == q[i - k];
                    assert(s[k + 1 + j] == r[i]);
                }
            }
        },
        None => {
            assert forall|i: int| 0 <= i < r.len() implies s.contains(#[trigger] r[i]) && r[i]
                != c by {
                lemma_matches_char(s, c, i);
                assert(s[i] == r[i]);
            }
        },
    }
}

/// A text in which a character is replaced by text without it has it no more.
pub proof fn lemma_replaced(s: Seq<char>, c: char, to: Seq<char>)
    requires
        lacks(to, c),
    ensures
        lacks(replace(s, seq![c], to), c),
    decreases s.len(),
{
    lemma_find_from(s, seq![c], 0);
    match find(s, seq![c]) {
        Some(k) => {
            let rest = s.skip(k + 1);
            lemma_replaced(rest, c, to);
            let r = replace(s, seq![c], to);
            let q = replace(rest, seq![c], to);
            assert(r =~= s.take(k) + to + q);
            assert forall|i: int| 0 <= i < r.len() implies #[trigger] r[i] != c by {
                if i < k {
                    lemma_matches_char(s, c, i);
                } else if i < k + to.len() {
                    assert(r[i] == to[i - k]);
                } else {
                    assert(r[i] == q[i - k - to.len()]);
                }
            }
        },
        None => {
            assert forall|i: int| 0 <= i < s.len() implies #[trigger] s[i] != c by {
                lemma_matches_char(s, c, i);
            }
        },
    }
}

/// Replacing brings in no character but those of the text that it puts in.
pub proof fn lemma_replace_keeps_out(s: Seq<char>, c: char, to: Seq<char>, d: char)
    requires
        lacks(s, d),
        lacks(to, d),
    ensures
        lacks(replace(s, seq![c], to), d),
    decreases s.len(),
{
    lemma_find_from(s, seq![c], 0);
    match find(s, seq![c]) {
        Some(k) => {
            let rest = s.skip(k + 1);
            assert(lacks(rest, d));
            lemma_replace_keeps_out(rest, c, to, d);
            let r = replace(s, seq![c], to);
            let q = replace(rest, seq![c], to);
            assert(r =~= s.take(k) + to + q);
            assert forall|i: int| 0 <= i < r.len() implies #[trigger] r[i] != d by {
                if i < k {
                    assert(r[i] == s[i]);
                } else if i < k + to.len() {
                    assert(r[i] == to[i - k]);
                } else {
                    assert(r[i] == q[i - k - to.len()]);
                }
            }
        },
        None => {},
    }
}

/// The characters of a text.
pub fn chars_of(s: &str) -> (r: Vec<char>)
    ensures
        r@ == s@,
{
    let mut r: Vec<char> = Vec::new();
    for c in it: s.chars()
        invariant
            it.seq() == s@,
            r@ == s@.take(it.index() as int),
    {
        r.push(c);
    }
    r
}

/// The text that a run of characters spells.
pub fn text_of(v: &Vec<char>, from: usize, to: usize) -> (r: String)
    requires
        from <= to <= v@.len(),
    ensures
        r@ == v@.subrange(from as int, to as int),
{
    let mut r = String::new();
    let mut i: usize = from;
    while i < to
        invariant
            from <= i <= to <= v@.len(),
            r@ == v@.subrange(from as int, i as int),
        decreases to - i,
    {
        r.push(v[i]);
        i += 1;
    }
    r
}

/// Whether two texts are the same.
pub fn same_text(a: &str, b: &str) -> (r: bool)
    ensures
        r == (a@ == b@),
{
    a.to_owned() == b.to_owned()
}

/// Whether `pat` stands in `v` at position `i`.
fn stands_at(v: &Vec<char>, pat: &Vec<char>, i: usize) -> (r: bool)
    requires
        i + pat@.len() <= v@.len(),
    ensures
        r == matches_at(v@, pat@, i as int),
{
    let ghost part = v@.subrange(i as int, i + pat@.len());
    let n: usize = v.len();
    let mut j: usize = 0;
    while j < pat.len()
        invariant
            j <= pat@.len(),
            i + pat@.len() <= v@.len() == n,
            part == v@.subrange(i as int, i + pat@.len()),
            forall|k: int| 0 <= k < j ==> part[k] == pat@[k],
        decreases pat@.len() - j,
    {
        if v[i + j] != pat[j] {
            assert(part[j as int] != pat@[j as int]);
            return false;
        }
        j += 1;
    }
    assert(part =~= pat@);
    true
}

/// The first position, from `from` on, at which `pat` stands in `v`.
fn find_text(v: &Vec<char>, pat: &Vec<char>, from: usize) -> (r: Option<usize>)
    requires
        from <= v@.len(),
    ensures
        match r {
            Some(i) => find_from(v@, pat@, from as int) == Some(i as int),
            None => find_from(v@, pat@, from as int) is None,
        },
{
    let mut i: usize = from;
    while pat.len() <= v.len() - i
        invariant
            from <= i <= v@.len(),
            find_from(v@, pat@, from as int) == find_from(v@, pat@, i as int),
        decreases v@.len() - i,
    {
        if stands_at(v, pat, i) {
            return Some(i);
        }
        if i == v.len() {
            assert(find_from(v@, pat@, i + 1) is None);
            return None;
        }
        i += 1;
    }
    None
}

/// Whether `s` begins with `pat`.
pub fn begins_with(s: &str, pat: &str) -> (r: bool)
    ensures
        r == starts_with(s@, pat@),
{
    let v = chars_of(s);
    let p = chars_of(pat);
    p.len() <= v.len() && stands_at(&v, &p, 0)
}

/// What follows `pat` where `s` begins with it.
pub fn after_prefix(s: &str, pat: &str) -> (r: Option<String>)
    ensures
        opt_text(r) == if starts_with(s@, pat@) {
            Some(s@.skip(pat@.len() as int))
        } else {
            None
        },
{
    let v = chars_of(s);
    let p = chars_of(pat);
    if p.len() <= v.len() && stands_at(&v, &p, 0) {
        let rest = text_of(&v, p.len(), v.len());
        assert(rest@ =~= s@.skip(pat@.len() as int));
        Some(rest)
    } else {
        None
    }
}

/// The digit of a number below ten.
pub open spec fn digit(d: nat) -> char {
    (48 + d) as char
}

/// A number in decimal digits.
pub open spec fn decimal(n: nat) -> Seq<char>
    decreases n,
{
    if n < 10 {
        seq![digit(n)]
    } else {
        decimal(n / 10).push(digit(n % 10))
    }
}

/// A number in decimal digits.
pub fn decimal_text(n: usize) -> (r: String)
    ensures
        r@ == decimal(n as nat),
    decreases n,
{
    let d: u8 = (n % 10) as u8;
    let c: u8 = 48 + d;
    if n < 10 {
        let mut r = String::new();
        r.push(c as char);
        assert(r@ =~= seq![digit(n as nat)]);
        r
    } else {
        let mut r = decimal_text(n / 10);
        r.push(c as char);
        r
    }
}

/// What stands before and behind the first occurrence of `sep` in `s`.
pub fn cut_text(s: &str, sep: &str) -> (r: Option<(String, String)>)
    ensures
        match r {
            Some((before, behind)) => find(s@, sep@) matches Some(i) && before@ == s@.take(i)
                && behind@ == s@.skip(i + sep@.len()),
            None => find(s@, sep@) is None,
        },
{
    let v = chars_of(s);
    let p = chars_of(sep);
    let n: usize = v.len();
    proof {
        lemma_find_from(s@, sep@, 0);
    }
    match find_text(&v, &p, 0) {
        Some(i) => {
            let before = text_of(&v, 0, i);
            let behind = text_of(&v, i + p.len(), n);
            assert(before@ =~= s@.take(i as int));
            assert(behind@ =~= s@.skip(i + sep@.len()));
            Some((before, behind))
        },
        None => None,
    }
}

/// What stands between the occurrences of `sep` in `s`.
pub fn split_text(s: &str, sep: &str) -> (r: Vec<String>)
    requires
        sep@.len() > 0,
    ensures
        texts(r@) == split(s@, sep@),
{
    let v = chars_of(s);
    let p = chars_of(sep);
    let n: usize = v.len();
    let mut r: Vec<String> = Vec::new();
    let mut start: usize = 0;
    assert(s@.skip(0) =~= s@);
    assert(texts(r@) + split(s@.skip(0), sep@) =~= split(s@, sep@));
    loop
        invariant_except_break
            v@ == s@,
            p@ == sep@,
            sep@.len() > 0,
            start <= v@.len() == n,
            texts(r@) + split(s@.skip(start as int), sep@) == split(s@, sep@),
        ensures
            texts(r@) == split(s@, sep@),
        decreases v@.len() - start,
    {
        let ghost rest = s@.skip(start as int);
        let ghost before = r@;
        proof {
            lemma_find_skip(s@, sep@, start as int);
            lemma_find_from(s@, sep@, start as int);
        }
        match find_text(&v, &p, start) {
            Some(i) => {
                r.push(text_of(&v, start, i));
                proof {
                    assert(rest.take(i - start) =~= s@.subrange(start as int, i as int));
                    assert(rest.skip(i - start + sep@.len()) =~= s@.skip(i + sep@.len()));
                    assert(texts(r@) =~= texts(before).push(s@.subrange(start as int, i as int)));
                    assert(texts(r@) + split(s@.skip(i + sep@.len()), sep@) =~= texts(before) + (
                    seq![rest.take(i - start)] + split(rest.skip(i - start + sep@.len()), sep@)));
                }
                start = i + p.len();
            },
            None => {
                r.push(text_of(&v, start, n));
                proof {
                    assert(rest =~= s@.subrange(start as int, s@.len() as int));
                    assert(texts(r@) =~= texts(before) + seq![rest]);
                }
                break;
            },
        }
    }
    r
}

/// `s` with each occurrence of `from` replaced by `to`.
pub fn replace_text(s: &str, from: &str, to: &str) -> (r: String)
    requires
        from@.len() > 0,
    ensures
        r@ == replace(s@, from@, to@),
{
    let v = chars_of(s);
    let p = chars_of(from);
    let n: usize = v.len();
    let mut r = String::new();
    let mut start: usize = 0;
    assert(s@.skip(0) =~= s@);
    assert(r@ + replace(s@.skip(0), from@, to@) =~= replace(s@, from@, to@));
    loop
        invariant_except_break
            v@ == s@,
            p@ == from@,
            from@.len() > 0,
            start <= v@.len() == n,
            r@ + replace(s@.skip(start as int), from@, to@) == replace(s@, from@, to@),
        ensures
            r@ == replace(s@, from@, to@),
        decreases v@.len() - start,
    {
        let ghost rest = s@.skip(start as int);
        let ghost before = r@;
        proof {
            lemma_find_skip(s@, from@, start as int);
            lemma_find_from(s@, from@, start as int);
        }
        match find_text(&v, &p, start) {
            Some(i) => {
                r.append(text_of(&v, start, i).as_str());
                r.append(to);
                proof {
                    assert(rest.take(i - start) =~= s@.subrange(start as int, i as int));
                    assert(rest.skip(i - start + from@.len()) =~= s@.skip(i + from@.len()));
                    assert(r@ + replace(s@.skip(i + from@.len()), from@, to@) =~= before + (
                    rest.take(i - start) + to@ + replace(
                        rest.skip(i - start + from@.len()),
                        from@,
                        to@,
                    )));
                }
                start = i + p.len();
            },
            None => {
                r.append(text_of(&v, start, n).as_str());
                proof {
                    assert(rest =~= s@.subrange(start as int, s@.len() as int));
                }
                break;
            },
        }
    }
    r
}

/// `s` without the first occurrence of `pat`.
pub fn remove_text(s: &str, pat: &str) -> (r: String)
    ensures
        r@ == remove_first(s@, pat@),
{
    let v = chars_of(s);
    let p = chars_of(pat);
    let n: usize = v.len();
    proof {
        lemma_find_from(s@, pat@, 0);
    }
    match find_text(&v, &p, 0) {
        Some(i) => {
            let mut r = text_of(&v, 0, i);
            r.append(text_of(&v, i + p.len(), n).as_str());
            assert(r@ =~= s@.take(i as int) + s@.skip(i + pat@.len()));
            r
        },
        None => text_of(&v, 0, v.len()),
    }
}

/// Whether Unicode counts `c` as white space.
pub fn is_white_space(c: char) -> (r: bool)
    ensures
        r == is_space(c),
{
    ('\u{9}' <= c && c <= '\u{d}') || c == ' ' || c == '\u{85}' || c == '\u{a0}' || c == '\u{1680}' || (
    '\u{2000}' <= c && c <= '\u{200a}') || c == '\u{2028}' || c == '\u{2029}' || c == '\u{202f}' || c
        == '\u{205f}' || c == '\u{3000}'
}

/// The position, from `from` on, at which the white space ends.
fn skip_space(v: &Vec<char>, from: usize) -> (r: usize)
    requires
        from <= v@.len(),
    ensures
        r == from + space_len(v@.skip(from as int)),
        from <= r <= v@.len(),
{
    let mut i: usize = from;
    while i < v.len() && is_white_space(v[i])
        invariant
            from <= i <= v@.len(),
            i + space_len(v@.skip(i as int)) == from + space_len(v@.skip(from as int)),
        decreases v@.len() - i,
    {
        assert(v@.skip(i as int).skip(1) =~= v@.skip(i + 1));
        i += 1;
    }
    i
}

/// The position, from `from` on, at which the word ends.
fn skip_word(v: &Vec<char>, from: usize) -> (r: usize)
    requires
        from <= v@.len(),
    ensures
        r == from + word_len(v@.skip(from as int)),
        from <= r <= v@.len(),
{
    let mut i: usize = from;
    while i < v.len() && !is_white_space(v[i])
        invariant
            from <= i <= v@.len(),
            i + word_len(v@.skip(i as int)) == from + word_len(v@.skip(from as int)),
        decreases v@.len() - i,
    {
        assert(v@.skip(i as int).skip(1) =~= v@.skip(i + 1));
        i += 1;
    }
    i
}

/// The words of `s`.
pub fn word_list(s: &str) -> (r: Vec<String>)
    ensures
        texts(r@) == words(s@),
{
    let v = chars_of(s);
    let mut r: Vec<String> = Vec::new();
    let mut start: usize = 0;
    assert(s@.skip(0) =~= s@);
    assert(texts(r@) + words(s@.skip(0)) =~= words(s@));
    loop
        invariant_except_break
            v@ == s@,
            start <= v@.len(),
            texts(r@) + words(s@.skip(start as int)) == words(s@),
        ensures
            texts(r@) == words(s@),
        decreases v@.len() - start,
    {
        let ghost before = r@;
        let ghost rest = s@.skip(start as int);
        let from = skip_space(&v, start);
        let to = skip_word(&v, from);
        proof {
            assert(rest.skip(from - start) =~= s@.skip(from as int));
        }
        if to == from {
            assert(texts(before) + seq![] =~= texts(before));
            break;
        }
        r.push(text_of(&v, from, to));
        proof {
            let t = s@.skip(from as int);
            assert(t.take(to - from) =~= s@.subrange(from as int, to as int));
            assert(t.skip(to - from) =~= s@.skip(to as int));
            assert(texts(r@) =~= texts(before).push(s@.subrange(from as int, to as int)));
            assert(texts(r@) + words(s@.skip(to as int)) =~= texts(before) + (seq![
                t.take(to - from),
            ] + words(t.skip(to - from))));
        }
        start = to;
    }
    r
}

/// `s` without the white space around it.
pub fn trim_text(s: &str) -> (r: String)
    ensures
        r@ == trim(s@),
{
    let v = chars_of(s);
    assert(s@.skip(0) =~= s@);
    let from = skip_space(&v, 0);
    let mut to: usize = v.len();
    assert(v@.subrange(from as int, to as int) =~= trim_start(s@));
    while from < to && is_white_space(v[to - 1])
        invariant
            from <= to <= v@.len(),
            trim_end(v@.subrange(from as int, to as int)) == trim(s@),
        decreases to,
    {
        assert(v@.subrange(from as int, to as int).drop_last() =~= v@.subrange(
            from as int,
            to - 1,
        ));
        to -= 1;
    }
    text_of(&v, from, to)
}

/// Some character of the pattern is another than the one in the text, counted from position `i`.
pub open spec fn differs(s: Seq<char>, pat: Seq<char>, i: int) -> bool {
    exists|j: int| 0 <= j < pat.len() && s[i + j] != #[trigger] pat[j]
}

/// What is found is the first place of the pattern, character by character; and where nothing is
/// found, the pattern stands nowhere.
pub proof fn lemma_found_is_first(s: Seq<char>, pat: Seq<char>)
    ensures
        match find(s, pat) {
            Some(k) => {
                &&& 0 <= k
                &&& k + pat.len() <= s.len()
                &&& forall|j: int| 0 <= j < pat.len() ==> s[k + j] == #[trigger] pat[j]
                &&& forall|i: int| 0 <= i < k ==> #[trigger] differs(s, pat, i)
            },
            None => forall|i: int|
                0 <= i && i + pat.len() <= s.len() ==> #[trigger] differs(s, pat, i),
        },
{
    lemma_find_from(s, pat, 0);
    assert forall|i: int|
        0 <= i && i + pat.len() <= s.len() && !matches_at(s, pat, i) implies #[trigger] differs(
        s,
        pat,
        i,
    ) by {
        if !differs(s, pat, i) {
            assert(s.subrange(i, i + pat.len()) =~= pat);
        }
    }
    match find(s, pat) {
        Some(k) => {
            assert forall|j: int| 0 <= j < pat.len() implies s[k + j] == #[trigger] pat[j] by {
                assert(s.subrange(k, k + pat.len())[j] == s[k + j]);
            }
        },
        None => {},
    }
}

/// Where one character is replaced by another, all others stay as and where they are.
pub proof fn lemma_replace_char(s: Seq<char>, c: char, d: char)
    ensures
        replace(s, seq![c], seq![d]).len() == s.len(),
        forall|i: int|
            0 <= i < s.len() ==> #[trigger] replace(s, seq![c], seq![d])[i] == if s[i] == c {
                d
            } else {
                s[i]
            },
    decreases s.len(),
{
    lemma_find_from(s, seq![c], 0);
    let r = replace(s, seq![c], seq![d]);
    match find(s, seq![c]) {
        Some(k) => {
            let rest = s.skip(k + 1);
            let q = replace(rest, seq![c], seq![d]);
            lemma_replace_char(rest, c, d);
            assert(r =~= s.take(k) + seq![d] + q);
            lemma_matches_char(s, c, k);
            assert forall|i: int| 0 <= i < s.len() implies #[trigger] r[i] == if s[i] == c {
                d
            } else {
                s[i]
            } by {
                if i < k {
                    lemma_matches_char(s, c, i);
                } else if i > k {
                    assert(r[i] == q[i - k - 1]);
                    assert(rest[i - k - 1] == s[i]);
                }
            }
        },
        None => {
            assert forall|i: int| 0 <= i < s.len() implies #[trigger] r[i] == if s[i] == c {
                d
            } else {
                s[i]
            } by {
                lemma_matches_char(s, c, i);
            }
        },
    }
}

/// A text of which no character is left out is left as it is.
proof fn lemma_filter_all(s: Seq<char>, keep: spec_fn(char) -> bool)
    requires
        forall|i: int| 0 <= i < s.len() ==> keep(#[trigger] s[i]),
    ensures
        s.filter(keep) == s,
    decreases s.len(),
{
    reveal(Seq::filter);
    if s.len() > 0 {
        let rest = s.drop_last();
        assert forall|i: int| 0 <= i < rest.len() implies keep(#[trigger] rest[i]) by {
            assert(rest[i] == s[i]);
        }
        lemma_filter_all(rest, keep);
        assert(rest.push(s.last()) =~= s);
    }
}

/// A text of which every character is left out is empty.
proof fn lemma_filter_none(s: Seq<char>, keep: spec_fn(char) -> bool)
    requires
        forall|i: int| 0 <= i < s.len() ==> !keep(#[trigger] s[i]),
    ensures
        s.filter(keep) == Seq::<char>::empty(),
    decreases s.len(),
{
    reveal(Seq::filter);
    if s.len() > 0 {
        let rest = s.drop_last();
        assert forall|i: int| 0 <= i < rest.len() implies !keep(#[trigger] rest[i]) by {
            assert(rest[i] == s[i]);
        }
        lemma_filter_none(rest, keep);
    }
}

/// A character that is taken out leaves all others, in order.
pub proof fn lemma_take_out(s: Seq<char>, c: char)
    ensures
        replace(s, seq![c], seq![]) == s.filter(|x: char| x != c),
    decreases s.len(),
{
    let keep = |x: char| x != c;
    lemma_find_from(s, seq![c], 0);
    match find(s, seq![c]) {
        Some(k) => {
            let a = s.take(k);
            let rest = s.skip(k + 1);
            lemma_matches_char(s, c, k);
            assert forall|i: int| 0 <= i < a.len() implies keep(#[trigger] a[i]) by {
                lemma_matches_char(s, c, i);
            }
            lemma_take_out(rest, c);
            lemma_filter_all(a, keep);
            lemma_filter_none(seq![c], keep);
            Seq::filter_distributes_over_add(a + seq![c], rest, keep);
            Seq::filter_distributes_over_add(a, seq![c], keep);
            assert(s =~= a + seq![c] + rest);
            assert(a + Seq::<char>::empty() + rest.filter(keep) =~= a + rest.filter(keep));
            assert(replace(s, seq![c], seq![]) =~= a + replace(rest, seq![c], seq![]));
            assert(a + Seq::<char>::empty() =~= a);
        },
        None => {
            assert forall|i: int| 0 <= i < s.len() implies keep(#[trigger] s[i]) by {
                lemma_matches_char(s, c, i);
            }
            lemma_filter_all(s, keep);
        },
    }
}

/// Pieces with a text between each two of them.
pub open spec fn join(pieces: Seq<Seq<char>>, between: Seq<char>) -> Seq<char>
    decreases pieces.len(),
{
    if pieces.len() == 0 {
        seq![]
    } else if pieces.len() == 1 {
        pieces[0]
    } else {
        pieces[0] + between + join(pieces.skip(1), between)
    }
}

/// A text is its pieces with the separator between them; the separator stands first behind each
/// piece, and nowhere in the last one.
pub proof fn lemma_split_pieces(s: Seq<char>, sep: Seq<char>)
    requires
        sep.len() > 0,
    ensures
        join(split(s, sep), sep) == s,
        split(s, sep).len() > 0,
        find(split(s, sep).last(), sep) is None,
        forall|i: int|
            0 <= i < split(s, sep).len() - 1 ==> find(#[trigger] split(s, sep)[i] + sep, sep) == Some(
                split(s, sep)[i].len() as int,
            ),
    decreases s.len(),
{
    lemma_find_from(s, sep, 0);
    let all = split(s, sep);
    match find(s, sep) {
        Some(k) => {
            let a = s.take(k);
            let rest = s.skip(k + sep.len());
            let tail = split(rest, sep);
            lemma_split_pieces(rest, sep);
            assert(all =~= seq![a] + tail);
            assert(all.skip(1) =~= tail);
            assert(s.subrange(k, k + sep.len()) == sep);
            assert(s =~= a + sep + rest);
            assert(all.last() == tail.last());
            let t = a + sep;
            assert(t.subrange(k, k + sep.len()) =~= sep);
            assert forall|j: int| 0 <= j < k implies !matches_at(t, sep, j) by {
                if matches_at(t, sep, j) {
                    assert(t.subrange(j, j + sep.len()) =~= s.subrange(j, j + sep.len()));
                    assert(matches_at(s, sep, j));
                }
            }
            lemma_find_from_is(t, sep, 0, k);
            assert forall|i: int| 0 <= i < all.len() - 1 implies find(#[trigger] all[i] + sep, sep)
                == Some(all[i].len() as int) by {
                if i > 0 {
                    assert(all[i] == tail[i - 1]);
                }
            }
        },
        None => {},
    }
}

/// To replace a text by another is to put the other between the pieces.
pub proof fn lemma_replace_is_join(s: Seq<char>, from: Seq<char>, to: Seq<char>)
    requires
        from.len() > 0,
    ensures
        replace(s, from, to) == join(split(s, from), to),
    decreases s.len(),
{
    lemma_find_from(s, from, 0);
    match find(s, from) {
        Some(k) => {
            let rest = s.skip(k + from.len());
            let all = split(s, from);
            lemma_replace_is_join(rest, from, to);
            lemma_split_pieces(rest, from);
            assert(all =~= seq![s.take(k)] + split(rest, from));
            assert(all.skip(1) =~= split(rest, from));
        },
        None => {},
    }
}

/// A run of characters other than white space that goes as far as it can.
pub open spec fn is_run(s: Seq<char>, from: int, to: int) -> bool {
    &&& 0 <= from < to <= s.len()
    &&& forall|i: int| from <= i < to ==> !is_space(#[trigger] s[i])
    &&& from == 0 || is_space(s[from - 1])
    &&& to == s.len() || is_space(s[to])
}

/// Each word is a run that goes as far as it can, and all of them, one behind the other, are the
/// text without its white space.
pub proof fn lemma_words_are_runs(s: Seq<char>)
    ensures
        join(words(s), seq![]) == s.filter(|c: char| !is_space(c)),
        forall|k: int| 0 <= k < words(s).len() ==> is_run_of(s, #[trigger] words(s)[k]),
    decreases s.len(),
{
    lemma_space_len(s);
    let n = space_len(s) as int;
    let t = s.skip(n);
    lemma_word_len(t);
    let m = word_len(t) as int;
    lemma_word_is_kept(s);
    if m > 0 {
        let w = t.take(m);
        let rest = t.skip(m);
        let tail = words(rest);
        let all = words(s);
        lemma_words_are_runs(rest);
        assert(all =~= seq![w] + tail);
        assert(all.skip(1) =~= tail);
        assert(w + Seq::<char>::empty() + join(tail, seq![]) =~= w + join(tail, seq![]));
        if tail.len() == 0 {
            assert(w + Seq::<char>::empty() =~= w);
        }
        assert forall|k: int| 0 <= k < all.len() implies is_run_of(s, #[trigger] all[k]) by {
            if k == 0 {
                lemma_first_run(s);
            } else {
                assert(all[k] == tail[k - 1]);
                lemma_later_run(s, tail[k - 1]);
            }
        }
    }
}

/// The word is such a run of the text.
pub open spec fn is_run_of(s: Seq<char>, word: Seq<char>) -> bool {
    exists|from: int, to: int| #[trigger] is_run(s, from, to) && word == s.subrange(from, to)
}

/// What is kept of a text without its white space is its first word, and what is kept of the rest.
proof fn lemma_word_is_kept(s: Seq<char>)
    ensures
        ({
            let t = s.skip(space_len(s) as int);
            let m = word_len(t) as int;
            s.filter(|c: char| !is_space(c)) == t.take(m) + t.skip(m).filter(
                |c: char| !is_space(c),
            )
        }),
        word_len(s.skip(space_len(s) as int)) == 0 ==> s.filter(|c: char| !is_space(c))
            == Seq::<char>::empty(),
{
    let keep = |c: char| !is_space(c);
    lemma_space_len(s);
    let n = space_len(s) as int;
    let t = s.skip(n);
    lemma_word_len(t);
    let m = word_len(t) as int;
    let blank = s.take(n);
    let w = t.take(m);
    let rest = t.skip(m);
    assert forall|i: int| 0 <= i < blank.len() implies !keep(#[trigger] blank[i]) by {
        assert(blank[i] == s[i]);
    }
    assert forall|i: int| 0 <= i < w.len() implies keep(#[trigger] w[i]) by {
        assert(w[i] == t[i]);
    }
    lemma_filter_none(blank, keep);
    lemma_filter_all(w, keep);
    assert(s =~= blank + t);
    assert(t =~= w + rest);
    Seq::filter_distributes_over_add(blank, t, keep);
    Seq::filter_distributes_over_add(w, rest, keep);
    assert(Seq::<char>::empty() + t.filter(keep) =~= t.filter(keep));
    if m == 0 {
        assert(t.len() > 0 ==> t[0] == s[n]);
        assert(t =~= Seq::<char>::empty());
        lemma_filter_none(t, keep);
    }
}

/// The first word is a run.
proof fn lemma_first_run(s: Seq<char>)
    requires
        word_len(s.skip(space_len(s) as int)) > 0,
    ensures
        ({
            let t = s.skip(space_len(s) as int);
            is_run_of(s, t.take(word_len(t) as int))
        }),
{
    lemma_space_len(s);
    let n = space_len(s) as int;
    let t = s.skip(n);
    lemma_word_len(t);
    let m = word_len(t) as int;
    assert forall|i: int| n <= i < n + m implies !is_space(#[trigger] s[i]) by {
        assert(s[i] == t[i - n]);
    }
    if n > 0 {
        assert(is_space(s[n - 1]));
    }
    if n + m < s.len() {
        assert(t[m] == s[n + m]);
    }
    assert(is_run(s, n, n + m));
    assert(t.take(m) =~= s.subrange(n, n + m));
}

/// A run of what is behind the first word is a run of the text.
proof fn lemma_later_run(s: Seq<char>, word: Seq<char>)
    requires
        word_len(s.skip(space_len(s) as int)) > 0,
        ({
            let t = s.skip(space_len(s) as int);
            is_run_of(t.skip(word_len(t) as int), word)
        }),
    ensures
        is_run_of(s, word),
{
    lemma_space_len(s);
    let n = space_len(s) as int;
    let t = s.skip(n);
    lemma_word_len(t);
    let m = word_len(t) as int;
    let d = n + m;
    let rest = t.skip(m);
    let (from, to) = choose|from: int, to: int| #[trigger]
        is_run(rest, from, to) && word == rest.subrange(from, to);
    assert(rest =~= s.skip(d));
    assert forall|i: int| from + d <= i < to + d implies !is_space(#[trigger] s[i]) by {
        assert(s[i] == rest[i - d]);
    }
    if from == 0 {
        assert(t[m] == rest[0]);
        assert(!is_space(rest[0]));
    } else {
        assert(rest[from - 1] == s[from + d - 1]);
    }
    if to + d < s.len() {
        assert(rest[to] == s[to + d]);
    }
    assert(is_run(s, from + d, to + d));
    assert(word =~= s.subrange(from + d, to + d));
}

/// What is trimmed has no white space at its ends, and nothing but white space is left out, in
/// front and behind.
pub proof fn lemma_trimmed(s: Seq<char>) -> (ends: (int, int))
    ensures
        0 <= ends.0 <= ends.1 <= s.len(),
        trim(s) == s.subrange(ends.0, ends.1),
        forall|i: int| 0 <= i < ends.0 || ends.1 <= i < s.len() ==> is_space(#[trigger] s[i]),
        trim(s).len() > 0 ==> !is_space(trim(s)[0]) && !is_space(trim(s).last()),
{
    lemma_space_len(s);
    let n = space_len(s) as int;
    let t = s.skip(n);
    let m = lemma_trimmed_end(t);
    assert(t.take(m) =~= s.subrange(n, n + m));
    assert forall|i: int| 0 <= i < n || n + m <= i < s.len() implies is_space(#[trigger] s[i]) by {
        if i >= n {
            assert(t[i - n] == s[i]);
        }
    }
    if m > 0 {
        assert(trim(s)[0] == s[n]);
    }
    (n, n + m)
}

/// Nothing but white space is left out behind.
proof fn lemma_trimmed_end(s: Seq<char>) -> (end: int)
    ensures
        0 <= end <= s.len(),
        trim_end(s) == s.take(end),
        forall|i: int| end <= i < s.len() ==> is_space(#[trigger] s[i]),
        end > 0 ==> !is_space(s[end - 1]),
    decreases s.len(),
{
    if s.len() > 0 && is_space(s.last()) {
        let rest = s.drop_last();
        let end = lemma_trimmed_end(rest);
        assert(rest.take(end) =~= s.take(end));
        assert forall|i: int| end <= i < s.len() implies is_space(#[trigger] s[i]) by {
            if i < rest.len() {
                assert(rest[i] == s[i]);
            }
        }
        end
    } else {
        assert(s.take(s.len() as int) =~= s);
        s.len() as int
    }
}

/// The first place of a text is taken out, and nothing else.
pub proof fn lemma_removed_once(a: Seq<char>, pat: Seq<char>, b: Seq<char>)
    requires
        forall|i: int| 0 <= i < a.len() ==> !matches_at(a + pat + b, pat, i),
    ensures
        remove_first(a + pat + b, pat) == a + b,
{
    let s = a + pat + b;
    let k = a.len() as int;
    assert(s.subrange(k, k + pat.len()) =~= pat);
    lemma_find_from_is(s, pat, 0, k);
    assert(s.take(k) =~= a);
    assert(s.skip(k + pat.len()) =~= b);
}

/// The number that decimal digits stand for.
pub open spec fn number(digits: Seq<char>) -> int
    decreases digits.len(),
{
    if digits.len() == 0 {
        0
    } else {
        number(digits.drop_last()) * 10 + (digits.last() as int - '0' as int)
    }
}

/// A number in decimal digits stands for that number, and begins with no needless zero.
pub proof fn lemma_decimal(n: nat)
    ensures
        number(decimal(n)) == n,
        forall|i: int| 0 <= i < decimal(n).len() ==> '0' <= #[trigger] decimal(n)[i] <= '9',
        n > 0 ==> decimal(n)[0] != '0',
        decimal(n).len() > 0,
    decreases n,
{
    if n < 10 {
        assert(decimal(n).drop_last() =~= seq![]);
        assert(number(Seq::<char>::empty()) == 0);
    } else {
        lemma_decimal(n / 10);
        assert(decimal(n).drop_last() =~= decimal(n / 10));
        assert(decimal(n)[0] == decimal(n / 10)[0]);
        assert forall|i: int| 0 <= i < decimal(n).len() implies '0' <= #[trigger] decimal(n)[i]
            <= '9' by {
            if i < decimal(n / 10).len() {
                assert(decimal(n)[i] == decimal(n / 10)[i]);
            }
        }
    }
}

/// A text begins with another where it has its characters, one by one.
pub proof fn lemma_starts_with(s: Seq<char>, pat: Seq<char>)
    ensures
        starts_with(s, pat) <==> pat.len() <= s.len() && (forall|i: int|
            0 <= i < pat.len() ==> s[i] == #[trigger] pat[i]),
        forall|rest: Seq<char>| starts_with(#[trigger] (pat + rest), pat),
{
    if pat.len() <= s.len() {
        let part = s.subrange(0, pat.len() as int);
        if starts_with(s, pat) {
            assert forall|i: int| 0 <= i < pat.len() implies s[i] == #[trigger] pat[i] by {
                assert(part[i] == s[i]);
            }
        }
        if forall|i: int| 0 <= i < pat.len() ==> s[i] == #[trigger] pat[i] {
            assert(part =~= pat);
        }
    }
    assert forall|rest: Seq<char>| starts_with(#[trigger] (pat + rest), pat) by {
        assert((pat + rest).subrange(0, pat.len() as int) =~= pat);
    }
}

/// White space is what separates and pads text: of ASCII the space and the five controls from the
/// tab on, and no letter, digit or sign; beyond ASCII the separators of Unicode.
pub proof fn lemma_white_space(c: char)
    ensures
        c < '\u{80}' ==> (is_space(c) <==> c == ' ' || c == '\t' || c == '\n' || c == '\u{b}' || c
            == '\u{c}' || c == '\r'),
        c >= '\u{80}' ==> (is_space(c) <==> c as u32 == 0x85 || c as u32 == 0xa0 || c as u32
            == 0x1680 || 0x2000 <= c as u32 <= 0x200a || c as u32 == 0x2028 || c as u32 == 0x2029
            || c as u32 == 0x202f || c as u32 == 0x205f || c as u32 == 0x3000),
{
}

/// There is one piece more than there are separators.
pub proof fn lemma_piece_count(s: Seq<char>, c: char)
    ensures
        split(s, seq![c]).len() == s.filter(|x: char| x == c).len() + 1,
    decreases s.len(),
{
    let keep = |x: char| x == c;
    lemma_find_from(s, seq![c], 0);
    match find(s, seq![c]) {
        Some(k) => {
            let a = s.take(k);
            let rest = s.skip(k + 1);
            lemma_matches_char(s, c, k);
            assert forall|i: int| 0 <= i < a.len() implies !keep(#[trigger] a[i]) by {
                lemma_matches_char(s, c, i);
            }
            lemma_piece_count(rest, c);
            lemma_filter_none(a, keep);
            lemma_filter_all(seq![c], keep);
            Seq::filter_distributes_over_add(a + seq![c], rest, keep);
            Seq::filter_distributes_over_add(a, seq![c], keep);
            assert(s =~= a + seq![c] + rest);
        },
        None => {
            assert forall|i: int| 0 <= i < s.len() implies !keep(#[trigger] s[i]) by {
                lemma_matches_char(s, c, i);
            }
            lemma_filter_none(s, keep);
        },
    }
}

/// Pieces in which the first character of a text does not stand are what they were, once they are
/// put together with that text between them and split again.
pub proof fn lemma_split_join(pieces: Seq<Seq<char>>, sep: Seq<char>)
    requires
        sep.len() > 0,
        pieces.len() > 0,
        forall|i: int| 0 <= i < pieces.len() ==> lacks(#[trigger] pieces[i], sep[0]),
    ensures
        split(join(pieces, sep), sep) == pieces,
    decreases pieces.len(),
{
    let s = join(pieces, sep);
    let a = pieces[0];
    if pieces.len() == 1 {
        lemma_find_from(s, sep, 0);
        if find(s, sep) is Some {
            let k = find(s, sep)->0;
            assert(s.subrange(k, k + sep.len())[0] == s[k]);
        }
        assert(pieces =~= seq![a]);
    } else {
        let tail = pieces.skip(1);
        let rest = join(tail, sep);
        assert forall|i: int| 0 <= i < tail.len() implies lacks(#[trigger] tail[i], sep[0]) by {
            assert(tail[i] == pieces[i + 1]);
        }
        lemma_split_join(tail, sep);
        lemma_find_past(a, sep, rest);
        assert(s =~= a + sep + rest);
        assert(s.take(a.len() as int) =~= a);
        assert(s.skip(a.len() as int + sep.len()) =~= rest);
        assert(pieces =~= seq![a] + tail);
    }
}

/// A text is found right behind one that lacks its first character.
pub proof fn lemma_find_past(a: Seq<char>, pat: Seq<char>, rest: Seq<char>)
    requires
        pat.len() > 0,
        lacks(a, pat[0]),
    ensures
        find(a + pat + rest, pat) == Some(a.len() as int),
{
    let s = a + pat + rest;
    let k = a.len() as int;
    assert(s.subrange(k, k + pat.len()) =~= pat);
    assert forall|j: int| 0 <= j < k implies !matches_at(s, pat, j) by {
        if matches_at(s, pat, j) {
            assert(s.subrange(j, j + pat.len())[0] == s[j]);
            assert(s[j] == a[j]);
        }
    }
    lemma_find_from_is(s, pat, 0, k);
}

/// The texts of strings are those of each of them, in order.
pub proof fn lemma_texts(v: Seq<String>)
    ensures
        texts(v).len() == v.len(),
        forall|i: int| 0 <= i < v.len() ==> #[trigger] texts(v)[i] == v[i]@,
{
}

} // verus!
