//! Subjects of mails: the three parts of one, and what the middle part says of a session.
use crate::common;
use crate::text;
use vstd::prelude::*;
use vstd::string::*;

verus! {

/// What the subject of a mail says.
#[verifier::ext_equal]
pub struct SubjectView {
    /// The subject, with the session's id in it.
    pub subject: Seq<char>,
    pub flow_id: Seq<char>,
    pub typ: Option<Seq<char>>,
    pub args: Seq<char>,
}

/// A word that names a session.
pub open spec fn is_tagged(word: Seq<char>) -> bool {
    text::starts_with(word, "#"@)
}

/// The first of the words that names a session, or the first that does not.
pub open spec fn first_word(words: Seq<Seq<char>>, tagged: bool) -> Option<Seq<char>>
    decreases words.len(),
{
    if words.len() == 0 {
        None
    } else if is_tagged(words[0]) == tagged {
        Some(words[0])
    } else {
        first_word(words.skip(1), tagged)
    }
}

/// `s` without the first occurrence of a word, where there is one.
pub open spec fn without(s: Seq<char>, word: Option<Seq<char>>) -> Seq<char> {
    match word {
        Some(w) => text::remove_first(s, w),
        None => s,
    }
}

/// A subject with an id put in front of its middle part.
pub open spec fn tagged_subject(
    first: Seq<char>,
    id: Seq<char>,
    middle: Seq<char>,
    last: Seq<char>,
) -> Seq<char> {
    first + "/#"@ + id + " "@ + middle + "/"@ + last
}

/// What a subject says: it has three parts with `/` between them, and the middle one holds, in any
/// order, the session's id as a word that begins with `#`, the session's type as the first other
/// word, and the arguments as the rest. Where there is no id, the fresh one is put in.
pub open spec fn subject_info(subject: Seq<char>, fresh: Seq<char>) -> Option<SubjectView> {
    let parts = text::split(subject, "/"@);
    if parts.len() != 3 {
        None
    } else {
        let words = text::words(parts[1]);
        let tag = first_word(words, true);
        let typ = first_word(words, false);
        Some(
            SubjectView {
                subject: match tag {
                    Some(_) => subject,
                    None => tagged_subject(parts[0], fresh, parts[1], parts[2]),
                },
                flow_id: match tag {
                    Some(t) => text::replace(t, "#"@, ""@),
                    None => text::replace(fresh, "#"@, ""@),
                },
                typ,
                args: text::trim(without(without(parts[1], tag), typ)),
            },
        )
    }
}

/// What the subject of a mail says.
pub struct SubjectInfo {
    pub subject: String,
    pub flow_id: String,
    pub typ: Option<String>,
    pub args: String,
}

impl View for SubjectInfo {
    type V = SubjectView;

    open spec fn view(&self) -> SubjectView {
        SubjectView {
            subject: self.subject@,
            flow_id: self.flow_id@,
            typ: text::opt_text(self.typ),
            args: self.args@,
        }
    }
}

/// The first of the words that names a session, or the first that does not.
fn pick_word(words: &Vec<String>, tagged: bool) -> (r: Option<String>)
    ensures
        text::opt_text(r) == first_word(text::texts(words@), tagged),
{
    let ghost all = text::texts(words@);
    assert(all.skip(0) =~= all);
    let mut i: usize = 0;
    while i < words.len()
        invariant
            i <= words@.len(),
            all == text::texts(words@),
            first_word(all, tagged) == first_word(all.skip(i as int), tagged),
        decreases words@.len() - i,
    {
        assert(all.skip(i as int)[0] == words@[i as int]@);
        assert(all.skip(i as int).skip(1) =~= all.skip(i + 1));
        if text::begins_with(words[i].as_str(), "#") == tagged {
            return Some(words[i].clone());
        }
        i += 1;
    }
    None
}

/// `s` without the first occurrence of a word, where there is one.
fn take_out(s: String, word: &Option<String>) -> (r: String)
    ensures
        r@ == without(s@, text::opt_text(*word)),
{
    match word {
        Some(w) => text::remove_text(s.as_str(), w.as_str()),
        None => s,
    }
}

/// Reads a subject. The fresh id is used where the subject has none.
pub fn read_subject(subject: String, fresh: &str) -> (r: Option<SubjectInfo>)
    ensures
        match r {
            Some(info) => subject_info(subject@, fresh@) == Some(info@),
            None => subject_info(subject@, fresh@) is None,
        },
{
    proof {
        reveal_strlit("/");
        reveal_strlit("#");
    }
    let parts = text::split_text(subject.as_str(), "/");
    let ghost all = text::texts(parts@);
    if parts.len() != 3 {
        return None;
    }
    assert(all[0] == parts@[0]@ && all[1] == parts@[1]@ && all[2] == parts@[2]@);
    let words = text::word_list(parts[1].as_str());
    let tag = pick_word(&words, true);
    let typ = pick_word(&words, false);
    let rest = take_out(take_out(parts[1].clone(), &tag), &typ);
    let args = text::trim_text(rest.as_str());
    match tag {
        Some(t) => Some(
            SubjectInfo {
                subject,
                flow_id: text::replace_text(t.as_str(), "#", ""),
                typ,
                args,
            },
        ),
        None => {
            let mut full = parts[0].clone();
            full.append("/#");
            full.append(fresh);
            full.append(" ");
            full.append(parts[1].as_str());
            full.append("/");
            full.append(parts[2].as_str());
            Some(
                SubjectInfo {
                    subject: full,
                    flow_id: text::replace_text(fresh, "#", ""),
                    typ,
                    args,
                },
            )
        },
    }
}

/// The first word of a kind is one of the words.
proof fn lemma_first_word(words: Seq<Seq<char>>, tagged: bool)
    ensures
        match first_word(words, tagged) {
            Some(w) => words.contains(w) && is_tagged(w) == tagged,
            None => true,
        },
    decreases words.len(),
{
    if words.len() > 0 {
        if is_tagged(words[0]) == tagged {
            assert(words.contains(words[0]));
        } else {
            let rest = words.skip(1);
            lemma_first_word(rest, tagged);
            match first_word(rest, tagged) {
                Some(w) => {
                    let i = choose|i: int| 0 <= i < rest.len() && rest[i] == w;
                    assert(words[i + 1] == w);
                },
                None => {},
            }
        }
    }
}

/// The three parts of a subject, put together again.
proof fn lemma_three_parts(s: Seq<char>)
    requires
        text::split(s, "/"@).len() == 3,
    ensures
        ({
            let p = text::split(s, "/"@);
            &&& s == p[0] + "/"@ + p[1] + "/"@ + p[2]
            &&& text::lacks(p[0], '/')
            &&& text::lacks(p[1], '/')
            &&& text::lacks(p[2], '/')
        }),
{
    reveal_strlit("/");
    assert("/"@ =~= seq!['/']);
    let p = text::split(s, seq!['/']);
    let r1 = text::lemma_split_rest(s, '/');
    let p1 = text::split(r1, seq!['/']);
    assert(p1 =~= p.skip(1));
    let r2 = text::lemma_split_rest(r1, '/');
    let p2 = text::split(r2, seq!['/']);
    assert(p2 =~= p.skip(2));
    text::lemma_split_whole(r2, '/');
    assert(s =~= p[0] + seq!['/'] + p[1] + seq!['/'] + p[2]);
}

/// Three texts without `/`, with `/` between them, are the three parts of a subject.
proof fn lemma_parts_of_three(a: Seq<char>, b: Seq<char>, c: Seq<char>)
    requires
        text::lacks(a, '/'),
        text::lacks(b, '/'),
        text::lacks(c, '/'),
    ensures
        text::split(a + "/"@ + b + "/"@ + c, "/"@) == seq![a, b, c],
{
    reveal_strlit("/");
    assert("/"@ =~= seq!['/']);
    let r = b + seq!['/'] + c;
    assert(a + "/"@ + b + "/"@ + c =~= a + seq!['/'] + r);
    text::lemma_split_first(a, '/', r);
    text::lemma_split_first(b, '/', c);
    text::lemma_split_lacking(c, '/');
    assert(seq![a] + (seq![b] + seq![c]) =~= seq![a, b, c]);
}

/// A subject with an id put in says what the subject without it said.
proof fn lemma_tagged_subject(
    a: Seq<char>,
    b: Seq<char>,
    c: Seq<char>,
    id: Seq<char>,
    other: Seq<char>,
)
    requires
        text::lacks(a, '/'),
        text::lacks(b, '/'),
        text::lacks(c, '/'),
        text::is_word(id),
        text::lacks(id, '/'),
        text::lacks(id, '#'),
    ensures
        subject_info(tagged_subject(a, id, b, c), other) == Some(
            SubjectView {
                subject: tagged_subject(a, id, b, c),
                flow_id: id,
                typ: first_word(text::words(b), false),
                args: text::trim(without(b, first_word(text::words(b), false))),
            },
        ),
{
    reveal_strlit("/");
    reveal_strlit("/#");
    reveal_strlit("#");
    reveal_strlit(" ");
    reveal_strlit("");
    let tag = seq!['#'] + id;
    let behind = seq![' '] + b;
    let middle = tag + behind;
    assert("/"@ =~= seq!['/']);
    assert("#"@ =~= seq!['#']);
    assert(tagged_subject(a, id, b, c) =~= a + "/"@ + middle + "/"@ + c);
    assert forall|i: int| 0 <= i < middle.len() implies #[trigger] middle[i] != '/' by {
        if i == 0 {
        } else if i < 1 + id.len() {
            assert(middle[i] == id[i - 1]);
        } else if i > 1 + id.len() {
            assert(middle[i] == b[i - 2 - id.len()]);
        }
    }
    lemma_parts_of_three(a, middle, c);
    // The words of the middle part are the id and the words that were there.
    assert forall|i: int| 0 <= i < tag.len() implies !text::is_space(#[trigger] tag[i]) by {
        if i > 0 {
            assert(tag[i] == id[i - 1]);
        }
    }
    text::lemma_words_first(tag, behind);
    text::lemma_words_behind_space(' ', b);
    let old_words = text::words(b);
    let words = seq![tag] + old_words;
    assert(tag.subrange(0, 1) =~= seq!['#']);
    assert(is_tagged(tag));
    assert(words.skip(1) =~= old_words);
    let typ = first_word(old_words, false);
    assert(first_word(words, true) == Some(tag));
    assert(first_word(words, false) == typ);
    // What is left of it without the id and the type is what was left before.
    text::lemma_remove_head(tag, behind);
    match typ {
        Some(t) => {
            lemma_first_word(old_words, false);
            text::lemma_words_are_words(b);
            let i = choose|i: int| 0 <= i < old_words.len() && old_words[i] == t;
            assert(text::is_word(old_words[i]));
            assert(!text::is_space(t[0]));
            text::lemma_remove_behind(' ', b, t);
        },
        None => {},
    }
    text::lemma_trim_behind_space(' ', without(b, typ));
    // The id is the tag without its mark.
    assert(Seq::<char>::empty() + seq!['#'] + id =~= tag);
    text::lemma_replace_first(Seq::<char>::empty(), '#', id, ""@);
    text::lemma_replace_lacking(id, '#', ""@);
    assert(text::replace(tag, "#"@, ""@) =~= id);
}

/// A subject that names its session says the same whatever the fresh id is.
pub proof fn lemma_id_is_kept(subject: Seq<char>, fresh: Seq<char>, other: Seq<char>)
    requires
        text::split(subject, "/"@).len() == 3,
        first_word(text::words(text::split(subject, "/"@)[1]), true) is Some,
    ensures
        subject_info(subject, fresh) == subject_info(subject, other),
        subject_info(subject, fresh)->0.subject == subject,
{
}

/// A session keeps its name: the subject that a mail is answered with, when it comes back, says
/// what the first subject said, whatever fresh id it is read with.
pub proof fn lemma_session_is_kept(subject: Seq<char>, n: u32, other: Seq<char>)
    requires
        subject_info(subject, common::compact(n as nat)) is Some,
    ensures
        subject_info(subject_info(subject, common::compact(n as nat))->0.subject, other)
            == subject_info(subject, common::compact(n as nat)),
{
    let id = common::compact(n as nat);
    let p = text::split(subject, "/"@);
    common::lemma_compact_is_plain(n as nat);
    lemma_three_parts(subject);
    if first_word(text::words(p[1]), true) is None {
        reveal_strlit("#");
        reveal_strlit("");
        assert("#"@ =~= seq!['#']);
        text::lemma_replace_lacking(id, '#', ""@);
        lemma_tagged_subject(p[0], p[1], p[2], id, other);
    }
}

/// The name of a session has no white space in it, and neither of the characters that have a
/// meaning in a subject.
pub proof fn lemma_name_is_plain(subject: Seq<char>, n: u32)
    requires
        subject_info(subject, common::compact(n as nat)) is Some,
    ensures
        ({
            let id = subject_info(subject, common::compact(n as nat))->0.flow_id;
            &&& text::lacks(id, '#')
            &&& text::lacks(id, '/')
            &&& forall|i: int| 0 <= i < id.len() ==> !text::is_space(#[trigger] id[i])
        }),
{
    let fresh = common::compact(n as nat);
    let p = text::split(subject, "/"@);
    let words = text::words(p[1]);
    let tag = first_word(words, true);
    let word = match tag {
        Some(t) => t,
        None => fresh,
    };
    common::lemma_compact_is_plain(n as nat);
    lemma_three_parts(subject);
    if tag is Some {
        lemma_first_word(words, true);
        text::lemma_words_are_words(p[1]);
        text::lemma_words_lack(p[1], '/');
        let i = choose|i: int| 0 <= i < words.len() && words[i] == word;
        assert(text::is_word(words[i]) && text::lacks(words[i], '/'));
    }
    reveal_strlit("#");
    reveal_strlit("");
    assert("#"@ =~= seq!['#']);
    assert(""@ =~= Seq::<char>::empty());
    text::lemma_taken_out(word, '#');
    let id = text::replace(word, "#"@, ""@);
    assert forall|i: int| 0 <= i < id.len() implies #[trigger] id[i] != '/' && !text::is_space(
        id[i],
    ) by {
        let k = choose|k: int| 0 <= k < word.len() && word[k] == id[i];
        assert(word[k] != '/' && !text::is_space(word[k]));
    }
}

/// Text without `/` in front of a subject, such as a mark for an answer, changes nothing but the
/// subject itself.
pub proof fn lemma_prefix_is_ignored(prefix: Seq<char>, subject: Seq<char>, fresh: Seq<char>)
    requires
        text::lacks(prefix, '/'),
    ensures
        subject_info(prefix + subject, fresh) == match subject_info(subject, fresh) {
            Some(v) => Some(SubjectView { subject: prefix + v.subject, ..v }),
            None => None,
        },
{
    reveal_strlit("/");
    assert("/"@ =~= seq!['/']);
    let s = prefix + subject;
    let p = text::split(subject, seq!['/']);
    let q = text::split(s, seq!['/']);
    text::lemma_split_len(subject, '/');
    if p.len() == 1 {
        text::lemma_split_whole(subject, '/');
        assert forall|i: int| 0 <= i < s.len() implies #[trigger] s[i] != '/' by {
            if i >= prefix.len() {
                assert(s[i] == subject[i - prefix.len()]);
            }
        }
        text::lemma_split_lacking(s, '/');
    } else {
        let rest = text::lemma_split_rest(subject, '/');
        let a = prefix + p[0];
        assert forall|i: int| 0 <= i < a.len() implies #[trigger] a[i] != '/' by {
            if i >= prefix.len() {
                assert(a[i] == p[0][i - prefix.len()]);
            }
        }
        text::lemma_split_first(a, '/', rest);
        assert(s =~= a + seq!['/'] + rest);
        assert(q =~= p.update(0, a));
        if p.len() == 3 && first_word(text::words(p[1]), true) is None {
            assert(tagged_subject(a, fresh, p[1], p[2]) =~= prefix + tagged_subject(
                p[0],
                fresh,
                p[1],
                p[2],
            ));
        }
    }
}

/// An answer to an answer stays in its session: with any text without `/` put in front, the
/// subject that a mail is answered with names the same session, of the same type and with the
/// same arguments.
pub proof fn lemma_answer_stays_in_session(
    prefix: Seq<char>,
    subject: Seq<char>,
    n: u32,
    other: Seq<char>,
)
    requires
        text::lacks(prefix, '/'),
        subject_info(subject, common::compact(n as nat)) is Some,
    ensures
        ({
            let first = subject_info(subject, common::compact(n as nat))->0;
            subject_info(prefix + first.subject, other) == Some(
                SubjectView { subject: prefix + first.subject, ..first },
            )
        }),
{
    lemma_session_is_kept(subject, n, other);
    let first = subject_info(subject, common::compact(n as nat))->0;
    lemma_prefix_is_ignored(prefix, first.subject, other);
}

/// A subject is read just where it has two `/`.
pub proof fn lemma_subject_is_read(subject: Seq<char>, fresh: Seq<char>)
    ensures
        subject_info(subject, fresh) is Some <==> subject.filter(|c: char| c == '/').len() == 2,
{
    reveal_strlit("/");
    assert("/"@ =~= seq!['/']);
    text::lemma_piece_count(subject, '/');
}

/// The word is the first of its kind among the words.
pub open spec fn is_first(words: Seq<Seq<char>>, i: int, tagged: bool) -> bool {
    &&& 0 <= i < words.len()
    &&& tagged == (words[i].len() > 0 && words[i][0] == '#')
    &&& forall|j: int|
        0 <= j < i ==> tagged != (#[trigger] words[j].len() > 0 && words[j][0] == '#')
}

/// A word names a session where it begins with `#`.
proof fn lemma_tag(word: Seq<char>)
    ensures
        is_tagged(word) == (word.len() > 0 && word[0] == '#'),
{
    reveal_strlit("#");
    assert("#"@ =~= seq!['#']);
    text::lemma_matches_char(word, '#', 0);
}

/// Where the first word of a kind stands.
proof fn lemma_first_is_first(words: Seq<Seq<char>>, tagged: bool)
    ensures
        match first_word(words, tagged) {
            Some(w) => exists|i: int| #[trigger] is_first(words, i, tagged) && words[i] == w,
            None => forall|j: int|
                0 <= j < words.len() ==> tagged != (#[trigger] words[j].len() > 0 && words[j][0]
                    == '#'),
        },
    decreases words.len(),
{
    if words.len() > 0 {
        lemma_tag(words[0]);
        if is_tagged(words[0]) == tagged {
            assert(is_first(words, 0, tagged));
        } else {
            let rest = words.skip(1);
            lemma_first_is_first(rest, tagged);
            match first_word(rest, tagged) {
                Some(w) => {
                    let i = choose|i: int| #[trigger] is_first(rest, i, tagged) && rest[i] == w;
                    assert forall|j: int| 0 <= j < i + 1 implies tagged != (
                    #[trigger] words[j].len() > 0 && words[j][0] == '#') by {
                        if j > 0 {
                            assert(words[j] == rest[j - 1]);
                        }
                    }
                    assert(is_first(words, i + 1, tagged) && words[i + 1] == w);
                },
                None => {
                    assert forall|j: int| 0 <= j < words.len() implies tagged != (
                    #[trigger] words[j].len() > 0 && words[j][0] == '#') by {
                        if j > 0 {
                            assert(words[j] == rest[j - 1]);
                        }
                    }
                },
            }
        }
    }
}

/// What a subject of three parts says, from the words of the middle one: the first that begins
/// with `#` names the session, without any `#`, and the subject is kept; the first that does not is
/// the type. Where none begins with `#`, the fresh name is used, and put in front of the middle
/// part behind a `#`.
pub proof fn lemma_subject_words(a: Seq<char>, b: Seq<char>, c: Seq<char>, fresh: Seq<char>)
    requires
        text::lacks(a, '/'),
        text::lacks(b, '/'),
        text::lacks(c, '/'),
    ensures
        ({
            let subject = a + seq!['/'] + b + seq!['/'] + c;
            let words = text::words(b);
            let no_mark = |x: char| x != '#';
            subject_info(subject, fresh) matches Some(v) && {
                &&& match v.typ {
                    Some(t) => exists|i: int| #[trigger] is_first(words, i, false) && words[i] == t,
                    None => forall|j: int| !#[trigger] is_first(words, j, false),
                }
                &&& (exists|i: int| #[trigger] is_first(words, i, true)) ==> v.subject == subject
                    && exists|i: int| #[trigger]
                    is_first(words, i, true) && v.flow_id == words[i].filter(no_mark)
                &&& (forall|i: int| !#[trigger] is_first(words, i, true)) ==> v.flow_id
                    == fresh.filter(no_mark) && v.subject == a + seq!['/', '#'] + fresh + seq![' ']
                    + b + seq!['/'] + c
            }
        }),
{
    reveal_strlit("/");
    reveal_strlit("/#");
    reveal_strlit("#");
    reveal_strlit(" ");
    reveal_strlit("");
    assert("/"@ =~= seq!['/']);
    assert("/#"@ =~= seq!['/', '#']);
    assert("#"@ =~= seq!['#']);
    assert(" "@ =~= seq![' ']);
    assert(""@ =~= Seq::<char>::empty());
    let words = text::words(b);
    lemma_parts_of_three(a, b, c);
    lemma_first_is_first(words, true);
    lemma_first_is_first(words, false);
    text::lemma_take_out(fresh, '#');
    match first_word(words, true) {
        Some(t) => {
            text::lemma_take_out(t, '#');
        },
        None => {
            assert forall|j: int| !#[trigger] is_first(words, j, true) by {
                if is_first(words, j, true) {
                    assert(words[j].len() > 0 && words[j][0] == '#');
                }
            }
        },
    }
    if first_word(words, false) is None {
        assert forall|j: int| !#[trigger] is_first(words, j, false) by {
            if is_first(words, j, false) {
                assert(!(words[j].len() > 0 && words[j][0] == '#'));
            }
        }
    }
}

/// A text without white space at its ends.
pub open spec fn is_trimmed(s: Seq<char>) -> bool {
    s.len() > 0 ==> !text::is_space(s[0]) && !text::is_space(s.last())
}

/// A text without white space at its ends is what is left of it behind a space when it is trimmed.
proof fn lemma_trim_trimmed(s: Seq<char>)
    requires
        is_trimmed(s),
    ensures
        text::trim(s) == s,
        text::trim(seq![' '] + s) == s,
{
    let (from, to) = text::lemma_trimmed(s);
    if s.len() > 0 {
        if from > 0 {
            assert(text::is_space(s[0]));
        }
        if to < s.len() {
            assert(text::is_space(s[s.len() - 1]));
        }
    }
    assert(s.subrange(from, to) =~= s);
    text::lemma_trim_behind_space(' ', s);
}

/// The subject of a mail to a session, with its type and its arguments written behind its name,
/// says just that: the name, the type and the whole of the arguments.
pub proof fn lemma_subject_says(
    a: Seq<char>,
    id: Seq<char>,
    typ: Seq<char>,
    args: Seq<char>,
    c: Seq<char>,
    fresh: Seq<char>,
)
    requires
        text::lacks(a, '/'),
        text::is_word(id),
        text::lacks(id, '/'),
        text::lacks(id, '#'),
        text::is_word(typ),
        text::lacks(typ, '/'),
        typ[0] != '#',
        text::lacks(args, '/'),
        is_trimmed(args),
        text::lacks(c, '/'),
    ensures
        ({
            let subject = a + seq!['/', '#'] + id + seq![' '] + typ + seq![' '] + args + seq!['/']
                + c;
            subject_info(subject, fresh) == Some(
                SubjectView { subject, flow_id: id, typ: Some(typ), args },
            )
        }),
{
    reveal_strlit("/");
    reveal_strlit("/#");
    reveal_strlit(" ");
    assert("/"@ =~= seq!['/']);
    assert("/#"@ =~= seq!['/', '#']);
    assert(" "@ =~= seq![' ']);
    let rest = seq![' '] + args;
    let b = typ + rest;
    assert forall|i: int| 0 <= i < b.len() implies #[trigger] b[i] != '/' by {
        if i < typ.len() {
            assert(b[i] == typ[i]);
        } else if i > typ.len() {
            assert(b[i] == args[i - typ.len() - 1]);
        }
    }
    lemma_tagged_subject(a, b, c, id, fresh);
    assert(tagged_subject(a, id, b, c) =~= a + seq!['/', '#'] + id + seq![' '] + typ + seq![' ']
        + args + seq!['/'] + c);
    text::lemma_words_first(typ, rest);
    lemma_tag(typ);
    assert(text::words(b)[0] == typ);
    assert(first_word(text::words(b), false) == Some(typ));
    text::lemma_remove_head(typ, rest);
    lemma_trim_trimmed(args);
}

/// The subject of a mail that begins a session, with the type and the arguments: the fresh name is
/// the session's, the type and the whole of the arguments are those that are written, and answers
/// go out under a subject with the name in it.
pub proof fn lemma_new_subject_says(
    a: Seq<char>,
    typ: Seq<char>,
    args: Seq<char>,
    c: Seq<char>,
    n: u32,
)
    requires
        text::lacks(a, '/'),
        text::is_word(typ),
        text::lacks(typ, '/'),
        typ[0] != '#',
        text::lacks(args, '/'),
        is_trimmed(args),
        text::lacks(c, '/'),
        forall|i: int|
            0 <= i < text::words(args).len() ==> (#[trigger] text::words(args)[i])[0] != '#',
    ensures
        ({
            let fresh = common::compact(n as nat);
            let subject = a + seq!['/'] + typ + seq![' '] + args + seq!['/'] + c;
            subject_info(subject, fresh) == Some(
                SubjectView {
                    subject: a + seq!['/', '#'] + fresh + seq![' '] + typ + seq![' '] + args + seq![
                        '/',
                    ] + c,
                    flow_id: fresh,
                    typ: Some(typ),
                    args,
                },
            )
        }),
{
    reveal_strlit("/");
    reveal_strlit("/#");
    reveal_strlit("#");
    reveal_strlit(" ");
    reveal_strlit("");
    assert("/"@ =~= seq!['/']);
    assert("/#"@ =~= seq!['/', '#']);
    assert("#"@ =~= seq!['#']);
    assert(" "@ =~= seq![' ']);
    assert(""@ =~= Seq::<char>::empty());
    let fresh = common::compact(n as nat);
    common::lemma_compact_is_plain(n as nat);
    let rest = seq![' '] + args;
    let b = typ + rest;
    let subject = a + seq!['/'] + typ + seq![' '] + args + seq!['/'] + c;
    assert forall|i: int| 0 <= i < b.len() implies #[trigger] b[i] != '/' by {
        if i < typ.len() {
            assert(b[i] == typ[i]);
        } else if i > typ.len() {
            assert(b[i] == args[i - typ.len() - 1]);
        }
    }
    assert(subject =~= a + seq!['/'] + b + seq!['/'] + c);
    lemma_parts_of_three(a, b, c);
    text::lemma_words_first(typ, rest);
    text::lemma_words_behind_space(' ', args);
    text::lemma_words_are_words(args);
    let words = text::words(b);
    lemma_tag(typ);
    assert(words[0] == typ);
    lemma_first_is_first(words, true);
    if first_word(words, true) is Some {
        let i = choose|i: int| #[trigger] is_first(words, i, true);
        if i > 0 {
            assert(words[i] == text::words(args)[i - 1]);
        }
    }
    assert(first_word(words, false) == Some(typ));
    text::lemma_replace_lacking(fresh, '#', ""@);
    text::lemma_remove_head(typ, rest);
    lemma_trim_trimmed(args);
    assert(tagged_subject(a, fresh, b, c) =~= a + seq!['/', '#'] + fresh + seq![' '] + typ + seq![
        ' ',
    ] + args + seq!['/'] + c);
}

/// The arguments are what is left of the middle part, with no white space around it, when the word
/// that names the session and the type are taken out, each in its first place.
pub proof fn lemma_subject_args(a: Seq<char>, b: Seq<char>, c: Seq<char>, fresh: Seq<char>)
    requires
        text::lacks(a, '/'),
        text::lacks(b, '/'),
        text::lacks(c, '/'),
    ensures
        ({
            let words = text::words(b);
            let args = subject_info(a + seq!['/'] + b + seq!['/'] + c, fresh)->0.args;
            &&& forall|i: int, k: int|
                #![trigger is_first(words, i, true), is_first(words, k, false)]
                is_first(words, i, true) && is_first(words, k, false) ==> args == text::trim(
                    text::remove_first(text::remove_first(b, words[i]), words[k]),
                )
            &&& (forall|k: int| !#[trigger] is_first(words, k, false)) ==> forall|i: int| #[trigger]
                is_first(words, i, true) ==> args == text::trim(text::remove_first(b, words[i]))
            &&& (forall|i: int| !#[trigger] is_first(words, i, true)) ==> forall|k: int| #[trigger]
                is_first(words, k, false) ==> args == text::trim(text::remove_first(b, words[k]))
            &&& words.len() == 0 ==> args == text::trim(b)
        }),
{
    reveal_strlit("/");
    assert("/"@ =~= seq!['/']);
    let words = text::words(b);
    lemma_parts_of_three(a, b, c);
    lemma_first_is_first(words, true);
    lemma_first_is_first(words, false);
    assert forall|i: int, tagged: bool| #[trigger] is_first(words, i, tagged) implies first_word(
        words,
        tagged,
    ) == Some(words[i]) by {
        if first_word(words, tagged) is None {
            assert(tagged != (words[i].len() > 0 && words[i][0] == '#'));
        } else {
            let w = first_word(words, tagged)->0;
            let k = choose|k: int| #[trigger] is_first(words, k, tagged) && words[k] == w;
            if k < i {
                assert(tagged != (words[k].len() > 0 && words[k][0] == '#'));
            } else if i < k {
                assert(tagged != (words[i].len() > 0 && words[i][0] == '#'));
            }
        }
    }
}

} // verus!
