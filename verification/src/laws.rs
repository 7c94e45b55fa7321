use vstd::prelude::*;

use crate::database::Database;
use crate::inverted_index::{with_document, Posting};
use crate::term_counts::{lemma_occurrences_absent, occurrences, term_counts};
use crate::text::{
    ascii_lower_char, ascii_lowercase, is_ascii_text, is_ascii_upper, is_trim_mark, is_white_space,
    lower_cased, trim_leading, trim_trailing, words,
};
use crate::tokenizer::{document_terms, query_term, terms_of_words};

verus! {

/// Every term of a line comes from one of its words: it is that word without
/// its leading and trailing marks, lower-cased; before lower-casing it is at
/// least three bytes long in UTF-8; and it is not a stop word.
pub proof fn law_document_terms_come_from_words(
    stop_words: Set<Seq<char>>,
    line: Seq<char>,
    i: int,
)
    requires
        0 <= i < document_terms(stop_words, line).len(),
    ensures
        ({
            let t = document_terms(stop_words, line)[i];
            &&& !stop_words.contains(t)
            &&& exists|k: int|
                0 <= k < words(line).len() && {
                    let trimmed = trim_trailing(trim_leading(#[trigger] words(line)[k]));
                    &&& t == lower_cased(trimmed)
                    &&& vstd::utf8::encode_utf8(trimmed).len() >= 3
                }
        }),
{
    lemma_terms_of_words_come_from_words(stop_words, words(line), i);
}

proof fn lemma_terms_of_words_come_from_words(
    stop_words: Set<Seq<char>>,
    ws: Seq<Seq<char>>,
    i: int,
)
    requires
        0 <= i < terms_of_words(stop_words, ws).len(),
    ensures
        exists|k: int|
            0 <= k < ws.len() && query_term(stop_words, #[trigger] ws[k]) == Some(
                terms_of_words(stop_words, ws)[i],
            ),
    decreases ws.len(),
{
    let prev = terms_of_words(stop_words, ws.drop_last());
    if i < prev.len() {
        lemma_terms_of_words_come_from_words(stop_words, ws.drop_last(), i);
        let k = choose|k: int|
            0 <= k < ws.drop_last().len() && query_term(stop_words, #[trigger] ws.drop_last()[k])
                == Some(prev[i]);
        assert(ws[k] == ws.drop_last()[k]);
    } else {
        assert(query_term(stop_words, ws[ws.len() - 1]) == Some(
            terms_of_words(stop_words, ws)[i],
        ));
    }
}

/// A word without white space is a line of one word.
proof fn lemma_single_word(w: Seq<char>)
    requires
        w.len() > 0,
        forall|k: int| 0 <= k < w.len() ==> !is_white_space(#[trigger] w[k]),
    ensures
        words(w) == seq![w],
    decreases w.len(),
{
    if w.len() == 1 {
        assert(words(w.drop_last()) == Seq::<Seq<char>>::empty());
        assert(seq![w.last()] =~= w);
    } else {
        let p = w.drop_last();
        lemma_single_word(p);
        assert(w[w.len() - 1] == w.last());
        assert(!is_white_space(w[w.len() - 2]));
        assert(p.push(w.last()) =~= w);
        assert(seq![p].update(0, p.push(w.last())) =~= seq![w]);
    }
}

/// A document and a query agree on a single word: the terms of a line that is
/// one word without white space are the term that the word stands for as a
/// query word, or none.
pub proof fn law_document_agrees_with_query(stop_words: Set<Seq<char>>, word: Seq<char>)
    requires
        word.len() > 0,
        forall|k: int| 0 <= k < word.len() ==> !is_white_space(#[trigger] word[k]),
    ensures
        document_terms(stop_words, word) == match query_term(stop_words, word) {
            Some(t) => seq![t],
            None => Seq::<Seq<char>>::empty(),
        },
{
    lemma_single_word(word);
    let ws = words(word);
    assert(ws.drop_last() =~= Seq::<Seq<char>>::empty());
    assert(ws.last() == word);
    assert(terms_of_words(stop_words, ws.drop_last()) =~= Seq::<Seq<char>>::empty());
    match query_term(stop_words, word) {
        Some(t) => {
            assert(terms_of_words(stop_words, ws) =~= seq![t]);
        },
        None => {
            assert(terms_of_words(stop_words, ws) =~= Seq::<Seq<char>>::empty());
        },
    }
}

/// Indexing a document lists it, last, in the posting list of each of its terms,
/// with the number of times the term occurs in it; the lists of all other terms
/// are left as they were, and no list is created for them.
pub proof fn law_indexed_document_is_listed(
    postings: Map<Seq<char>, Seq<Posting>>,
    stop_words: Set<Seq<char>>,
    text: Seq<char>,
    document_id: usize,
    t: Seq<char>,
)
    ensures
        ({
            let terms = document_terms(stop_words, text);
            let after = with_document(postings, document_id, term_counts(terms));
            &&& terms.contains(t) ==> {
                &&& after.contains_key(t)
                &&& after[t].last() == Posting {
                    document_id,
                    term_count: occurrences(terms, t) as usize,
                }
                &&& after[t].drop_last() == if postings.contains_key(t) {
                    postings[t]
                } else {
                    Seq::<Posting>::empty()
                }
            }
            &&& !terms.contains(t) ==> {
                &&& after.contains_key(t) == postings.contains_key(t)
                &&& postings.contains_key(t) ==> after[t] == postings[t]
            }
        }),
{
    let terms = document_terms(stop_words, text);
    let after = with_document(postings, document_id, term_counts(terms));
    if terms.contains(t) {
        let before = if postings.contains_key(t) {
            postings[t]
        } else {
            Seq::<Posting>::empty()
        };
        assert(after[t] == before.push(
            Posting { document_id, term_count: occurrences(terms, t) as usize },
        ));
        assert(after[t].drop_last() =~= before);
    }
}

/// Ids are positions: in a database whose id counter equals its number of
/// names (as for a new database), adding a name keeps it so, and the name is
/// found at the id that `add` returned.
pub proof fn law_added_name_is_at_its_id(
    before: Database,
    after: Database,
    name: Seq<char>,
    id: usize,
)
    requires
        before.names().len() == before.next_id(),
        id == before.next_id(),
        after.next_id() == before.next_id() + 1,
        after.names() == before.names().push(name),
    ensures
        after.names().len() == after.next_id(),
        after.names()[id as int] == name,
{
}

/// An ASCII term as the tokenizer makes it: at least three characters long,
/// without upper-case letters, neither starting nor ending with ASCII
/// punctuation or a line break, and not a stop word.
pub open spec fn is_clean_ascii_term(stop_words: Set<Seq<char>>, t: Seq<char>) -> bool {
    &&& t.len() >= 3
    &&& is_ascii_text(t)
    &&& forall|i: int| 0 <= i < t.len() ==> !is_ascii_upper(#[trigger] t[i])
    &&& !is_trim_mark(t[0])
    &&& !is_trim_mark(t.last())
    &&& !stop_words.contains(t)
}

/// Removing marks from the front keeps only characters of `s`, and leaves none at the front.
proof fn lemma_trim_leading(s: Seq<char>, p: spec_fn(char) -> bool)
    requires
        forall|i: int| 0 <= i < s.len() ==> p(#[trigger] s[i]),
    ensures
        forall|i: int| 0 <= i < trim_leading(s).len() ==> p(#[trigger] trim_leading(s)[i]),
        trim_leading(s).len() > 0 ==> !is_trim_mark(trim_leading(s)[0]),
    decreases s.len(),
{
    if s.len() > 0 && is_trim_mark(s[0]) {
        assert forall|i: int| 0 <= i < s.drop_first().len() implies p(#[trigger] s.drop_first()[i]) by {
            assert(s.drop_first()[i] == s[i + 1]);
        }
        lemma_trim_leading(s.drop_first(), p);
    }
}

/// Removing marks from the back leaves a prefix of `s` with no mark at its back.
proof fn lemma_trim_trailing(s: Seq<char>)
    ensures
        trim_trailing(s).len() <= s.len(),
        forall|i: int| 0 <= i < trim_trailing(s).len() ==> #[trigger] trim_trailing(s)[i] == s[i],
        trim_trailing(s).len() > 0 ==> !is_trim_mark(trim_trailing(s).last()),
    decreases s.len(),
{
    if s.len() > 0 && is_trim_mark(s.last()) {
        lemma_trim_trailing(s.drop_last());
        assert forall|i: int| 0 <= i < trim_trailing(s).len() implies #[trigger] trim_trailing(s)[i]
            == s[i] by {
            assert(s.drop_last()[i] == s[i]);
        }
    }
}

/// What lowering does to one ASCII character.
proof fn lemma_ascii_lower_char(c: char)
    requires
        (c as u32) < 128,
    ensures
        (ascii_lower_char(c) as u32) < 128,
        !is_ascii_upper(ascii_lower_char(c)),
        !is_trim_mark(c) ==> !is_trim_mark(ascii_lower_char(c)),
        !is_white_space(c) ==> !is_white_space(ascii_lower_char(c)),
        ascii_lower_char(ascii_lower_char(c)) == ascii_lower_char(c),
{
}

/// The UTF-8 encoding of ASCII text has a byte per character.
proof fn lemma_ascii_utf8_len(s: Seq<char>)
    requires
        is_ascii_text(s),
    ensures
        vstd::utf8::encode_utf8(s).len() == s.len(),
    decreases s.len(),
{
    if s.len() > 0 {
        assert((s[0] as u32) < 128);
        assert forall|i: int| 0 <= i < s.drop_first().len() implies (#[trigger] s.drop_first()[i]
            as u32) < 128 by {
            assert(s.drop_first()[i] == s[i + 1]);
        }
        lemma_ascii_utf8_len(s.drop_first());
    }
}

/// Punctuation is removed and the term is normalized: the term of an ASCII
/// query word is at least three characters long, has no upper-case letter,
/// neither starts nor ends with ASCII punctuation or a line break, is not a
/// stop word, has no white space where the word has none, and, used as a
/// query word itself, stands for itself.
pub proof fn law_ascii_query_term(stop_words: Set<Seq<char>>, word: Seq<char>)
    requires
        is_ascii_text(word),
        query_term(stop_words, word) is Some,
    ensures
        ({
            let t = query_term(stop_words, word)->Some_0;
            &&& is_clean_ascii_term(stop_words, t)
            &&& (forall|i: int| 0 <= i < word.len() ==> !is_white_space(#[trigger] word[i])) ==> (
            forall|i: int| 0 <= i < t.len() ==> !is_white_space(#[trigger] t[i]))
            &&& query_term(stop_words, t) == Some(t)
        }),
{
    let no_ws = forall|i: int| 0 <= i < word.len() ==> !is_white_space(#[trigger] word[i]);
    let p = |c: char| (c as u32) < 128 && (no_ws ==> !is_white_space(c));
    let x = trim_leading(word);
    let tr = trim_trailing(x);
    lemma_trim_leading(word, p);
    lemma_trim_trailing(x);
    assert forall|i: int| 0 <= i < tr.len() implies p(#[trigger] tr[i]) by {
        assert(tr[i] == x[i]);
    }
    assert(is_ascii_text(tr)) by {
        assert forall|i: int| 0 <= i < tr.len() implies (#[trigger] tr[i] as u32) < 128 by {
            assert(p(tr[i]));
        }
    }
    lemma_ascii_utf8_len(tr);
    let t = ascii_lowercase(tr);
    assert(lower_cased(tr) == t);
    assert(query_term(stop_words, word) == Some(t));
    assert(tr[0] == x[0]);
    assert forall|i: int| 0 <= i < t.len() implies {
        &&& (#[trigger] t[i] as u32) < 128
        &&& !is_ascii_upper(t[i])
        &&& ascii_lower_char(t[i]) == t[i]
        &&& (no_ws ==> !is_white_space(t[i]))
    } by {
        assert(p(tr[i]));
        lemma_ascii_lower_char(tr[i]);
    }
    lemma_ascii_lower_char(tr[0]);
    lemma_ascii_lower_char(tr.last());
    assert(t.last() == ascii_lower_char(tr.last()));
    assert(is_clean_ascii_term(stop_words, t));
    assert(trim_leading(t) == t);
    assert(trim_trailing(t) == t);
    lemma_ascii_utf8_len(t);
    assert(ascii_lowercase(t) =~= t);
    assert(lower_cased(t) == t);
}

/// Every term of an ASCII line is a clean term without white space, and as a
/// query word stands for itself.
pub proof fn law_ascii_document_terms(stop_words: Set<Seq<char>>, line: Seq<char>, i: int)
    requires
        is_ascii_text(line),
        0 <= i < document_terms(stop_words, line).len(),
    ensures
        ({
            let t = document_terms(stop_words, line)[i];
            &&& is_clean_ascii_term(stop_words, t)
            &&& forall|j: int| 0 <= j < t.len() ==> !is_white_space(#[trigger] t[j])
            &&& query_term(stop_words, t) == Some(t)
        }),
{
    let ws = words(line);
    lemma_terms_of_words_come_from_words(stop_words, ws, i);
    let k = choose|k: int|
        0 <= k < ws.len() && query_term(stop_words, #[trigger] ws[k]) == Some(
            terms_of_words(stop_words, ws)[i],
        );
    lemma_words_chars(line);
    assert(is_ascii_text(ws[k])) by {
        assert forall|j: int| 0 <= j < ws[k].len() implies (#[trigger] ws[k][j] as u32) < 128 by {
            assert(ws[k][j] as u32 == ws[k][j] as u32);
        }
    }
    law_ascii_query_term(stop_words, ws[k]);
}

/// The words of a text are made of its characters and hold no white space.
proof fn lemma_words_chars(s: Seq<char>)
    ensures
        forall|k: int, j: int|
            0 <= k < words(s).len() && 0 <= j < words(s)[k].len() ==> !is_white_space(
                #[trigger] words(s)[k][j],
            ) && (is_ascii_text(s) ==> (words(s)[k][j] as u32) < 128),
    decreases s.len(),
{
    if s.len() > 0 {
        let p = s.drop_last();
        lemma_words_chars(p);
        let prev = words(p);
        let c = s.last();
        assert(is_ascii_text(s) ==> is_ascii_text(p)) by {
            if is_ascii_text(s) {
                assert forall|i: int| 0 <= i < p.len() implies (#[trigger] p[i] as u32) < 128 by {
                    assert(p[i] == s[i]);
                }
            }
        }
        assert(is_ascii_text(s) ==> (c as u32) < 128) by {
            if is_ascii_text(s) {
                assert(s[s.len() - 1] == c);
            }
        }
        if is_white_space(c) {
        } else if s.len() >= 2 && !is_white_space(s[s.len() - 2]) {
            lemma_words_nonempty_after(p);
            let w = words(s);
            assert forall|k: int, j: int|
                0 <= k < w.len() && 0 <= j < w[k].len() implies !is_white_space(#[trigger] w[k][j])
                && (is_ascii_text(s) ==> (w[k][j] as u32) < 128) by {
                if k == prev.len() - 1 {
                    if j < prev.last().len() {
                        assert(w[k][j] == prev[k][j]);
                    } else {
                        assert(w[k][j] == c);
                    }
                } else {
                    assert(w[k] == prev[k]);
                }
            }
        } else {
            let w = words(s);
            assert forall|k: int, j: int|
                0 <= k < w.len() && 0 <= j < w[k].len() implies !is_white_space(#[trigger] w[k][j])
                && (is_ascii_text(s) ==> (w[k][j] as u32) < 128) by {
                if k == prev.len() {
                    assert(w[k] == seq![c]);
                } else {
                    assert(w[k] == prev[k]);
                }
            }
        }
    }
}

/// A text ending in a character that is not white space has a word.
proof fn lemma_words_nonempty_after(s: Seq<char>)
    requires
        s.len() > 0,
        !is_white_space(s.last()),
    ensures
        words(s).len() > 0,
    decreases s.len(),
{
    if s.len() >= 2 && !is_white_space(s[s.len() - 2]) {
        assert(s.drop_last().last() == s[s.len() - 2]);
        lemma_words_nonempty_after(s.drop_last());
    }
}

/// The counts of two documents added together: a term gets the sum of its
/// counts in the two (a term of one of them only keeps its count).
pub open spec fn sum_counts(m1: Map<Seq<char>, nat>, m2: Map<Seq<char>, nat>) -> Map<
    Seq<char>,
    nat,
> {
    Map::new(
        |t: Seq<char>| m1.contains_key(t) || m2.contains_key(t),
        |t: Seq<char>|
            (if m1.contains_key(t) {
                m1[t]
            } else {
                0nat
            }) + (if m2.contains_key(t) {
                m2[t]
            } else {
                0nat
            }),
    )
}

/// White space separates words: the words of `a`, a white-space character
/// `c` and `y` are the words of `a` and then those of `y`.
pub proof fn law_white_space_separates_words(a: Seq<char>, c: char, y: Seq<char>)
    requires
        is_white_space(c),
    ensures
        words(a.push(c) + y) == words(a) + words(y),
    decreases y.len(),
{
    let pre = a.push(c);
    if y.len() == 0 {
        assert(pre + y =~= pre);
        assert(pre.drop_last() =~= a);
        assert(words(a) + words(y) =~= words(a));
    } else {
        let z = pre + y;
        let y1 = y.drop_last();
        let d = y.last();
        law_white_space_separates_words(a, c, y1);
        assert(z.drop_last() =~= pre + y1);
        assert(z.last() == d);
        let aa = words(a);
        let bb = words(y1);
        if is_white_space(d) {
        } else if z.len() >= 2 && !is_white_space(z[z.len() - 2]) {
            if y1.len() == 0 {
                assert(z[z.len() - 2] == c);
            }
            assert(y1.len() > 0);
            assert(z[z.len() - 2] == y1.last());
            assert(y[y.len() - 2] == y1.last());
            lemma_words_nonempty_after(y1);
            assert(words(z) =~= aa + bb.update(bb.len() - 1, bb.last().push(d)));
        } else {
            if y1.len() > 0 {
                assert(z[z.len() - 2] == y1.last());
                assert(y[y.len() - 2] == y1.last());
            }
            assert(words(z) =~= aa + bb.push(seq![d]));
        }
    }
}

/// The terms of two runs of words are the terms of each, one after the other.
proof fn lemma_terms_of_words_concat(
    stop_words: Set<Seq<char>>,
    w1: Seq<Seq<char>>,
    w2: Seq<Seq<char>>,
)
    ensures
        terms_of_words(stop_words, w1 + w2) == terms_of_words(stop_words, w1) + terms_of_words(
            stop_words,
            w2,
        ),
    decreases w2.len(),
{
    if w2.len() == 0 {
        assert(w1 + w2 =~= w1);
        assert(terms_of_words(stop_words, w1) + terms_of_words(stop_words, w2) =~= terms_of_words(
            stop_words,
            w1,
        ));
    } else {
        lemma_terms_of_words_concat(stop_words, w1, w2.drop_last());
        assert((w1 + w2).drop_last() =~= w1 + w2.drop_last());
        assert((w1 + w2).last() == w2.last());
        let p1 = terms_of_words(stop_words, w1);
        let p2 = terms_of_words(stop_words, w2.drop_last());
        match query_term(stop_words, w2.last()) {
            Some(t) => {
                assert((p1 + p2).push(t) =~= p1 + p2.push(t));
            },
            None => {},
        }
    }
}

/// Occurrences in a concatenation add up.
proof fn lemma_occurrences_concat(s1: Seq<Seq<char>>, s2: Seq<Seq<char>>, t: Seq<char>)
    ensures
        occurrences(s1 + s2, t) == occurrences(s1, t) + occurrences(s2, t),
    decreases s2.len(),
{
    if s2.len() == 0 {
        assert(s1 + s2 =~= s1);
    } else {
        lemma_occurrences_concat(s1, s2.drop_last(), t);
        assert((s1 + s2).drop_last() =~= s1 + s2.drop_last());
        assert((s1 + s2).last() == s2.last());
    }
}

/// Counting the terms of two lines joined by a line break gives, for each
/// term, the sum of its counts in the two lines.
pub proof fn law_count_terms_of_two_lines(stop_words: Set<Seq<char>>, a: Seq<char>, b: Seq<char>)
    ensures
        term_counts(document_terms(stop_words, a + seq!['\n'] + b)) == sum_counts(
            term_counts(document_terms(stop_words, a)),
            term_counts(document_terms(stop_words, b)),
        ),
{
    assert(a + seq!['\n'] + b =~= a.push('\n') + b);
    law_white_space_separates_words(a, '\n', b);
    lemma_terms_of_words_concat(stop_words, words(a), words(b));
    let s1 = document_terms(stop_words, a);
    let s2 = document_terms(stop_words, b);
    let s = s1 + s2;
    assert(document_terms(stop_words, a + seq!['\n'] + b) == s);
    let lhs = term_counts(s);
    let rhs = sum_counts(term_counts(s1), term_counts(s2));
    assert forall|t: Seq<char>| lhs.contains_key(t) == rhs.contains_key(t) by {
        if s.contains(t) {
            let k = choose|k: int| 0 <= k < s.len() && s[k] == t;
            if k < s1.len() {
                assert(s1[k] == t);
            } else {
                assert(s2[k - s1.len()] == t);
            }
        }
        if s1.contains(t) {
            let k = choose|k: int| 0 <= k < s1.len() && s1[k] == t;
            assert(s[k] == t);
        }
        if s2.contains(t) {
            let k = choose|k: int| 0 <= k < s2.len() && s2[k] == t;
            assert(s[k + s1.len()] == t);
        }
    }
    assert forall|t: Seq<char>| #[trigger] lhs.contains_key(t) implies lhs[t] == rhs[t] by {
        lemma_occurrences_concat(s1, s2, t);
        if !s1.contains(t) {
            lemma_occurrences_absent(s1, t);
        }
        if !s2.contains(t) {
            lemma_occurrences_absent(s2, t);
        }
    }
    assert(lhs =~= rhs);
}

/// Words are split on Unicode `White_Space`, the property that
/// `char::is_whitespace` tests, and on nothing else: tab, line feed, vertical
/// tab, form feed, carriage return, space, next line, no-break space, ogham
/// space mark, the spaces from en quad to hair space, line and paragraph
/// separators, narrow no-break space, medium mathematical space and
/// ideographic space.
pub proof fn law_white_space_is_unicode_white_space(c: char)
    ensures
        is_white_space(c) <==> ({
            let u = c as u32;
            ||| u == 0x09
            ||| u == 0x0a
            ||| u == 0x0b
            ||| u == 0x0c
            ||| u == 0x0d
            ||| u == 0x20
            ||| u == 0x85
            ||| u == 0xa0
            ||| u == 0x1680
            ||| (0x2000 <= u && u <= 0x200a)
            ||| u == 0x2028
            ||| u == 0x2029
            ||| u == 0x202f
            ||| u == 0x205f
            ||| u == 0x3000
        }),
{
}

/// A line of visible ASCII characters (from `!` to `~`, so hyphens, slashes
/// and all other punctuation included) is one word.
pub proof fn law_visible_ascii_run_is_one_word(line: Seq<char>)
    requires
        line.len() > 0,
        forall|i: int| 0 <= i < line.len() ==> 0x21 <= (#[trigger] line[i] as u32) <= 0x7e,
    ensures
        words(line) == seq![line],
{
    lemma_single_word(line);
}

/// An ASCII letter or digit, as `char::is_ascii_alphanumeric` decides.
pub open spec fn is_ascii_alphanumeric(c: char) -> bool {
    let u = c as u32;
    ||| (48 <= u && u <= 57)
    ||| (65 <= u && u <= 90)
    ||| (97 <= u && u <= 122)
}

/// `word` with `A` to `Z` replaced by `a` to `z`.
pub open spec fn lowered_ascii(word: Seq<char>) -> Seq<char> {
    Seq::new(
        word.len(),
        |i: int|
            if 65 <= (word[i] as u32) && (word[i] as u32) <= 90 {
                ((word[i] as u32) + 32) as char
            } else {
                word[i]
            },
    )
}

/// Only punctuation and line breaks are trimmed: a word that starts and ends
/// with an ASCII letter or digit is kept whole.
pub proof fn law_alphanumeric_ends_are_kept(word: Seq<char>)
    requires
        word.len() > 0,
        is_ascii_alphanumeric(word[0]),
        is_ascii_alphanumeric(word.last()),
    ensures
        trim_trailing(trim_leading(word)) == word,
{
    assert(!is_trim_mark(word[0]));
    assert(trim_leading(word) == word);
    assert(!is_trim_mark(word.last()));
}

/// No word is too long: a word stands for no term exactly when, trimmed, it
/// is shorter than three bytes in UTF-8 or its lower-cased form is a stop
/// word; otherwise it stands for that lower-cased form, whatever its length.
pub proof fn law_only_short_words_and_stop_words_are_dropped(
    stop_words: Set<Seq<char>>,
    word: Seq<char>,
)
    ensures
        ({
            let t = trim_trailing(trim_leading(word));
            &&& query_term(stop_words, word) is None <==> (vstd::utf8::encode_utf8(t).len() < 3
                || stop_words.contains(lower_cased(t)))
            &&& query_term(stop_words, word) is Some ==> query_term(stop_words, word) == Some(
                lower_cased(t),
            )
        }),
{
}

/// A word of at least three ASCII letters and digits, however long, is a term:
/// as a query word and as a line of a document it gives its lower-case form,
/// unless that is a stop word, and a document of that one word counts it once.
pub proof fn law_alphanumeric_word_is_a_term(stop_words: Set<Seq<char>>, word: Seq<char>)
    requires
        word.len() >= 3,
        forall|i: int| 0 <= i < word.len() ==> is_ascii_alphanumeric(#[trigger] word[i]),
    ensures
        ({
            let l = lowered_ascii(word);
            &&& query_term(stop_words, word) == if stop_words.contains(l) {
                None
            } else {
                Some(l)
            }
            &&& document_terms(stop_words, word) == if stop_words.contains(l) {
                Seq::<Seq<char>>::empty()
            } else {
                seq![l]
            }
            &&& !stop_words.contains(l) ==> term_counts(document_terms(stop_words, word)) == map![l => 1nat]
        }),
{
    let l = lowered_ascii(word);
    assert(is_ascii_alphanumeric(word[0]));
    assert(is_ascii_alphanumeric(word[word.len() - 1]));
    law_alphanumeric_ends_are_kept(word);
    assert(is_ascii_text(word)) by {
        assert forall|i: int| 0 <= i < word.len() implies (#[trigger] word[i] as u32) < 128 by {
            assert(is_ascii_alphanumeric(word[i]));
        }
    }
    lemma_ascii_utf8_len(word);
    assert(ascii_lowercase(word) =~= l);
    assert(lower_cased(word) == l);
    assert forall|k: int| 0 <= k < word.len() implies !is_white_space(#[trigger] word[k]) by {
        assert(is_ascii_alphanumeric(word[k]));
    }
    law_document_agrees_with_query(stop_words, word);
    if !stop_words.contains(l) {
        let s = seq![l];
        assert(document_terms(stop_words, word) == s);
        assert(s[0] == l);
        assert(s.drop_last() =~= Seq::<Seq<char>>::empty());
        assert(occurrences(s.drop_last(), l) == 0);
        assert(s.last() == l);
        assert(occurrences(s, l) == 1);
        assert forall|t: Seq<char>| s.contains(t) <==> t == l by {
            if s.contains(t) {
                let k = choose|k: int| 0 <= k < s.len() && s[k] == t;
                assert(k == 0);
            }
        }
        assert(term_counts(s) =~= map![l => 1nat]);
    }
}

} // verus!
