use vstd::prelude::*;

use crate::keys::lemma_absent_from_views;
use crate::text::{
    chars_of, is_trim_mark, lower_cased, split_whitespace, string_from_chars,
    string_views, to_lower_case, trim_leading, trim_trailing, utf8_len_at_least_3, words,
};

verus! {

/// The languages whose stop words the tokenizer can load.
pub enum StopWordLanguage {
    English,
}

/// The stop words that the `stop_words` crate ships for a language, in its order.
pub uninterp spec fn stop_word_list(language: StopWordLanguage) -> Seq<Seq<char>>;

/// `stop_words::get`: the built-in list of stop words of a language. The list is
/// compiled into that crate, so the result depends on the language alone and is
/// named by `stop_word_list`; its contents are not stated here.
#[verifier::external_body]
fn stop_words_of(language: StopWordLanguage) -> (r: Vec<String>)
    ensures
        string_views(r@) == stop_word_list(language),
{
    let words = match language {
        StopWordLanguage::English => stop_words::get(stop_words::Language::English),
    };
    words.iter().map(|w| w.to_string()).collect()
}

/// The term that a word stands for, given a set of stop words: the word loses
/// the ASCII punctuation and line breaks at its front and then those at its
/// back; what is left must be at least three bytes long in UTF-8, and is lower-cased;
/// a lower-cased term that is a stop word stands for nothing.
pub open spec fn query_term(stop_words: Set<Seq<char>>, word: Seq<char>) -> Option<Seq<char>> {
    let t = trim_trailing(trim_leading(word));
    if vstd::utf8::encode_utf8(t).len() < 3 {
        None
    } else if stop_words.contains(lower_cased(t)) {
        None
    } else {
        Some(lower_cased(t))
    }
}

/// The terms that a sequence of words stands for, in order, skipping the words
/// that stand for none.
pub open spec fn terms_of_words(stop_words: Set<Seq<char>>, ws: Seq<Seq<char>>) -> Seq<Seq<char>>
    decreases ws.len(),
{
    if ws.len() == 0 {
        seq![]
    } else {
        let prev = terms_of_words(stop_words, ws.drop_last());
        match query_term(stop_words, ws.last()) {
            Some(t) => prev.push(t),
            None => prev,
        }
    }
}

/// The terms of a line of a document: those of its white-space separated words.
pub open spec fn document_terms(stop_words: Set<Seq<char>>, line: Seq<char>) -> Seq<Seq<char>> {
    terms_of_words(stop_words, words(line))
}

/// Turns text into index terms, leaving out a fixed set of stop words.
pub struct Tokenizer {
    stop_words: Vec<String>,
}

impl View for Tokenizer {
    type V = Set<Seq<char>>;

    /// The set of stop words.
    closed spec fn view(&self) -> Set<Seq<char>> {
        string_views(self.stop_words@).to_set()
    }
}

impl Tokenizer {
    /// A tokenizer whose stop words are the English stop words of the `stop_words` crate.
    pub fn new() -> (r: Self)
        ensures
            r@ == stop_word_list(StopWordLanguage::English).to_set(),
    {
        Tokenizer { stop_words: stop_words_of(StopWordLanguage::English) }
    }

    /// Whether `term` is one of the stop words.
    fn is_stop_word(&self, term: &String) -> (r: bool)
        ensures
            r == self@.contains(term@),
    {
        let n = self.stop_words.len();
        for i in 0..n
            invariant
                n == self.stop_words@.len(),
                forall|k: int| 0 <= k < i ==> self.stop_words@[k]@ != term@,
        {
            if self.stop_words[i] == *term {
                assert(string_views(self.stop_words@)[i as int] == term@);
                return true;
            }
        }
        proof {
            lemma_absent_from_views(self.stop_words@, term@);
        }
        false
    }

    /// The terms of a line of a document, in order.
    pub fn tokenizer_document(&self, line: &str) -> (r: Vec<String>)
        ensures
            string_views(r@) == document_terms(self@, line@),
    {
        let ws = split_whitespace(line);
        let ghost wv = string_views(ws@);
        let mut out: Vec<String> = Vec::new();
        let n = ws.len();
        for i in 0..n
            invariant
                n == ws@.len(),
                wv == string_views(ws@),
                wv == words(line@),
                string_views(out@) == terms_of_words(self@, wv.take(i as int)),
        {
            assert(wv.take(i + 1).drop_last() =~= wv.take(i as int));
            assert(wv.take(i + 1).last() == ws@[i as int]@);
            match self.tokenizer_query(ws[i].as_str()) {
                Some(t) => {
                    out.push(t);
                    assert(string_views(out@) =~= string_views(out@.drop_last()).push(
                        out@.last()@,
                    ));
                },
                None => {},
            }
        }
        assert(wv.take(n as int) =~= wv);
        out
    }

    /// The term that a query word stands for, if any.
    pub fn tokenizer_query(&self, term: &str) -> (r: Option<String>)
        ensures
            match r {
                Some(t) => query_term(self@, term@) == Some(t@),
                None => query_term(self@, term@) is None,
            },
    {
        let chars = chars_of(term);
        let n = chars.len();
        let mut i: usize = 0;
        assert(chars@.subrange(0, n as int) =~= chars@);
        while i < n && is_trim_char(chars[i])
            invariant
                n == chars@.len(),
                i <= n,
                trim_leading(chars@) == trim_leading(chars@.subrange(i as int, n as int)),
            decreases n - i,
        {
            assert(chars@.subrange(i as int, n as int).drop_first() =~= chars@.subrange(
                i + 1,
                n as int,
            ));
            i = i + 1;
        }
        assert(trim_leading(chars@) == chars@.subrange(i as int, n as int));
        let mut j: usize = n;
        while j > i && is_trim_char(chars[j - 1])
            invariant
                n == chars@.len(),
                i <= j <= n,
                trim_trailing(chars@.subrange(i as int, n as int)) == trim_trailing(
                    chars@.subrange(i as int, j as int),
                ),
            decreases j,
        {
            assert(chars@.subrange(i as int, j as int).drop_last() =~= chars@.subrange(
                i as int,
                j - 1,
            ));
            j = j - 1;
        }
        let ghost t = chars@.subrange(i as int, j as int);
        assert(trim_trailing(trim_leading(term@)) == t);
        let t_chars = vstd::slice::slice_subrange(chars.as_slice(), i, j);
        if !utf8_len_at_least_3(t_chars) {
            return None;
        }
        let trimmed = string_from_chars(t_chars);
        let lower = to_lower_case(trimmed.as_str());
        if self.is_stop_word(&lower) {
            None
        } else {
            Some(lower)
        }
    }
}

/// Whether `c` is trimmed from the ends of a word: ASCII punctuation or a line break.
fn is_trim_char(c: char) -> (r: bool)
    ensures
        r == is_trim_mark(c),
{
    let u = c as u32;
    (33 <= u && u <= 47) || (58 <= u && u <= 64) || (91 <= u && u <= 96) || (123 <= u && u
        <= 126) || c == '\n'
}

} // verus!
