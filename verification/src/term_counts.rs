use vstd::prelude::*;

use crate::keys::{find_key, lemma_take_next, key_position, lemma_key_position, lemma_push_new_key};
use crate::text::string_views;
use crate::tokenizer::{document_terms, Tokenizer};

verus! {

/// How many times `t` occurs in `s`.
pub open spec fn occurrences(s: Seq<Seq<char>>, t: Seq<char>) -> nat
    decreases s.len(),
{
    if s.len() == 0 {
        0
    } else {
        occurrences(s.drop_last(), t) + if s.last() == t {
            1nat
        } else {
            0nat
        }
    }
}

/// Each term of `s`, mapped to the number of times it occurs in `s`.
pub open spec fn term_counts(s: Seq<Seq<char>>) -> Map<Seq<char>, nat> {
    Map::new(|t: Seq<char>| s.contains(t), |t: Seq<char>| occurrences(s, t))
}

/// The number of times each term occurs in a document.
pub struct TermCounts {
    terms: Vec<String>,
    counts: Vec<usize>,
}

impl TermCounts {
    /// The terms, in the order of their first occurrence.
    pub closed spec fn terms(&self) -> Seq<Seq<char>> {
        string_views(self.terms@)
    }

    /// The count of each term, at the term's position.
    pub closed spec fn counts(&self) -> Seq<usize> {
        self.counts@
    }

    /// The terms and counts line up and no term is there twice.
    pub closed spec fn wf(&self) -> bool {
        &&& self.terms@.len() == self.counts@.len()
        &&& string_views(self.terms@).no_duplicates()
    }

    /// The map of terms to counts is the one that the two sequences spell out.
    pub proof fn lemma_entries(&self)
        requires
            self.wf(),
        ensures
            self.terms().len() == self.counts().len(),
            self.terms().no_duplicates(),
            self@.dom() == self.terms().to_set(),
            forall|i: int| #![trigger self.terms()[i]]
                0 <= i < self.terms().len() ==> self@.contains_key(self.terms()[i]) && self@[self.terms()[i]]
                    == self.counts()[i] as nat,
    {
        assert(self@.dom() =~= self.terms().to_set());
        assert forall|i: int| #![trigger self.terms()[i]] 0 <= i < self.terms().len() implies self@.contains_key(
            self.terms()[i],
        ) && self@[self.terms()[i]] == self.counts()[i] as nat by {
            lemma_key_position(self.terms(), i);
        }
    }

    /// The number of distinct terms.
    pub fn len(&self) -> (r: usize)
        requires
            self.wf(),
        ensures
            r == self@.len(),
    {
        proof {
            self.lemma_entries();
            self.terms().unique_seq_to_set();
        }
        self.terms.len()
    }

    /// The term at position `i`.
    pub fn term(&self, i: usize) -> (r: &String)
        requires
            self.wf(),
            i < self.terms().len(),
        ensures
            r@ == self.terms()[i as int],
    {
        &self.terms[i]
    }

    /// The count of the term at position `i`.
    pub fn count_at(&self, i: usize) -> (r: usize)
        requires
            self.wf(),
            i < self.terms().len(),
        ensures
            r == self.counts()[i as int],
    {
        self.counts[i]
    }

    /// How many times `term` occurs (zero for a term that does not).
    pub fn count_of(&self, term: &String) -> (r: usize)
        requires
            self.wf(),
        ensures
            self@.contains_key(term@) ==> r == self@[term@],
            !self@.contains_key(term@) ==> r == 0,
    {
        match find_key(&self.terms, term) {
            Some(i) => {
                assert(string_views(self.terms@)[i as int] == term@);
                self.counts[i]
            },
            None => 0,
        }
    }
}

impl View for TermCounts {
    type V = Map<Seq<char>, nat>;

    closed spec fn view(&self) -> Map<Seq<char>, nat> {
        Map::new(
            |t: Seq<char>| string_views(self.terms@).contains(t),
            |t: Seq<char>| self.counts@[key_position(string_views(self.terms@), t)] as nat,
        )
    }
}

/// Counts the terms of a document. `str::lines` splits only at `\n` (dropping a `\r`
/// before it), and both are white space, so the terms of the lines of a text, one line
/// after the other, are the terms of the whole text.
pub fn count_terms(text: String, tokenizer: &Tokenizer) -> (r: TermCounts)
    ensures
        r.wf(),
        r@ == term_counts(document_terms(tokenizer@, text@)),
{
    let terms = tokenizer.tokenizer_document(text.as_str());
    let ghost ts = string_views(terms@);
    let mut keys: Vec<String> = Vec::new();
    let mut counts: Vec<usize> = Vec::new();
    let n = terms.len();
    for i in 0..n
        invariant
            n == terms@.len(),
            ts == string_views(terms@),
            keys@.len() == counts@.len(),
            string_views(keys@).no_duplicates(),
            forall|k: int| 0 <= k < counts@.len() ==> counts@[k] <= i,
            (TermCounts { terms: keys, counts })@ == term_counts(ts.take(i as int)),
    {
        let ghost before = ts.take(i as int);
        let ghost after = ts.take(i + 1);
        let ghost old_map = (TermCounts { terms: keys, counts })@;
        let ghost old_keys = string_views(keys@);
        let t = &terms[i];
        proof {
            lemma_take_next(ts, i as int);
            assert(after.drop_last() =~= before);
        }
        match find_key(&keys, t) {
            Some(j) => {
                let c = counts[j];
                proof {
                    assert(old_keys[j as int] == t@);
                    assert(old_map.contains_key(t@));
                    assert(old_map[t@] == occurrences(before, t@));
                    assert(c == old_map[t@]);
                }
                let ghost old_counts = counts@;
                counts.set(j, c + 1);
                proof {
                    let new_map = (TermCounts { terms: keys, counts })@;
                    assert forall|x: Seq<char>| #[trigger] new_map.contains_key(x) implies new_map[x]
                        == occurrences(after, x) by {
                        let p = key_position(old_keys, x);
                        assert(old_map.contains_key(x));
                        if x == t@ {
                            assert(p == j);
                            assert(occurrences(after, x) == occurrences(before, x) + 1);
                        } else {
                            assert(old_keys[p] == x);
                            assert(p != j);
                            assert(counts@[p] == old_counts[p]);
                            assert(old_map[x] == old_counts[p] as nat);
                            assert(occurrences(after, x) == occurrences(before, x));
                        }
                    }
                    assert(new_map =~= term_counts(after));
                }
            },
            None => {
                let ghost old_counts = counts@;
                assert(!old_map.contains_key(t@));
                assert(!before.contains(t@));
                keys.push(t.clone());
                counts.push(1);
                proof {
                    assert(string_views(keys@) =~= old_keys.push(t@));
                    lemma_push_new_key(old_keys, t@);
                    let new_map = (TermCounts { terms: keys, counts })@;
                    assert forall|x: Seq<char>| #[trigger] new_map.contains_key(x) implies new_map[x]
                        == occurrences(after, x) by {
                        if x == t@ {
                            assert(occurrences(before, x) == 0) by {
                                lemma_occurrences_absent(before, x);
                            }
                            assert(occurrences(after, x) == 1);
                        } else {
                            assert(string_views(keys@).contains(x));
                            let k = choose|k: int| 0 <= k < string_views(keys@).len() && string_views(keys@)[k] == x;
                            assert(k < old_keys.len());
                            assert(old_keys[k] == x);
                            assert(old_keys.contains(x));
                            assert(old_map.contains_key(x));
                            let p = key_position(old_keys, x);
                            assert(counts@[p] == old_counts[p]);
                            assert(old_map[x] == old_counts[p] as nat);
                            assert(occurrences(after, x) == occurrences(before, x));
                        }
                    }
                    assert forall|x: Seq<char>| new_map.contains_key(x) == term_counts(after).contains_key(x) by {
                        if string_views(keys@).contains(x) && x != t@ {
                            let k = choose|k: int| 0 <= k < string_views(keys@).len() && string_views(keys@)[k] == x;
                            assert(old_keys[k] == x);
                        }
                        if old_keys.contains(x) {
                            assert(string_views(keys@).contains(x));
                        }
                        assert(old_map.contains_key(x) == before.contains(x));
                        assert(string_views(keys@)[old_keys.len() as int] == t@);
                    }
                    assert(new_map =~= term_counts(after));
                }
            },
        }
    }
    assert(ts.take(n as int) =~= ts);
    TermCounts { terms: keys, counts }
}

/// A term that does not occur in a sequence occurs zero times.
pub proof fn lemma_occurrences_absent(s: Seq<Seq<char>>, t: Seq<char>)
    requires
        !s.contains(t),
    ensures
        occurrences(s, t) == 0,
    decreases s.len(),
{
    if s.len() > 0 {
        assert(!s.drop_last().contains(t)) by {
            if s.drop_last().contains(t) {
                let k = choose|k: int| 0 <= k < s.drop_last().len() && s.drop_last()[k] == t;
                assert(s[k] == t);
            }
        }
        lemma_occurrences_absent(s.drop_last(), t);
        assert(s[s.len() - 1] != t);
    }
}

} // verus!
