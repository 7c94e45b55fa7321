use vstd::prelude::*;

use crate::keys::{find_key, lemma_take_next, key_position, lemma_key_position, lemma_push_new_key};
use crate::term_counts::TermCounts;
use crate::text::string_views;

verus! {

/// One entry of a posting list: a document that holds the term, and how many
/// times it holds it (from which the entry's tf-idf weight is computed).
#[derive(Debug, Clone, Copy, PartialEq, Eq, Structural)]
pub struct Posting {
    pub document_id: usize,
    pub term_count: usize,
}

/// The posting lists after one more document: each term of the document gets an
/// entry for it at the end of its list (a term seen for the first time gets a
/// list of its own); the lists of the other terms are left as they were.
pub open spec fn with_document(
    postings: Map<Seq<char>, Seq<Posting>>,
    document_id: usize,
    counts: Map<Seq<char>, nat>,
) -> Map<Seq<char>, Seq<Posting>> {
    Map::new(
        |t: Seq<char>| postings.contains_key(t) || counts.contains_key(t),
        |t: Seq<char>|
            if counts.contains_key(t) {
                (if postings.contains_key(t) {
                    postings[t]
                } else {
                    seq![]
                }).push(Posting { document_id, term_count: counts[t] as usize })
            } else {
                postings[t]
            },
    )
}

/// The posting lists of an index: each term mapped to the documents that hold it,
/// in the order in which the documents were added.
pub struct InvertedIndex {
    terms: Vec<String>,
    posting_lists: Vec<Vec<Posting>>,
    total_documents: usize,
    results_size: usize,
}

impl InvertedIndex {
    /// The terms and lists line up and no term is there twice.
    pub closed spec fn wf(&self) -> bool {
        &&& self.terms@.len() == self.posting_lists@.len()
        &&& string_views(self.terms@).no_duplicates()
    }

    /// The terms that have a posting list, in the order of their first occurrence.
    pub closed spec fn term_order(&self) -> Seq<Seq<char>> {
        string_views(self.terms@)
    }

    /// The number of documents that have been added with at least one term.
    pub closed spec fn spec_total_documents(&self) -> usize {
        self.total_documents
    }

    /// How many entries of a posting list a search considers at most.
    pub closed spec fn spec_results_size(&self) -> usize {
        self.results_size
    }

    /// An empty index whose searches consider at most `results_size` entries
    /// of each posting list (10 when none is given).
    pub fn new(results_size: Option<usize>) -> (r: Self)
        ensures
            r.wf(),
            r@ == Map::<Seq<char>, Seq<Posting>>::empty(),
            r.spec_total_documents() == 0,
            r.spec_results_size() == match results_size {
                Some(n) => n,
                None => 10,
            },
    {
        let size = match results_size {
            Some(n) => n,
            None => 10,
        };
        let r = InvertedIndex {
            terms: Vec::new(),
            posting_lists: Vec::new(),
            total_documents: 0,
            results_size: size,
        };
        assert(r@ =~= Map::<Seq<char>, Seq<Posting>>::empty());
        r
    }

    /// Adds the term counts of a document. A document without terms changes nothing.
    pub fn add_document(&mut self, document_id: usize, count_terms: TermCounts)
        requires
            old(self).wf(),
            count_terms.wf(),
            count_terms@.len() > 0 ==> old(self).spec_total_documents() < usize::MAX,
        ensures
            final(self).wf(),
            final(self).spec_results_size() == old(self).spec_results_size(),
            count_terms@.len() == 0 ==> final(self)@ == old(self)@
                && final(self).spec_total_documents() == old(self).spec_total_documents(),
            count_terms@.len() > 0 ==> final(self)@ == with_document(
                old(self)@,
                document_id,
                count_terms@,
            ) && final(self).spec_total_documents() == old(self).spec_total_documents() + 1,
    {
        if count_terms.len() == 0 {
            return;
        }
        self.total_documents += 1;
        proof {
            count_terms.lemma_entries();
        }
        let ghost start = self@;
        let n = count_terms.len();
        proof {
            count_terms.terms().unique_seq_to_set();
        }
        proof {
            let m0 = Map::new(
                |t: Seq<char>| count_terms.terms().take(0).contains(t),
                |t: Seq<char>| count_terms@[t],
            );
            assert(m0 =~= Map::<Seq<char>, nat>::empty());
            assert(with_document(start, document_id, m0) =~= start);
        }
        for i in 0..n
            invariant
                n == count_terms.terms().len(),
                start == old(self)@,
                self.spec_total_documents() == old(self).spec_total_documents() + 1,
                self.spec_results_size() == old(self).spec_results_size(),
                count_terms.wf(),
                count_terms.terms().len() == count_terms.counts().len(),
                count_terms.terms().no_duplicates(),
                count_terms@.dom() == count_terms.terms().to_set(),
                forall|k: int| #![trigger count_terms.terms()[k]]
                    0 <= k < count_terms.terms().len() ==> count_terms@.contains_key(
                        count_terms.terms()[k],
                    ) && count_terms@[count_terms.terms()[k]] == count_terms.counts()[k] as nat,
                self.wf(),
                self@ == with_document(
                    start,
                    document_id,
                    Map::new(
                        |t: Seq<char>| count_terms.terms().take(i as int).contains(t),
                        |t: Seq<char>| count_terms@[t],
                    ),
                ),
        {
            let term = count_terms.term(i);
            let count = count_terms.count_at(i);
            self.add_posting(term, Posting { document_id, term_count: count });
            proof {
                let before = count_terms.terms().take(i as int);
                let after = count_terms.terms().take(i + 1);
                lemma_take_next(count_terms.terms(), i as int);
                assert(count_terms.terms()[i as int] == term@);
                assert(!before.contains(term@)) by {
                    if before.contains(term@) {
                        let k = choose|k: int| 0 <= k < before.len() && before[k] == term@;
                        assert(count_terms.terms()[k] == count_terms.terms()[i as int]);
                    }
                }
                let m_after = Map::new(
                    |t: Seq<char>| after.contains(t),
                    |t: Seq<char>| count_terms@[t],
                );
                assert(self@ =~= with_document(start, document_id, m_after));
            }
        }
        proof {
            assert(count_terms.terms().take(n as int) =~= count_terms.terms());
            let m = Map::new(
                |t: Seq<char>| count_terms.terms().contains(t),
                |t: Seq<char>| count_terms@[t],
            );
            assert(m =~= count_terms@);
            assert(self@ == with_document(start, document_id, count_terms@));
        }
    }

    /// Appends `posting` to the list of `term`, creating the list where there is none.
    fn add_posting(&mut self, term: &String, posting: Posting)
        requires
            old(self).wf(),
        ensures
            final(self).wf(),
            final(self).spec_total_documents() == old(self).spec_total_documents(),
            final(self).spec_results_size() == old(self).spec_results_size(),
            final(self)@ == old(self)@.insert(
                term@,
                (if old(self)@.contains_key(term@) {
                    old(self)@[term@]
                } else {
                    seq![]
                }).push(posting),
            ),
    {
        let ghost old_keys = string_views(self.terms@);
        let ghost old_lists = self.posting_lists@;
        match find_key(&self.terms, term) {
            Some(j) => {
                assert(old_keys[j as int] == term@);
                assert(old(self)@.contains_key(term@));
                self.posting_lists[j].push(posting);
                proof {
                    assert forall|x: Seq<char>| #[trigger] self@.contains_key(x) && x != term@
                        implies self@[x] == old(self)@[x] by {
                        let p = key_position(old_keys, x);
                        assert(old_keys[p] == x);
                    }
                    assert(self@ =~= old(self)@.insert(term@, old(self)@[term@].push(posting)));
                }
            },
            None => {
                self.terms.push(term.clone());
                self.posting_lists.push(vec![posting]);
                proof {
                    assert(string_views(self.terms@) =~= old_keys.push(term@));
                    lemma_push_new_key(old_keys, term@);
                    assert(!old(self)@.contains_key(term@));
                    assert forall|x: Seq<char>| #[trigger] self@.contains_key(x) && x != term@
                        implies old(self)@.contains_key(x) && self@[x] == old(self)@[x] by {
                        let k = choose|k: int|
                            0 <= k < string_views(self.terms@).len() && string_views(
                                self.terms@,
                            )[k] == x;
                        assert(old_keys[k] == x);
                        let p = key_position(old_keys, x);
                        assert(self.posting_lists@[p] == old_lists[p]);
                    }
                    assert forall|x: Seq<char>| old(self)@.contains_key(x) implies #[trigger] self@.contains_key(x) by {
                        assert(old_keys.contains(x));
                    }
                    assert(string_views(self.terms@)[old_keys.len() as int] == term@);
                    assert(key_position(string_views(self.terms@), term@) == old_keys.len());
                    assert(self.posting_lists@[old_keys.len() as int]@ =~= seq![posting]);
                    assert(self@.contains_key(term@));
                    assert(self@[term@] == seq![posting]);
                    assert(self@ =~= old(self)@.insert(term@, seq![posting]));
                }
            },
        }
    }

    /// The number of documents that have been added with at least one term.
    pub fn total_documents(&self) -> (r: usize)
        ensures
            r == self.spec_total_documents(),
    {
        self.total_documents
    }

    /// How many entries of a posting list a search considers at most.
    pub fn results_size(&self) -> (r: usize)
        ensures
            r == self.spec_results_size(),
    {
        self.results_size
    }

    /// The number of terms that have a posting list.
    pub fn num_terms(&self) -> (r: usize)
        requires
            self.wf(),
        ensures
            r == self@.len(),
            r == self.term_order().len(),
            self.term_order().no_duplicates(),
            self.term_order().to_set() == self@.dom(),
    {
        proof {
            string_views(self.terms@).unique_seq_to_set();
            assert(self@.dom() =~= string_views(self.terms@).to_set());
        }
        self.terms.len()
    }

    /// The term at position `i` and its posting list; positions run over all
    /// terms, in the order in which they first occurred.
    pub fn entry(&self, i: usize) -> (r: (&String, &Vec<Posting>))
        requires
            self.wf(),
            i < self@.len(),
        ensures
            r.0@ == self.term_order()[i as int],
            self@.contains_key(r.0@),
            self@[r.0@] == r.1@,
    {
        proof {
            string_views(self.terms@).unique_seq_to_set();
            assert(self@.dom() =~= string_views(self.terms@).to_set());
            lemma_key_position(string_views(self.terms@), i as int);
        }
        (&self.terms[i], &self.posting_lists[i])
    }

    /// The posting list of `term`, if it has one.
    pub fn postings(&self, term: &String) -> (r: Option<&Vec<Posting>>)
        requires
            self.wf(),
        ensures
            match r {
                Some(list) => self@.contains_key(term@) && self@[term@] == list@,
                None => !self@.contains_key(term@),
            },
    {
        match find_key(&self.terms, term) {
            Some(j) => {
                assert(string_views(self.terms@)[j as int] == term@);
                Some(&self.posting_lists[j])
            },
            None => None,
        }
    }
}

impl View for InvertedIndex {
    type V = Map<Seq<char>, Seq<Posting>>;

    closed spec fn view(&self) -> Map<Seq<char>, Seq<Posting>> {
        Map::new(
            |t: Seq<char>| string_views(self.terms@).contains(t),
            |t: Seq<char>| self.posting_lists@[key_position(string_views(self.terms@), t)]@,
        )
    }
}

} // verus!
