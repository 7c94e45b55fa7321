use vstd::prelude::*;

use crate::text::string_views;

verus! {

/// `serde_json::Error`, the error of a JSON parse.
#[verifier::external_type_specification]
#[verifier::external_body]
pub struct ExJsonError(serde_json::Error);

/// The bytes that `serde_json::to_vec` writes for a list of strings.
pub uninterp spec fn json_of_string_list(list: Seq<Seq<char>>) -> Seq<u8>;

/// The list of strings that `serde_json::from_slice` reads from the given bytes,
/// or `None` where it fails.
pub uninterp spec fn json_string_list(bytes: Seq<u8>) -> Option<Seq<Seq<char>>>;

/// `serde_json::to_vec` on a list of strings. Its bytes are named by
/// `json_of_string_list`. The serializer writes into a `Vec<u8>`, which cannot
/// fail, and a string always serializes, so the call returns `Ok`; and the
/// JSON array of escaped strings that it writes is read back by
/// `serde_json::from_slice` as the same list.
#[verifier::external_body]
fn string_list_to_json(list: &Vec<String>) -> (r: Result<Vec<u8>, serde_json::Error>)
    ensures
        r is Ok,
        r matches Ok(bytes) ==> bytes@ == json_of_string_list(string_views(list@)),
        r matches Ok(bytes) ==> json_string_list(bytes@) == Some(string_views(list@)),
{
    serde_json::to_vec(list)
}

/// `serde_json::from_slice` into a list of strings. Whether it succeeds and what
/// it reads are named by `json_string_list`; nothing more is claimed.
#[verifier::external_body]
fn json_to_string_list(bytes: &[u8]) -> (r: Result<Vec<String>, serde_json::Error>)
    ensures
        match r {
            Ok(list) => json_string_list(bytes@) == Some(string_views(list@)),
            Err(_) => json_string_list(bytes@) is None,
        },
{
    serde_json::from_slice(bytes)
}

/// Why a list of document names could not be read.
#[derive(Debug, Clone, Copy, PartialEq, Eq, Structural)]
pub enum DatabaseError {
    /// The bytes are not a JSON array of strings.
    InvalidJson,
}

/// The names of the indexed documents; a document's id is its position.
pub struct Database {
    documents: Vec<String>,
    current_id: usize,
}

impl Database {
    /// The document names, in the order of their ids.
    pub closed spec fn names(&self) -> Seq<Seq<char>> {
        string_views(self.documents@)
    }

    /// The id that the next added document receives.
    pub closed spec fn next_id(&self) -> usize {
        self.current_id
    }

    /// An empty database.
    pub fn new() -> (r: Self)
        ensures
            r.names() == Seq::<Seq<char>>::empty(),
            r.next_id() == 0,
    {
        Database { documents: Vec::new(), current_id: 0 }
    }

    /// Adds a document name and returns the id it receives.
    pub fn add(&mut self, document: String) -> (id: usize)
        requires
            old(self).next_id() < usize::MAX,
        ensures
            id == old(self).next_id(),
            final(self).next_id() == old(self).next_id() + 1,
            final(self).names() == old(self).names().push(document@),
            old(self).names().len() == old(self).next_id() ==> {
                &&& id == old(self).names().len()
                &&& final(self).names().len() == final(self).next_id()
            },
    {
        let ghost doc = document@;
        self.documents.push(document);
        self.current_id += 1;
        assert(string_views(self.documents@) =~= string_views(old(self).documents@).push(doc));
        self.current_id - 1
    }

    /// The id that the next added document receives.
    pub fn current_id(&self) -> (r: usize)
        ensures
            r == self.next_id(),
    {
        self.current_id
    }

    /// The number of document names.
    pub fn len(&self) -> (r: usize)
        ensures
            r == self.names().len(),
    {
        self.documents.len()
    }

    /// The names of the documents with the given ids, in the order of the ids.
    pub fn get_names(&self, document_ids: &[usize]) -> (r: Vec<String>)
        requires
            forall|i: int| 0 <= i < document_ids@.len() ==> document_ids@[i] < self.names().len(),
        ensures
            r@.len() == document_ids@.len(),
            forall|i: int| #![trigger r@[i]]
                0 <= i < document_ids@.len() ==> r@[i]@ == self.names()[document_ids@[i] as int],
    {
        let mut out: Vec<String> = Vec::new();
        let n = document_ids.len();
        for k in 0..n
            invariant
                n == document_ids@.len(),
                forall|i: int| 0 <= i < n ==> document_ids@[i] < self.documents@.len(),
                out@.len() == k,
                forall|i: int| #![trigger out@[i]]
                    0 <= i < k ==> out@[i]@ == self.documents@[document_ids@[i] as int]@,
        {
            let id = document_ids[k];
            out.push(self.documents[id].clone());
        }
        out
    }

    /// The document names as the JSON array that is stored on disk.
    pub fn export(&self) -> (r: Vec<u8>)
        ensures
            r@ == json_of_string_list(self.names()),
            json_string_list(r@) == Some(self.names()),
    {
        match string_list_to_json(&self.documents) {
            Ok(bytes) => bytes,
            Err(_) => Vec::new(),
        }
    }

    /// Replaces the document names by those of a stored JSON array. The id
    /// counter is left as it was.
    pub fn import(&mut self, json: &[u8]) -> (r: Result<(), DatabaseError>)
        ensures
            final(self).next_id() == old(self).next_id(),
            match json_string_list(json@) {
                Some(list) => r is Ok && final(self).names() == list,
                None => {
                    &&& r == Err::<(), DatabaseError>(DatabaseError::InvalidJson)
                    &&& final(self).names() == old(self).names()
                },
            },
    {
        match json_to_string_list(json) {
            Ok(list) => {
                self.documents = list;
                Ok(())
            },
            Err(_) => Err(DatabaseError::InvalidJson),
        }
    }
}

} // verus!
