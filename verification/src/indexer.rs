use vstd::prelude::*;

use crate::database::Database;
use crate::inverted_index::{with_document, InvertedIndex};
use crate::term_counts::{count_terms, term_counts};
use crate::tokenizer::{document_terms, Tokenizer};

verus! {

/// The directory whose documents `index build` indexes.
pub const DIR_PATH: &'static str = "docs/";

/// The file that `index load` reads the inverted index from.
pub const FILE_PATH: &'static str = "inverted_index.json";

/// The file the inverted index is written to.
pub const INVERTED_INDEX_FILE: &'static str = "inverted_index.json";

/// The file the document names are written to and read from.
pub const DATABASE_FILE: &'static str = "database.json";

/// The message for a missing or unknown mode.
pub const MISSING_MODE: &'static str = "Missing arguments (build or load)";

/// How an index comes to be: built from the documents of a directory, or
/// loaded from a file.
pub enum Config<'a> {
    Build(&'a str),
    Load(&'a str),
}

/// The configuration named by the mode argument: `build` indexes `DIR_PATH`,
/// `load` reads `FILE_PATH`; anything else, or no argument, is refused.
pub fn parse_config(arg: Option<String>) -> (r: Result<Config<'static>, &'static str>)
    ensures
        match arg {
            Some(a) => if a@ == "build"@ {
                r == Ok::<Config<'static>, &'static str>(Config::Build(DIR_PATH))
            } else if a@ == "load"@ {
                r == Ok::<Config<'static>, &'static str>(Config::Load(FILE_PATH))
            } else {
                r == Err::<Config<'static>, &'static str>(MISSING_MODE)
            },
            None => r == Err::<Config<'static>, &'static str>(MISSING_MODE),
        },
{
    match arg {
        Some(a) => {
            if a == "build".to_owned() {
                Ok(Config::Build(DIR_PATH))
            } else if a == "load".to_owned() {
                Ok(Config::Load(FILE_PATH))
            } else {
                Err(MISSING_MODE)
            }
        },
        None => Err(MISSING_MODE),
    }
}

/// Indexes one document: its name gets the next id of the database, and its
/// term counts go into the inverted index under that id. Returns the id.
pub fn index_document(
    database: &mut Database,
    inverted_index: &mut InvertedIndex,
    tokenizer: &Tokenizer,
    file_name: String,
    text: String,
) -> (id: usize)
    requires
        old(database).next_id() < usize::MAX,
        old(inverted_index).wf(),
        term_counts(document_terms(tokenizer@, text@)).len() > 0 ==> old(
            inverted_index,
        ).spec_total_documents() < usize::MAX,
    ensures
        id == old(database).next_id(),
        final(database).next_id() == old(database).next_id() + 1,
        final(database).names() == old(database).names().push(file_name@),
        final(inverted_index).wf(),
        final(inverted_index).spec_results_size() == old(inverted_index).spec_results_size(),
        ({
            let counts = term_counts(document_terms(tokenizer@, text@));
            if counts.len() > 0 {
                &&& final(inverted_index)@ == with_document(old(inverted_index)@, id, counts)
                &&& final(inverted_index).spec_total_documents() == old(
                    inverted_index,
                ).spec_total_documents() + 1
            } else {
                &&& final(inverted_index)@ == old(inverted_index)@
                &&& final(inverted_index).spec_total_documents() == old(
                    inverted_index,
                ).spec_total_documents()
            }
        }),
{
    let document_id = database.add(file_name);
    let counts = count_terms(text, tokenizer);
    inverted_index.add_document(document_id, counts);
    document_id
}

} // verus!
