use search::database::{Database, DatabaseError};
use search::indexer::index_document;
use search::inverted_index::{InvertedIndex, Posting};
use search::term_counts::count_terms;
use search::tokenizer::Tokenizer;

#[test]
fn count_terms_counts_each_term() {
    let t = Tokenizer::new();
    let counts = count_terms("Rust rust, cargo\nRUST the\r\ncargo fox".to_string(), &t);
    assert_eq!(counts.len(), 3);
    assert_eq!(counts.count_of(&"rust".to_string()), 3);
    assert_eq!(counts.count_of(&"cargo".to_string()), 2);
    assert_eq!(counts.count_of(&"fox".to_string()), 1);
    assert_eq!(counts.count_of(&"the".to_string()), 0);
    assert_eq!(counts.term(0), "rust");
    assert_eq!(counts.count_at(0), 3);
}

#[test]
fn count_terms_of_empty_text() {
    let t = Tokenizer::new();
    let counts = count_terms(String::new(), &t);
    assert_eq!(counts.len(), 0);
}

#[test]
fn database_ids_are_sequential() {
    let mut db = Database::new();
    assert_eq!(db.add("a.html".to_string()), 0);
    assert_eq!(db.add("b.xml".to_string()), 1);
    assert_eq!(db.add("c.xhtml".to_string()), 2);
    assert_eq!(db.get_names(&[2, 0, 2]), vec!["c.xhtml", "a.html", "c.xhtml"]);
    assert_eq!(db.get_names(&[]), Vec::<String>::new());
}

#[test]
fn database_export_is_json() {
    let mut db = Database::new();
    db.add("docs/a \"quoted\".html".to_string());
    db.add("docs/b.xml".to_string());
    let json = db.export();
    assert_eq!(String::from_utf8(json).unwrap(), r#"["docs/a \"quoted\".html","docs/b.xml"]"#);
}

#[test]
fn database_export_import_round_trip() {
    let mut db = Database::new();
    db.add("docs/é.html".to_string());
    db.add("docs/x\ny.xml".to_string());
    let json = db.export();
    let mut other = Database::new();
    assert_eq!(other.import(&json), Ok(()));
    assert_eq!(other.get_names(&[0, 1]), vec!["docs/é.html", "docs/x\ny.xml"]);
}

#[test]
fn database_import_keeps_the_id_counter() {
    let mut db = Database::new();
    assert_eq!(db.import(br#"["a","b"]"#), Ok(()));
    assert_eq!(db.add("c".to_string()), 0);
    assert_eq!(db.get_names(&[0, 2]), vec!["a", "c"]);
}

#[test]
fn database_import_rejects_bad_json() {
    let mut db = Database::new();
    db.add("kept".to_string());
    assert_eq!(db.import(b"{not json"), Err(DatabaseError::InvalidJson));
    assert_eq!(db.import(b"[1, 2]"), Err(DatabaseError::InvalidJson));
    assert_eq!(db.get_names(&[0]), vec!["kept"]);
}

#[test]
fn inverted_index_defaults() {
    let idx = InvertedIndex::new(None);
    assert_eq!(idx.results_size(), 10);
    assert_eq!(idx.total_documents(), 0);
    assert_eq!(idx.num_terms(), 0);
    assert_eq!(InvertedIndex::new(Some(3)).results_size(), 3);
}

#[test]
fn inverted_index_adds_documents() {
    let t = Tokenizer::new();
    let mut idx = InvertedIndex::new(None);
    idx.add_document(4, count_terms("rust cargo rust".to_string(), &t));
    idx.add_document(7, count_terms("cargo fox".to_string(), &t));
    assert_eq!(idx.total_documents(), 2);
    assert_eq!(idx.num_terms(), 3);
    assert_eq!(
        idx.postings(&"cargo".to_string()).unwrap(),
        &vec![Posting { document_id: 4, term_count: 1 }, Posting { document_id: 7, term_count: 1 }]
    );
    assert_eq!(
        idx.postings(&"rust".to_string()).unwrap(),
        &vec![Posting { document_id: 4, term_count: 2 }]
    );
    assert!(idx.postings(&"dog".to_string()).is_none());
    let (term, list) = idx.entry(2);
    assert_eq!(term, "fox");
    assert_eq!(list, &vec![Posting { document_id: 7, term_count: 1 }]);
}

#[test]
fn inverted_index_ignores_empty_documents() {
    let t = Tokenizer::new();
    let mut idx = InvertedIndex::new(None);
    idx.add_document(0, count_terms("the and of".to_string(), &t));
    assert_eq!(idx.total_documents(), 0);
    assert_eq!(idx.num_terms(), 0);
}

#[test]
fn index_document_links_name_and_terms() {
    let t = Tokenizer::new();
    let mut db = Database::new();
    let mut idx = InvertedIndex::new(None);
    let a = index_document(&mut db, &mut idx, &t, "docs/a.html".to_string(), "Fox fox dog".to_string());
    let b = index_document(&mut db, &mut idx, &t, "docs/b.html".to_string(), "the".to_string());
    let c = index_document(&mut db, &mut idx, &t, "docs/c.html".to_string(), "dog".to_string());
    assert_eq!((a, b, c), (0, 1, 2));
    assert_eq!(idx.total_documents(), 2);
    assert_eq!(
        idx.postings(&"dog".to_string()).unwrap(),
        &vec![Posting { document_id: 0, term_count: 1 }, Posting { document_id: 2, term_count: 1 }]
    );
    assert_eq!(
        idx.postings(&"fox".to_string()).unwrap(),
        &vec![Posting { document_id: 0, term_count: 2 }]
    );
    assert_eq!(db.get_names(&[c]), vec!["docs/c.html"]);
}
