use search::tokenizer::Tokenizer;

fn strings(v: &[&str]) -> Vec<String> {
    v.iter().map(|s| s.to_string()).collect()
}

#[test]
fn query_word_is_trimmed_and_lowercased() {
    let t = Tokenizer::new();
    assert_eq!(t.tokenizer_query("Rust,"), Some("rust".to_string()));
    assert_eq!(t.tokenizer_query("(Cargo)."), Some("cargo".to_string()));
    assert_eq!(t.tokenizer_query("[:Brown;"), Some("brown".to_string()));
    assert_eq!(t.tokenizer_query("FOX"), Some("fox".to_string()));
}

#[test]
fn query_stop_words_are_dropped() {
    let t = Tokenizer::new();
    assert_eq!(t.tokenizer_query("The"), None);
    assert_eq!(t.tokenizer_query("and"), None);
    assert_eq!(t.tokenizer_query("Hello!"), None);
    assert_eq!(t.tokenizer_query("hello."), None);
}

#[test]
fn query_short_words_are_dropped_by_bytes() {
    let t = Tokenizer::new();
    assert_eq!(t.tokenizer_query("ab"), None);
    assert_eq!(t.tokenizer_query("..ab.."), None);
    assert_eq!(t.tokenizer_query("aé"), Some("aé".to_string()));
    assert_eq!(t.tokenizer_query("Été"), Some("été".to_string()));
    assert_eq!(t.tokenizer_query(""), None);
    assert_eq!(t.tokenizer_query(",,,"), None);
}

#[test]
fn query_punctuation_only_at_the_ends() {
    let t = Tokenizer::new();
    assert_eq!(t.tokenizer_query("a.b.c"), Some("a.b.c".to_string()));
    assert_eq!(t.tokenizer_query("]fox["), Some("fox".to_string()));
    assert_eq!(t.tokenizer_query("Zebra!"), Some("zebra".to_string()));
    assert_eq!(t.tokenizer_query("\"Quoted\"?!"), Some("quoted".to_string()));
    assert_eq!(t.tokenizer_query("<<dog>>"), Some("dog".to_string()));
    assert_eq!(t.tokenizer_query("!!!"), None);
}

#[test]
fn document_line_terms() {
    let t = Tokenizer::new();
    assert_eq!(
        t.tokenizer_document("  The quick, brown fox jumps over the lazy dog.  "),
        strings(&["quick", "brown", "fox", "jumps", "lazy", "dog"])
    );
    assert_eq!(
        t.tokenizer_document("Zebra! \"Cargo\" -- {rust}?"),
        strings(&["zebra", "cargo", "rust"])
    );
    assert_eq!(t.tokenizer_document(""), Vec::<String>::new());
    assert_eq!(t.tokenizer_document("of to in"), Vec::<String>::new());
}

#[test]
fn document_agrees_with_query_word_by_word() {
    let t = Tokenizer::new();
    let line = "Searching (Inverted) indexes: Rust, CARGO; and the fox.";
    let by_query: Vec<String> =
        line.split_whitespace().filter_map(|w| t.tokenizer_query(w)).collect();
    assert_eq!(t.tokenizer_document(line), by_query);
    for w in ["Rust,", "the", "ab", "Fox."] {
        let doc = t.tokenizer_document(w);
        match t.tokenizer_query(w) {
            Some(q) => assert_eq!(doc, vec![q]),
            None => assert!(doc.is_empty()),
        }
    }
}
