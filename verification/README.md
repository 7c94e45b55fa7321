# search

A small full-text search engine over HTML, XHTML and XML documents, with its
core written in Verus and proved against its contracts.

Indexing: the text of each document is extracted (`parser`), split into terms
(`tokenizer`: white-space separated words, without surrounding punctuation,
at least three bytes long, lower-cased, without stop words), counted
(`term_counts`) and added to an inverted index (`inverted_index`) under the id
that the document name receives in the `database`. `indexer::index_document`
does these steps for one document; `laws` states the properties that hold
across them.

Searching: the query is split into terms by the same tokenizer; the posting
lists of the terms are weighed by tf-idf and merged. The weights are floating
point numbers, so ranking and merging live in `app/` (`ranking.rs`), which also
holds the command line, the directory walk, file I/O and the web server.
