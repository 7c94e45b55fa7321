use vstd::prelude::*;

use crate::parser::{
    event_contribution, event_text, extract_from, followed_by, is_allowed_type_spec,
    lemma_followed_by_assoc, xml_event, xml_position, Extracted, XmlEventView, XmlTextError,
};

verus! {

/// The text of the text events before the `n`-th event of the parser over
/// `input` (with text trimmed), each followed by a line break, in order.
pub open spec fn texts_before(input: Seq<u8>, n: nat) -> Seq<char>
    decreases n,
{
    if n == 0 {
        Seq::<char>::empty()
    } else {
        texts_before(input, (n - 1) as nat) + match xml_event(input, true, (n - 1) as nat) {
            XmlEventView::Text(raw) => match event_text(raw) {
                Some(t) => t.push('\n'),
                None => Seq::<char>::empty(),
            },
            _ => Seq::<char>::empty(),
        }
    }
}

/// The parse errors among the events before the `n`-th, each with the
/// reader's position after it, in order.
pub open spec fn errors_before(input: Seq<u8>, n: nat) -> Seq<(usize, Seq<char>)>
    decreases n,
{
    if n == 0 {
        Seq::<(usize, Seq<char>)>::empty()
    } else {
        errors_before(input, (n - 1) as nat) + match xml_event(input, true, (n - 1) as nat) {
            XmlEventView::Failed(m) => seq![(xml_position(input, true, n), m)],
            _ => Seq::<(usize, Seq<char>)>::empty(),
        }
    }
}

/// The events before the `n`-th are not the end, and the text of each text
/// event among them can be read.
pub open spec fn readable_events_before(input: Seq<u8>, n: nat) -> bool {
    forall|k: nat|
        k < n ==> {
            let e = #[trigger] xml_event(input, true, k);
            &&& !(e is End)
            &&& (e matches XmlEventView::Text(raw) ==> event_text(raw) is Some)
        }
}

proof fn lemma_extraction_reaches(input: Seq<u8>, n: nat, k: nat, r: nat)
    requires
        k <= n,
        n - k <= r,
        readable_events_before(input, n),
        xml_event(input, true, n) is End,
    ensures
        followed_by(
            (texts_before(input, k), errors_before(input, k)),
            extract_from(input, k, r),
        ) == Ok::<Extracted, XmlTextError>((texts_before(input, n), errors_before(input, n))),
    decreases n - k,
{
    let acc = (texts_before(input, k), errors_before(input, k));
    if k == n {
        assert(acc.0 + Seq::<char>::empty() =~= acc.0);
        assert(acc.1 + Seq::<(usize, Seq<char>)>::empty() =~= acc.1);
    } else {
        let e = xml_event(input, true, k);
        assert(!(e is End));
        let p = event_contribution(e, xml_position(input, true, k + 1));
        assert(p is Ok);
        let q = p->Ok_0;
        assert(texts_before(input, k + 1) == acc.0 + q.0);
        assert(errors_before(input, k + 1) == acc.1 + q.1);
        assert(r > 0);
        lemma_followed_by_assoc(acc, q, extract_from(input, k + 1, (r - 1) as nat));
        lemma_extraction_reaches(input, n, k + 1, (r - 1) as nat);
    }
}

/// Extraction reads until the end of the input, with no cap on the number of
/// events: when the parser's events before the `n`-th (`n` at most the length
/// of the input) are not the end and their texts can be read, and the `n`-th
/// is the end, what `parse_xml_text` extracts is the text of every text event
/// before the end, each followed by a line break, in order, and every parse
/// error on the way, with the reader's position after it.
pub proof fn law_extraction_reads_to_the_end(input: Seq<u8>, n: nat)
    requires
        n <= input.len(),
        readable_events_before(input, n),
        xml_event(input, true, n) is End,
    ensures
        extract_from(input, 0, input.len()) == Ok::<Extracted, XmlTextError>(
            (texts_before(input, n), errors_before(input, n)),
        ),
{
    lemma_extraction_reaches(input, n, 0, input.len());
    match extract_from(input, 0, input.len()) {
        Ok(x) => {
            assert(Seq::<char>::empty() + x.0 =~= x.0);
            assert(Seq::<(usize, Seq<char>)>::empty() + x.1 =~= x.1);
        },
        Err(_) => {},
    }
}

/// Exactly three file types are indexed: a file is indexed when its extension
/// is `html`, `xhtml` or `xml`, and no other.
pub proof fn law_allowed_types(extension: Seq<char>)
    ensures
        is_allowed_type_spec(extension) <==> (extension == seq!['h', 't', 'm', 'l'] || extension
            == seq!['x', 'h', 't', 'm', 'l'] || extension == seq!['x', 'm', 'l']),
{
    reveal_strlit("html");
    reveal_strlit("xhtml");
    reveal_strlit("xml");
    assert("html"@ =~= seq!['h', 't', 'm', 'l']);
    assert("xhtml"@ =~= seq!['x', 'h', 't', 'm', 'l']);
    assert("xml"@ =~= seq!['x', 'm', 'l']);
}

} // verus!
