use vstd::prelude::*;

verus! {

/// Unicode `White_Space`, the property that `char::is_whitespace` tests.
pub open spec fn is_white_space(c: char) -> bool {
    let u = c as u32;
    ||| 0x09 <= u <= 0x0d
    ||| u == 0x20
    ||| u == 0x85
    ||| u == 0xa0
    ||| u == 0x1680
    ||| 0x2000 <= u <= 0x200a
    ||| u == 0x2028
    ||| u == 0x2029
    ||| u == 0x202f
    ||| u == 0x205f
    ||| u == 0x3000
}

/// The words of `s`: its maximal runs of characters that are not white space,
/// in order (what `str::split_whitespace` yields).
pub open spec fn words(s: Seq<char>) -> Seq<Seq<char>>
    decreases s.len(),
{
    if s.len() == 0 {
        seq![]
    } else {
        let prev = words(s.drop_last());
        let c = s.last();
        if is_white_space(c) {
            prev
        } else if s.len() >= 2 && !is_white_space(s[s.len() - 2]) {
            prev.update(prev.len() - 1, prev.last().push(c))
        } else {
            prev.push(seq![c])
        }
    }
}

/// The views of a sequence of strings.
pub open spec fn string_views(v: Seq<String>) -> Seq<Seq<char>> {
    v.map_values(|s: String| s@)
}

/// ASCII punctuation, as `char::is_ascii_punctuation` decides:
/// ``!"#$%&'()*+,-./:;<=>?@[\]^_`{|}~``.
pub open spec fn is_ascii_punct(c: char) -> bool {
    let u = c as u32;
    ||| 33 <= u <= 47
    ||| 58 <= u <= 64
    ||| 91 <= u <= 96
    ||| 123 <= u <= 126
}

/// A character that is removed from either end of a word: ASCII punctuation
/// or a line break.
pub open spec fn is_trim_mark(c: char) -> bool {
    is_ascii_punct(c) || c == '\n'
}

/// An upper-case ASCII letter.
pub open spec fn is_ascii_upper(c: char) -> bool {
    65 <= c as u32 <= 90
}

/// All characters of `s` are ASCII.
pub open spec fn is_ascii_text(s: Seq<char>) -> bool {
    forall|i: int| 0 <= i < s.len() ==> (#[trigger] s[i] as u32) < 128
}

/// The lower-case form of an ASCII character: `A` to `Z` become `a` to `z`,
/// every other character stays.
pub open spec fn ascii_lower_char(c: char) -> char {
    if is_ascii_upper(c) {
        ((c as u32) + 32) as char
    } else {
        c
    }
}

/// `s` with each character in its ASCII lower-case form.
pub open spec fn ascii_lowercase(s: Seq<char>) -> Seq<char> {
    s.map_values(|c: char| ascii_lower_char(c))
}

/// `s` without the marks at its front.
pub open spec fn trim_leading(s: Seq<char>) -> Seq<char>
    decreases s.len(),
{
    if s.len() > 0 && is_trim_mark(s[0]) {
        trim_leading(s.drop_first())
    } else {
        s
    }
}

/// `s` without the marks at its back.
pub open spec fn trim_trailing(s: Seq<char>) -> Seq<char>
    decreases s.len(),
{
    if s.len() > 0 && is_trim_mark(s.last()) {
        trim_trailing(s.drop_last())
    } else {
        s
    }
}

/// What `str::to_lowercase` returns for a string with the given characters
/// (the Unicode lower-case mapping, character by character, with the
/// special rule for a final capital sigma).
pub uninterp spec fn lowercase(s: Seq<char>) -> Seq<char>;

/// `str::to_lowercase`: Unicode lower-casing is a function of the characters
/// alone, so its result is named by `lowercase`; nothing more is claimed of it.
#[verifier::external_body]
fn to_lowercase(s: &str) -> (r: String)
    ensures
        r@ == lowercase(s@),
{
    s.to_lowercase()
}

/// The lower-case form of a text, as `str::to_lowercase` gives it: Unicode maps
/// `A` to `Z` to `a` to `z` and every other ASCII character to itself, so ASCII
/// text is lowered character by character; other text is lowered by Unicode's
/// mapping.
pub open spec fn lower_cased(s: Seq<char>) -> Seq<char> {
    if is_ascii_text(s) {
        ascii_lowercase(s)
    } else {
        lowercase(s)
    }
}

/// Lower-cases `s`: ASCII text here, other text by `str::to_lowercase`.
pub fn to_lower_case(s: &str) -> (r: String)
    ensures
        r@ == lower_cased(s@),
{
    let chars = chars_of(s);
    let n = chars.len();
    let mut out: Vec<char> = Vec::new();
    for i in 0..n
        invariant
            n == chars@.len(),
            chars@ == s@,
            forall|k: int| 0 <= k < i ==> (#[trigger] chars@[k] as u32) < 128,
            out@ == ascii_lowercase(chars@.take(i as int)),
    {
        let c = chars[i];
        let u = c as u32;
        if u >= 128 {
            return to_lowercase(s);
        }
        let lowered = if 65 <= u && u <= 90 {
            let b = u as u8;
            (b + 32) as char
        } else {
            c
        };
        out.push(lowered);
        assert(out@ =~= ascii_lowercase(chars@.take(i + 1)));
    }
    assert(chars@.take(n as int) =~= chars@);
    string_from_chars(out.as_slice())
}

/// `String: FromIterator<&char>`: the string made of the given characters, in order.
#[verifier::external_body]
pub(crate) fn string_from_chars(chars: &[char]) -> (r: String)
    ensures
        r@ == chars@,
{
    String::from_iter(chars)
}


/// Every character takes at least one byte in UTF-8.
proof fn lemma_utf8_len_at_least_chars(s: Seq<char>)
    ensures
        vstd::utf8::encode_utf8(s).len() >= s.len(),
    decreases s.len(),
{
    if s.len() > 0 {
        lemma_utf8_len_at_least_chars(s.drop_first());
    }
}

/// The number of bytes of the UTF-8 encoding of `c`.
fn utf8_width(c: char) -> (r: usize)
    ensures
        r == vstd::utf8::encode_scalar(c as u32).len(),
        1 <= r <= 4,
{
    broadcast use vstd::utf8::char_is_scalar;
    let u = c as u32;
    if u <= 0x7f {
        1
    } else if u <= 0x7ff {
        2
    } else if u <= 0xffff {
        3
    } else {
        4
    }
}

/// Whether the UTF-8 encoding of `chars` takes at least three bytes, as `str::len() >= 3`
/// decides.
pub fn utf8_len_at_least_3(chars: &[char]) -> (r: bool)
    ensures
        r == (vstd::utf8::encode_utf8(chars@).len() >= 3),
{
    let n = chars.len();
    if n >= 3 {
        proof {
            lemma_utf8_len_at_least_chars(chars@);
        }
        true
    } else if n == 0 {
        proof {
            reveal_with_fuel(vstd::utf8::encode_utf8, 1);
        }
        false
    } else if n == 1 {
        proof {
            reveal_with_fuel(vstd::utf8::encode_utf8, 2);
        }
        assert(chars@.drop_first().len() == 0);
        utf8_width(chars[0]) >= 3
    } else {
        proof {
            reveal_with_fuel(vstd::utf8::encode_utf8, 3);
        }
        assert(chars@.drop_first().drop_first().len() == 0);
        assert(chars@.drop_first()[0] == chars@[1]);
        utf8_width(chars[0]) + utf8_width(chars[1]) >= 3
    }
}

/// The characters of `s`, in order.
pub fn chars_of(s: &str) -> (r: Vec<char>)
    ensures
        r@ == s@,
{
    let mut out: Vec<char> = Vec::new();
    for c in it: s.chars()
        invariant
            out@ == it.seq().take(it.index()),
    {
        out.push(c);
    }
    out
}

/// Whether `c` is white space, as `char::is_whitespace` decides.
pub fn is_whitespace(c: char) -> (r: bool)
    ensures
        r == is_white_space(c),
{
    let u = c as u32;
    (0x09 <= u && u <= 0x0d) || u == 0x20 || u == 0x85 || u == 0xa0 || u == 0x1680 || (0x2000
        <= u && u <= 0x200a) || u == 0x2028 || u == 0x2029 || u == 0x202f || u == 0x205f || u
        == 0x3000
}

/// The words of `s`, as `str::split_whitespace` yields them.
pub fn split_whitespace(s: &str) -> (r: Vec<String>)
    ensures
        string_views(r@) == words(s@),
{
    let chars = chars_of(s);
    let mut out: Vec<String> = Vec::new();
    let mut cur: Vec<char> = Vec::new();
    let mut in_word = false;
    let n = chars.len();
    for i in 0..n
        invariant
            n == chars@.len(),
            chars@ == s@,
            in_word ==> cur@.len() > 0,
            in_word <==> (i > 0 && !is_white_space(chars@[i - 1])),
            string_views(out@) + (if in_word { seq![cur@] } else { seq![] }) == words(
                chars@.take(i as int),
            ),
    {
        let c = chars[i];
        let ghost prefix = chars@.take(i as int);
        assert(chars@.take(i + 1).drop_last() == prefix);
        assert(chars@.take(i + 1).last() == c);
        if is_whitespace(c) {
            if in_word {
                let w = string_from_chars(cur.as_slice());
                out.push(w);
                cur = Vec::new();
                in_word = false;
                assert(string_views(out@) == string_views(out@.drop_last()).push(w@));
            }
        } else {
            let ghost old_views = string_views(out@);
            if in_word {
                cur.push(c);
                assert(chars@.take(i + 1)[i - 1] == chars@[i - 1]);
            } else {
                cur = Vec::new();
                cur.push(c);
                in_word = true;
                if i > 0 {
                    assert(chars@.take(i + 1)[i - 1] == chars@[i - 1]);
                }
            }
            assert(string_views(out@) + seq![cur@] =~= words(chars@.take(i + 1)));
        }
    }
    if in_word {
        let w = string_from_chars(cur.as_slice());
        out.push(w);
        assert(string_views(out@) =~= string_views(out@.drop_last()).push(w@));
    }
    assert(chars@.take(n as int) =~= chars@);
    out
}

} // verus!
