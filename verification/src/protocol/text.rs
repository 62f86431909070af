use vstd::prelude::*;
use vstd::string::StringExecFns;
use vstd::utf8::{
    decode_utf8, encode_utf8, encode_utf8_decode_utf8, encode_utf8_valid_utf8, is_ascii_chars,
    is_ascii_chars_encode_utf8, valid_utf8,
};

verus! {

/// The text that the standard library's lossy UTF-8 decoder makes of `bytes`: every malformed
/// stretch is replaced by U+FFFD.
pub uninterp spec fn lossy_decode(bytes: Seq<u8>) -> Seq<char>;

/// The Unicode lowercase form of `text`, as the standard library computes it.
pub uninterp spec fn lowercase_of(text: Seq<char>) -> Seq<char>;

/// `c` with the letters `A` to `Z` replaced by `a` to `z`.
pub open spec fn ascii_lower_char(c: char) -> char {
    if 0x41 <= c as u32 <= 0x5A {
        ((c as u32) + 32) as char
    } else {
        c
    }
}

/// `text` with every letter `A` to `Z` replaced by its lowercase letter.
pub open spec fn ascii_lower(text: Seq<char>) -> Seq<char> {
    text.map_values(|c: char| ascii_lower_char(c))
}

/// Every byte is an ASCII character.
pub open spec fn is_ascii_bytes(bytes: Seq<u8>) -> bool {
    forall|i: int| 0 <= i < bytes.len() ==> #[trigger] bytes[i] < 0x80
}

/// ASCII bytes as characters.
pub open spec fn ascii_text(bytes: Seq<u8>) -> Seq<char> {
    bytes.map_values(|b: u8| b as char)
}

/// The text of a label with the bytes `bytes`: the bytes decoded leniently, in lowercase. For
/// ASCII bytes these are the same characters with `A` to `Z` replaced by `a` to `z`.
pub open spec fn label_text(bytes: Seq<u8>) -> Seq<char> {
    if is_ascii_bytes(bytes) {
        ascii_lower(ascii_text(bytes))
    } else {
        lowercase_of(lossy_decode(bytes))
    }
}

/// ASCII bytes are well-formed UTF-8 for the same characters.
pub proof fn lemma_ascii_bytes(bytes: Seq<u8>)
    requires
        is_ascii_bytes(bytes),
    ensures
        is_ascii_chars(ascii_text(bytes)),
        encode_utf8(ascii_text(bytes)) == bytes,
        valid_utf8(bytes),
        decode_utf8(bytes) == ascii_text(bytes),
{
    let text = ascii_text(bytes);
    assert forall|i: int| 0 <= i < text.len() implies '\0' <= #[trigger] text[i] <= '\u{7f}' by {
        assert(bytes[i] < 0x80);
    }
    is_ascii_chars_encode_utf8(text);
    assert forall|i: int| 0 <= i < bytes.len() implies encode_utf8(text)[i] == bytes[i] by {
        assert(text[i] as u8 == encode_utf8(text)[i]);
        assert(bytes[i] < 0x80);
    }
    assert(encode_utf8(text) =~= bytes);
    encode_utf8_valid_utf8(text);
    encode_utf8_decode_utf8(text);
}

/// `tail` is what `text` ends with.
pub open spec fn is_suffix(tail: Seq<char>, text: Seq<char>) -> bool {
    tail.len() <= text.len() && text.subrange(text.len() - tail.len(), text.len() as int) == tail
}

/// Calls `String::from_utf8_lossy`. Trusted: the result is the lossy decoding of `bytes`, which
/// for well-formed UTF-8 is the text that the bytes encode.
#[verifier::external_body]
pub(crate) fn from_utf8_lossy(bytes: &[u8]) -> (text: String)
    ensures
        text@ == lossy_decode(bytes@),
        valid_utf8(bytes@) ==> text@ == decode_utf8(bytes@),
{
    String::from_utf8_lossy(bytes).into_owned()
}

/// Calls `str::to_lowercase`. Trusted: the result is the Unicode lowercase form of `text`, which
/// for ASCII text changes the letters `A` to `Z` and nothing else.
#[verifier::external_body]
pub(crate) fn to_lowercase(text: &str) -> (lower: String)
    ensures
        lower@ == lowercase_of(text@),
        is_ascii_chars(text@) ==> lower@ == ascii_lower(text@),
{
    text.to_lowercase()
}

/// Calls `str::ends_with`. Trusted: the result says whether `text` ends with `tail`.
#[verifier::external_body]
pub(crate) fn ends_with(text: &str, tail: &str) -> (r: bool)
    ensures
        r == is_suffix(tail@, text@),
{
    text.ends_with(tail)
}

/// Whether `a` and `b` are the same text.
pub fn same_text(a: &str, b: &str) -> (r: bool)
    ensures
        r == (a@ == b@),
{
    let x = a.as_bytes();
    let y = b.as_bytes();
    if x.len() != y.len() {
        return false;
    }
    let mut i: usize = 0;
    while i < x.len()
        invariant
            i <= x@.len(),
            x@.len() == y@.len(),
            x@ == encode_utf8(a@),
            y@ == encode_utf8(b@),
            forall|j: int| 0 <= j < i ==> x@[j] == y@[j],
        decreases x@.len() - i,
    {
        if x[i] != y[i] {
            return false;
        }
        i += 1;
    }
    proof {
        assert(x@ =~= y@);
        encode_utf8_decode_utf8(a@);
        encode_utf8_decode_utf8(b@);
    }
    true
}

/// Appends `label` to the dotted name `name`, behind a dot unless it is the first label.
pub fn push_label(name: &mut String, label: &str, first: bool)
    ensures
        final(name)@ == old(name)@ + (if first {
            Seq::<char>::empty()
        } else {
            seq!['.']
        }) + label@,
{
    if !first {
        name.append(".");
        proof {
            reveal_strlit(".");
            assert("."@ =~= seq!['.']);
        }
    }
    name.append(label);
}

/// The text of a label with the bytes `bytes`.
pub fn label_string(bytes: &[u8]) -> (label: String)
    ensures
        label@ == label_text(bytes@),
{
    let text = from_utf8_lossy(bytes);
    let label = to_lowercase(text.as_str());
    proof {
        if is_ascii_bytes(bytes@) {
            lemma_ascii_bytes(bytes@);
        }
    }
    label
}

} // verus!
