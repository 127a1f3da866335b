//! The text form of binary identifiers.
//!
//! Identifiers are written in a base-32 encoding without padding whose 32
//! symbols are the lower-case letters and the digits `0` to `5`. Decoding
//! takes upper-case letters for their lower-case forms.

use vstd::prelude::*;

verus! {

/// The text that the base-32 encoding of the `data_encoding` crate, made from
/// the given symbols and translation, gives for `data`.
pub uninterp spec fn base32_text(
    symbols: Seq<char>,
    translate_from: Seq<char>,
    translate_to: Seq<char>,
    data: Seq<u8>,
) -> Seq<char>;

/// The data that the same encoding reads from `text`, if it accepts it.
pub uninterp spec fn base32_data(
    symbols: Seq<char>,
    translate_from: Seq<char>,
    translate_to: Seq<char>,
    text: Seq<u8>,
) -> Option<Seq<u8>>;

/// Whether all characters are ASCII and no character occurs twice.
pub open spec fn distinct_ascii(s: Seq<char>) -> bool {
    &&& forall|i: int| 0 <= i < s.len() ==> (#[trigger] s[i] as u32) < 128
    &&& forall|i: int, j: int| 0 <= i < j < s.len() ==> s[i] != s[j]
}

/// Whether 32 symbols and a translation make up a base-32 encoding: the
/// symbols are distinct ASCII characters, and the translation maps distinct
/// ASCII characters that are no symbols to symbols.
pub open spec fn valid_alphabet(
    symbols: Seq<char>,
    translate_from: Seq<char>,
    translate_to: Seq<char>,
) -> bool {
    &&& symbols.len() == 32
    &&& distinct_ascii(symbols)
    &&& distinct_ascii(translate_from)
    &&& translate_from.len() == translate_to.len()
    &&& forall|i: int| 0 <= i < translate_from.len() ==> !symbols.contains(#[trigger] translate_from[i])
    &&& forall|i: int| 0 <= i < translate_to.len() ==> symbols.contains(#[trigger] translate_to[i])
}

/// The bytes of a text of ASCII characters.
pub open spec fn ascii_bytes(text: Seq<char>) -> Seq<u8> {
    text.map_values(|c: char| c as u8)
}

/// Encodes `data` with `Encoding::encode` of the `data_encoding` crate, for
/// the encoding that `Specification::encoding` makes from the symbols and the
/// translation. The crate documents that the text has one symbol for every
/// five bits of the data, rounded up, that it consists of symbols, and that
/// decoding it gives the data back.
#[verifier::external_body]
pub(crate) fn encode_base32(symbols: &str, translate_from: &str, translate_to: &str, data: &[u8]) -> (text:
    String)
    requires
        valid_alphabet(symbols@, translate_from@, translate_to@),
        data.len() <= 0x7F_FFFF,
    ensures
        text@ == base32_text(symbols@, translate_from@, translate_to@, data@),
        text@.len() == (8 * data.len() + 4) / 5,
        forall|i: int| 0 <= i < text@.len() ==> symbols@.contains(#[trigger] text@[i]),
        base32_data(symbols@, translate_from@, translate_to@, ascii_bytes(text@)) == Some(data@),
{
    let mut specification = data_encoding::Specification::new();
    specification.symbols.push_str(symbols);
    specification.translate.from.push_str(translate_from);
    specification.translate.to.push_str(translate_to);
    specification.encoding().unwrap().encode(data)
}

/// Decodes `text` with `Encoding::decode` of the `data_encoding` crate, for
/// the same encoding. A text that the crate refuses gives `None`.
#[verifier::external_body]
pub(crate) fn decode_base32(symbols: &str, translate_from: &str, translate_to: &str, text: &[u8]) -> (data:
    Option<Vec<u8>>)
    requires
        valid_alphabet(symbols@, translate_from@, translate_to@),
        text.len() <= 0x1FFF_FFFF,
    ensures
        match data {
            Some(bytes) => base32_data(symbols@, translate_from@, translate_to@, text@) == Some(
                bytes@,
            ),
            None => base32_data(symbols@, translate_from@, translate_to@, text@) is None,
        },
{
    let mut specification = data_encoding::Specification::new();
    specification.symbols.push_str(symbols);
    specification.translate.from.push_str(translate_from);
    specification.translate.to.push_str(translate_to);
    specification.encoding().unwrap().decode(text).ok()
}

/// The 32 symbols of the encoding.
pub open spec fn symbols() -> Seq<char> {
    "abcdefghijklmnopqrstuvwxyz012345"@
}

/// The characters that decoding takes for others.
pub open spec fn translate_from() -> Seq<char> {
    "ABCDEFGHIJKLMNOPQRSTUVWXYZ"@
}

/// What those characters are taken for.
pub open spec fn translate_to() -> Seq<char> {
    "abcdefghijklmnopqrstuvwxyz"@
}

/// The symbols and the translation make up a base-32 encoding, and no symbol
/// is a `/`.
pub proof fn lemma_alphabet()
    ensures
        valid_alphabet(symbols(), translate_from(), translate_to()),
        !symbols().contains('/'),
{
    reveal_strlit("abcdefghijklmnopqrstuvwxyz012345");
    reveal_strlit("ABCDEFGHIJKLMNOPQRSTUVWXYZ");
    reveal_strlit("abcdefghijklmnopqrstuvwxyz");
    let s = symbols();
    let f = translate_from();
    let t = translate_to();
    assert forall|i: int| 0 <= i < s.len() implies (#[trigger] s[i] as u32) == (if i < 26 {
        0x61 + i
    } else {
        0x30 + i - 26
    }) by {}
    assert forall|i: int| 0 <= i < f.len() implies (#[trigger] f[i] as u32) == 0x41 + i by {}
    assert forall|i: int| 0 <= i < t.len() implies #[trigger] t[i] == s[i] by {}
    assert forall|i: int, j: int| 0 <= i < j < s.len() implies s[i] != s[j] by {
        assert(s[i] as u32 != s[j] as u32);
    }
    assert forall|i: int, j: int| 0 <= i < j < f.len() implies f[i] != f[j] by {
        assert(f[i] as u32 != f[j] as u32);
    }
    assert forall|i: int| 0 <= i < f.len() implies !s.contains(#[trigger] f[i]) by {
        if s.contains(f[i]) {
            let j = choose|j: int| 0 <= j < s.len() && s[j] == f[i];
            assert(s[j] as u32 == f[i] as u32);
        }
    }
    assert(!s.contains('/')) by {
        if s.contains('/') {
            let j = choose|j: int| 0 <= j < s.len() && s[j] == '/';
            assert(s[j] as u32 == 0x2F);
        }
    }
}

/// The text form of `data`.
pub open spec fn encoded(data: Seq<u8>) -> Seq<char> {
    base32_text(symbols(), translate_from(), translate_to(), data)
}

/// The data that `text` stands for, if it is the text form of any.
pub open spec fn decoded(text: Seq<u8>) -> Option<Seq<u8>> {
    base32_data(symbols(), translate_from(), translate_to(), text)
}

/// Encodes `data` as text.
pub fn encode(data: &[u8]) -> (text: String)
    requires
        data.len() <= 0x7F_FFFF,
    ensures
        text@ == encoded(data@),
        text@.len() == (8 * data.len() + 4) / 5,
        forall|i: int| 0 <= i < text@.len() ==> symbols().contains(#[trigger] text@[i]),
        decoded(ascii_bytes(text@)) == Some(data@),
{
    proof {
        lemma_alphabet();
    }
    encode_base32(
        "abcdefghijklmnopqrstuvwxyz012345",
        "ABCDEFGHIJKLMNOPQRSTUVWXYZ",
        "abcdefghijklmnopqrstuvwxyz",
        data,
    )
}

/// Decodes a text; `None` if it is not the text form of any data.
pub fn decode(text: &[u8]) -> (data: Option<Vec<u8>>)
    requires
        text.len() <= 0x1FFF_FFFF,
    ensures
        match data {
            Some(bytes) => decoded(text@) == Some(bytes@),
            None => decoded(text@) is None,
        },
{
    proof {
        lemma_alphabet();
    }
    decode_base32(
        "abcdefghijklmnopqrstuvwxyz012345",
        "ABCDEFGHIJKLMNOPQRSTUVWXYZ",
        "abcdefghijklmnopqrstuvwxyz",
        text,
    )
}

} // verus!
