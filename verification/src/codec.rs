//! Encodings of bytes: UTF-8, base64 and data URLs.

use base64::engine::general_purpose::STANDARD;
use base64::Engine;
use vstd::prelude::*;
use vstd::utf8::*;

verus! {

/// The base64 text of bytes, in the standard alphabet with padding.
pub uninterp spec fn base64_text(bytes: Seq<u8>) -> Seq<char>;

/// What base64 decoding returns for the bytes of a text: the bytes that it
/// encodes, or the error's text.
pub uninterp spec fn base64_bytes(encoded: Seq<u8>) -> Result<Seq<u8>, Seq<char>>;

/// The message of the error for bytes that are not UTF-8.
pub uninterp spec fn utf8_error_text(bytes: Seq<u8>) -> Seq<char>;

/// The text that bytes encode in UTF-8, or the message of the error.
pub open spec fn utf8_text(bytes: Seq<u8>) -> Result<Seq<char>, Seq<char>> {
    if valid_utf8(bytes) {
        Ok(decode_utf8(bytes))
    } else {
        Err(utf8_error_text(bytes))
    }
}

/// A decoding that succeeded.
pub open spec fn decoded(bytes: Seq<u8>) -> Result<Seq<u8>, Seq<char>> {
    Ok(bytes)
}

/// A result of bytes or an error's text, seen as sequences.
pub open spec fn bytes_result(r: Result<Vec<u8>, String>) -> Result<Seq<u8>, Seq<char>> {
    match r {
        Ok(bytes) => Ok(bytes@),
        Err(e) => Err(e@),
    }
}

/// `base64::Engine::encode` with the standard engine. The text is named, not
/// spelled out; decoding it gives the bytes back.
#[verifier::external_body]
pub(crate) fn base64_encode(bytes: &[u8]) -> (r: String)
    ensures
        r@ == base64_text(bytes@),
        base64_bytes(encode_utf8(r@)) == decoded(bytes@),
{
    STANDARD.encode(bytes)
}

/// `base64::Engine::decode` with the standard engine. What it returns is named,
/// not spelled out.
#[verifier::external_body]
pub(crate) fn base64_decode(encoded: &[u8]) -> (r: Result<Vec<u8>, String>)
    ensures
        bytes_result(r) == base64_bytes(encoded@),
{
    match STANDARD.decode(encoded) {
        Ok(bytes) => Ok(bytes),
        Err(e) => Err(e.to_string()),
    }
}

/// `String::from_utf8`: the text that the bytes encode, or an error where they
/// are not UTF-8. The error's message is named, not spelled out.
#[verifier::external_body]
pub(crate) fn utf8_decode(bytes: Vec<u8>) -> (r: Result<String, String>)
    ensures
        match r {
            Ok(s) => valid_utf8(bytes@) && s@ == decode_utf8(bytes@),
            Err(e) => !valid_utf8(bytes@) && e@ == utf8_error_text(bytes@),
        },
{
    match String::from_utf8(bytes) {
        Ok(text) => Ok(text),
        Err(e) => Err(e.to_string()),
    }
}

/// The bytes that a data URL starts with: `data:`.
pub open spec fn data_scheme() -> Seq<u8> {
    seq![0x64u8, 0x61u8, 0x74u8, 0x61u8, 0x3au8]
}

/// The bytes before the payload of a base64 data URL: `;base64,`.
pub open spec fn base64_marker() -> Seq<u8> {
    seq![0x3bu8, 0x62u8, 0x61u8, 0x73u8, 0x65u8, 0x36u8, 0x34u8, 0x2cu8]
}

/// Whether some bytes stand at a place of others.
pub open spec fn occurs_at(bytes: Seq<u8>, part: Seq<u8>, i: int) -> bool {
    0 <= i && i + part.len() <= bytes.len() && bytes.subrange(i, i + part.len()) == part
}

/// Whether some bytes stand at a place of others, and nowhere before it.
pub open spec fn first_occurs_at(bytes: Seq<u8>, part: Seq<u8>, i: int) -> bool {
    occurs_at(bytes, part, i) && forall|j: int| 0 <= j < i ==> !#[trigger] occurs_at(bytes, part, j)
}

/// The encoded payload of a base64 data URL: what follows the first marker.
pub open spec fn payload_of(url: Seq<u8>) -> Option<Seq<u8>> {
    if !occurs_at(url, data_scheme(), 0) {
        None
    } else {
        let rest = url.skip(5);
        if exists|i: int| #[trigger] first_occurs_at(rest, base64_marker(), i) {
            let i = choose|i: int| #[trigger] first_occurs_at(rest, base64_marker(), i);
            Some(rest.skip(i + 8))
        } else {
            None
        }
    }
}

/// What decoding a data URL yields: the bytes, or the message of the error.
pub open spec fn url_bytes(url: Seq<char>) -> Result<Seq<u8>, Seq<char>> {
    match payload_of(encode_utf8(url)) {
        Some(payload) => match base64_bytes(payload) {
            Ok(bytes) => Ok(bytes),
            Err(e) => Err("Base64 decode error: "@ + e),
        },
        None => Err(
            "Unsupported value data URL; only inline base64 `data:` URLs are supported"@,
        ),
    }
}

/// A base64 data URL.
pub open spec fn data_url(mime: Seq<char>, encoded: Seq<char>) -> Seq<char> {
    "data:"@ + mime + ";base64,"@ + encoded
}

/// UTF-8 encodes texts piece by piece.
pub proof fn lemma_encode_concat(a: Seq<char>, b: Seq<char>)
    ensures
        encode_utf8(a + b) == encode_utf8(a) + encode_utf8(b),
    decreases a.len(),
{
    if a.len() == 0 {
        assert(a + b =~= b);
        assert(encode_utf8(a) =~= Seq::<u8>::empty());
    } else {
        lemma_encode_concat(a.drop_first(), b);
        assert((a + b).drop_first() =~= a.drop_first() + b);
        assert((a + b)[0] == a[0]);
        assert(encode_utf8(a + b) =~= encode_utf8(a) + encode_utf8(b));
    }
}

/// There is one first occurrence.
proof fn lemma_first_unique(bytes: Seq<u8>, part: Seq<u8>, i: int, j: int)
    requires
        first_occurs_at(bytes, part, i),
        first_occurs_at(bytes, part, j),
    ensures
        i == j,
{
    if i < j {
        assert(!occurs_at(bytes, part, i));
    }
    if j < i {
        assert(!occurs_at(bytes, part, j));
    }
}

/// Whether some bytes stand at a place of others.
fn matches_at(bytes: &[u8], part: &[u8], i: usize) -> (r: bool)
    ensures
        r == occurs_at(bytes@, part@, i as int),
{
    if part.len() > bytes.len() || i > bytes.len() - part.len() {
        return false;
    }
    let end: usize = i + part.len();
    let mut k: usize = 0;
    while k < part.len()
        invariant
            k <= part@.len(),
            end == i + part@.len(),
            end <= bytes@.len(),
            forall|j: int| 0 <= j < k ==> bytes@[i + j] == #[trigger] part@[j],
        decreases part.len() - k,
    {
        if bytes[i + k] != part[k] {
            assert(bytes@.subrange(i as int, i + part@.len())[k as int] == bytes@[i + k]);
            return false;
        }
        k = k + 1;
    }
    assert(bytes@.subrange(i as int, i + part@.len()) =~= part@);
    true
}

/// The encoded payload of a base64 data URL.
fn find_payload(url: &[u8]) -> (r: Option<Vec<u8>>)
    ensures
        match r {
            Some(p) => payload_of(url@) == Some(p@),
            None => payload_of(url@) is None,
        },
{
    let scheme: [u8; 5] = [0x64, 0x61, 0x74, 0x61, 0x3a];
    let marker: [u8; 8] = [0x3b, 0x62, 0x61, 0x73, 0x65, 0x36, 0x34, 0x2c];
    assert(scheme@ =~= data_scheme());
    assert(marker@ =~= base64_marker());
    if !matches_at(url, scheme.as_slice(), 0) {
        return None;
    }
    let ghost rest = url@.skip(5);
    let mut i: usize = 5;
    while i < url.len()
        invariant
            5 <= i <= url@.len(),
            rest == url@.skip(5),
            marker@ == base64_marker(),
            occurs_at(url@, data_scheme(), 0),
            forall|j: int| 0 <= j < i - 5 ==> !#[trigger] occurs_at(rest, base64_marker(), j),
        decreases url.len() - i,
    {
        if matches_at(url, marker.as_slice(), i) {
            let ghost at = (i - 5) as int;
            assert(rest.subrange(at, at + 8) =~= url@.subrange(i as int, i + 8));
            assert(first_occurs_at(rest, base64_marker(), at));
            let ghost chosen = choose|k: int| #[trigger] first_occurs_at(rest, base64_marker(), k);
            proof {
                lemma_first_unique(rest, base64_marker(), at, chosen);
            }
            let mut payload: Vec<u8> = Vec::new();
            let mut k: usize = i + 8;
            while k < url.len()
                invariant
                    i + 8 <= k <= url@.len(),
                    payload@ == url@.subrange(i + 8, k as int),
                decreases url.len() - k,
            {
                payload.push(url[k]);
                k = k + 1;
            }
            assert(payload@ =~= rest.skip(at + 8));
            return Some(payload);
        }
        proof {
            let at = i - 5;
            if occurs_at(rest, base64_marker(), at) {
                assert(url@.subrange(i as int, i + 8) =~= rest.subrange(at, at + 8));
                assert(occurs_at(url@, base64_marker(), i as int));
            }
        }
        i = i + 1;
    }
    proof {
        assert forall|k: int| !#[trigger] first_occurs_at(rest, base64_marker(), k) by {
            if first_occurs_at(rest, base64_marker(), k) {
                assert(occurs_at(rest, base64_marker(), k));
            }
        }
    }
    None
}

/// Writes bytes as a base64 data URL.
pub fn encode_data_url(buffer: &[u8], mime: &str) -> (r: String)
    ensures
        r@ == data_url(mime@, base64_text(buffer@)),
        !mime@.contains(';') ==> url_bytes(r@) == decoded(buffer@),
{
    let encoded: String = base64_encode(buffer);
    let mut out: String = "data:".to_owned();
    out.append(mime);
    out.append(";base64,");
    out.append(encoded.as_str());
    proof {
        if !mime@.contains(';') {
            law_data_url_payload(mime@, encoded@);
        }
    }
    out
}

/// Reads the bytes of a base64 data URL.
pub fn decode_data_url(url: &str) -> (r: Result<Vec<u8>, String>)
    ensures
        bytes_result(r) == url_bytes(url@),
{
    match find_payload(url.as_bytes()) {
        Some(payload) => match base64_decode(payload.as_slice()) {
            Ok(bytes) => Ok(bytes),
            Err(e) => Err(crate::text::joined("Base64 decode error: ", e.as_str())),
        },
        None => Err(
            "Unsupported value data URL; only inline base64 `data:` URLs are supported".to_owned(),
        ),
    }
}

/// UTF-8 encodes a character below 128 as one byte, and no other character
/// with such a byte.
proof fn lemma_encode_char(text: Seq<char>, c: char)
    requires
        !text.contains(c),
        (c as u32) < 128,
    ensures
        !encode_utf8(text).contains(c as u8),
    decreases text.len(),
{
    if text.len() > 0 {
        let first = text[0];
        let rest = text.drop_first();
        assert(!rest.contains(c)) by {
            if rest.contains(c) {
                let i = choose|i: int| 0 <= i < rest.len() && rest[i] == c;
                assert(text[i + 1] == c);
            }
        }
        lemma_encode_char(rest, c);
        assert(text.contains(first));
        char_is_scalar(first);
        char_is_scalar(c);
        char_u32_cast(first, first as u32);
        char_u32_cast(c, c as u32);
        lemma_scalar_bytes(first as u32, c as u8);
        assert(first as u32 != c as u32);
        assert(!encode_scalar(first as u32).contains(c as u8));
        assert(encode_utf8(text) =~= encode_scalar(first as u32) + encode_utf8(rest));
        if encode_utf8(text).contains(c as u8) {
            let i = choose|i: int| 0 <= i < encode_utf8(text).len() && encode_utf8(text)[i] == c as u8;
            let n = encode_scalar(first as u32).len();
            if i < n {
                assert(encode_scalar(first as u32)[i] == c as u8);
            } else {
                assert(encode_utf8(rest)[i - n] == c as u8);
            }
        }
    }
}

/// A byte below 128 occurs in a scalar's encoding only where it is the scalar.
proof fn lemma_scalar_bytes(scalar: u32, b: u8)
    requires
        is_scalar(scalar),
        b < 128,
    ensures
        encode_scalar(scalar).contains(b) ==> scalar == b as u32,
{
    assert(scalar < 128 ==> leading_byte_width_1(scalar) as u32 == scalar) by (bit_vector);
    assert(leading_byte_width_2(scalar) >= 128 && leading_byte_width_3(scalar) >= 128
        && leading_byte_width_4(scalar) >= 128 && last_continuation_byte(scalar) >= 128
        && second_last_continuation_byte(scalar) >= 128 && third_last_continuation_byte(scalar)
        >= 128) by (bit_vector);
}

/// A data URL yields the payload that it was made with.
pub proof fn law_data_url_payload(mime: Seq<char>, encoded: Seq<char>)
    requires
        !mime.contains(';'),
    ensures
        payload_of(encode_utf8(data_url(mime, encoded))) == Some(encode_utf8(encoded)),
{
    let url = encode_utf8(data_url(mime, encoded));
    reveal_strlit("data:");
    reveal_strlit(";base64,");
    lemma_encode_concat("data:"@ + mime + ";base64,"@, encoded);
    lemma_encode_concat("data:"@ + mime, ";base64,"@);
    lemma_encode_concat("data:"@, mime);
    assert(is_ascii_chars("data:"@));
    assert(is_ascii_chars(";base64,"@));
    is_ascii_chars_encode_utf8("data:"@);
    is_ascii_chars_encode_utf8(";base64,"@);
    assert(encode_utf8("data:"@) =~= data_scheme());
    assert(encode_utf8(";base64,"@) =~= base64_marker());
    let m = encode_utf8(mime);
    let e = encode_utf8(encoded);
    assert(url == data_scheme() + m + base64_marker() + e);
    assert(url.subrange(0, 5) =~= data_scheme());
    let rest = url.skip(5);
    assert(rest =~= m + base64_marker() + e);
    let at = m.len() as int;
    assert(rest.subrange(at, at + 8) =~= base64_marker());
    lemma_encode_char(mime, ';');
    assert forall|j: int| 0 <= j < at implies !#[trigger] occurs_at(rest, base64_marker(), j) by {
        if occurs_at(rest, base64_marker(), j) {
            assert(rest.subrange(j, j + 8)[0] == base64_marker()[0]);
            assert(m[j] == 0x3bu8);
            assert(m.contains(0x3bu8));
        }
    }
    assert(first_occurs_at(rest, base64_marker(), at));
    let chosen = choose|k: int| #[trigger] first_occurs_at(rest, base64_marker(), k);
    lemma_first_unique(rest, base64_marker(), at, chosen);
    assert(rest.skip(at + 8) =~= e);
}

/// The payload of a data URL is all that follows its first base64 marker. There is none
/// where the text does not start with the scheme, or holds no marker behind it.
pub proof fn law_payload_follows_the_first_marker(url: Seq<u8>, i: int)
    ensures
        url.len() >= 5 && url.take(5) == seq![
            'd' as u8,
            'a' as u8,
            't' as u8,
            'a' as u8,
            ':' as u8,
        ] && 5 <= i && i + 8 <= url.len() && url.subrange(i, i + 8) == seq![
            ';' as u8,
            'b' as u8,
            'a' as u8,
            's' as u8,
            'e' as u8,
            '6' as u8,
            '4' as u8,
            ',' as u8,
        ] && (forall|j: int| 5 <= j < i ==> #[trigger] url[j] != ';' as u8) ==> payload_of(url)
            == Some(url.skip(i + 8)),
        payload_of(url) is Some ==> url.len() >= 13 && url[0] == 'd' as u8 && url[4] == ':' as u8,
        payload_of(url) matches Some(payload) ==> payload.len() + 13 <= url.len() && payload
            == url.skip(url.len() - payload.len()) && url[url.len() - payload.len() - 1] == ','
            as u8,
{
    assert('d' as u8 == 0x64 && 'a' as u8 == 0x61 && 't' as u8 == 0x74 && ':' as u8 == 0x3a && ';'
        as u8 == 0x3b && 'b' as u8 == 0x62 && 's' as u8 == 0x73 && 'e' as u8 == 0x65 && '6' as u8
        == 0x36 && '4' as u8 == 0x34 && ',' as u8 == 0x2c);
    let rest = url.skip(5);
    if occurs_at(url, data_scheme(), 0) {
        assert(url.subrange(0, 5) =~= url.take(5));
        assert(url.take(5)[0] == data_scheme()[0] && url.take(5)[4] == data_scheme()[4]);
        if exists|k: int| #[trigger] first_occurs_at(rest, base64_marker(), k) {
            let k = choose|k: int| #[trigger] first_occurs_at(rest, base64_marker(), k);
            let payload = rest.skip(k + 8);
            assert(payload =~= url.skip(url.len() - payload.len()));
            assert(rest.subrange(k, k + 8)[7] == base64_marker()[7]);
        }
    }
    if url.len() >= 5 && url.take(5) =~= data_scheme() && 5 <= i && i + 8 <= url.len()
        && url.subrange(i, i + 8) =~= base64_marker() && (forall|j: int|
        5 <= j < i ==> #[trigger] url[j] != 0x3b) {
        assert(url.subrange(0, 5) =~= data_scheme());
        let at = i - 5;
        assert(rest.subrange(at, at + 8) =~= url.subrange(i, i + 8));
        assert forall|j: int| 0 <= j < at implies !#[trigger] occurs_at(
            rest,
            base64_marker(),
            j,
        ) by {
            if occurs_at(rest, base64_marker(), j) {
                assert(rest.subrange(j, j + 8)[0] == base64_marker()[0]);
                assert(url[j + 5] == 0x3b);
            }
        }
        assert(first_occurs_at(rest, base64_marker(), at));
        let chosen = choose|k: int| #[trigger] first_occurs_at(rest, base64_marker(), k);
        lemma_first_unique(rest, base64_marker(), at, chosen);
        assert(rest.skip(at + 8) =~= url.skip(i + 8));
    }
}

/// A data URL is read exactly where it has a payload and that is base64; its bytes are
/// what the payload decodes to.
pub proof fn law_urls_are_decoded(url: Seq<char>)
    ensures
        url_bytes(url) is Ok <==> payload_of(encode_utf8(url)) is Some && base64_bytes(
            payload_of(encode_utf8(url))->0,
        ) is Ok,
        url_bytes(url) matches Ok(bytes) ==> base64_bytes(payload_of(encode_utf8(url))->0)
            == decoded(bytes),
{
}

/// The text of bytes is the one whose encoding they are.
pub proof fn law_texts_are_decoded(text: Seq<char>)
    ensures
        utf8_text(encode_utf8(text)) == Ok::<Seq<char>, Seq<char>>(text),
{
    encode_utf8_valid_utf8(text);
    encode_utf8_decode_utf8(text);
}

} // verus!
