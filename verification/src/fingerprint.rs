//! Content fingerprints: a SHA-256 digest, rendered in hexadecimal, of an
//! encoding of the payload that begins with the payload's kind.

use vstd::prelude::*;
use vstd::bytes::{spec_u64_to_le_bytes, u64_to_le_bytes, lemma_auto_spec_u64_to_from_le_bytes};
use vstd::utf8::{encode_utf8, encode_utf8_decode_utf8};
use vstd::string::StringExecFns;
use sha2::Digest;

verus! {

/// The SHA-256 digest of a byte string.
pub uninterp spec fn sha256_of(data: Seq<u8>) -> Seq<u8>;

/// Computes the SHA-256 digest of `data`.
///
/// Wraps `sha2::Sha256::digest`, the one-shot form of the hasher, and copies
/// the digest out of its fixed-size array. The digest is a function of the
/// input alone; the contract names it `sha256_of` and claims nothing else.
#[verifier::external_body]
pub(crate) fn sha256(data: &[u8]) -> (digest: Vec<u8>)
    ensures
        digest@ == sha256_of(data@),
{
    sha2::Sha256::digest(data).to_vec()
}

/// The lower-case hexadecimal digit for a value below 16.
pub open spec fn hex_digit_of(n: int) -> char {
    seq!['0', '1', '2', '3', '4', '5', '6', '7', '8', '9', 'a', 'b', 'c', 'd', 'e', 'f'][n]
}

/// The lower-case hexadecimal rendering of a byte string, two digits per
/// byte, high digit first.
pub open spec fn hex_lower(bytes: Seq<u8>) -> Seq<char> {
    Seq::new(
        2 * bytes.len(),
        |i: int|
            if i % 2 == 0 {
                hex_digit_of(bytes[i / 2] as int / 16)
            } else {
                hex_digit_of(bytes[i / 2] as int % 16)
            },
    )
}

/// The fingerprint of an encoded payload.
pub open spec fn fingerprint_of(preimage: Seq<u8>) -> Seq<char> {
    hex_lower(sha256_of(preimage))
}

/// The encoding of a textual payload: its kind, a colon and the payload, in
/// UTF-8.
pub open spec fn tagged_preimage(kind: Seq<char>, payload: Seq<char>) -> Seq<u8> {
    encode_utf8(kind + seq![':'] + payload)
}

/// The encoding of an image: the tag `image:`, then width and height as
/// 64-bit little-endian integers, then the raw pixel bytes.
pub open spec fn image_preimage(width: u64, height: u64, rgba: Seq<u8>) -> Seq<u8> {
    encode_utf8(crate::text::kind_image() + seq![':']) + spec_u64_to_le_bytes(width)
        + spec_u64_to_le_bytes(height) + rgba
}

fn hex_digit(n: u8) -> (c: char)
    requires
        n < 16,
    ensures
        c == hex_digit_of(n as int),
{
    if n == 0 {
        '0'
    } else if n == 1 {
        '1'
    } else if n == 2 {
        '2'
    } else if n == 3 {
        '3'
    } else if n == 4 {
        '4'
    } else if n == 5 {
        '5'
    } else if n == 6 {
        '6'
    } else if n == 7 {
        '7'
    } else if n == 8 {
        '8'
    } else if n == 9 {
        '9'
    } else if n == 10 {
        'a'
    } else if n == 11 {
        'b'
    } else if n == 12 {
        'c'
    } else if n == 13 {
        'd'
    } else if n == 14 {
        'e'
    } else {
        'f'
    }
}

/// Renders bytes in lower-case hexadecimal.
pub fn to_hex_lower(bytes: &[u8]) -> (out: String)
    ensures
        out@ == hex_lower(bytes@),
{
    let mut out = String::new();
    let mut i: usize = 0;
    while i < bytes.len()
        invariant
            i <= bytes.len(),
            out@ == hex_lower(bytes@.take(i as int)),
        decreases bytes.len() - i,
    {
        let b = bytes[i];
        let ghost before = out@;
        crate::text::push_char(&mut out, hex_digit(b / 16));
        crate::text::push_char(&mut out, hex_digit(b % 16));
        i += 1;
        assert(out@ =~= hex_lower(bytes@.take(i as int))) by {
            let now = hex_lower(bytes@.take(i as int));
            assert(out@.len() == now.len());
            assert forall|k: int| 0 <= k < now.len() implies out@[k] == now[k] by {
                if k < 2 * (i - 1) {
                    assert(before[k] == hex_lower(bytes@.take(i - 1))[k]);
                    assert(bytes@.take(i - 1)[k / 2] == bytes@.take(i as int)[k / 2]);
                }
            }
        }
    }
    assert(bytes@.take(bytes.len() as int) =~= bytes@);
    out
}

/// Lower-case hexadecimal SHA-256 digest of the UTF-8 bytes of `input`.
pub fn sha256_hex(input: &str) -> (out: String)
    ensures
        out@ == fingerprint_of(encode_utf8(input@)),
{
    let digest = sha256(input.as_bytes());
    to_hex_lower(digest.as_slice())
}

/// Fingerprint of a textual payload of the given kind: the digest of the kind,
/// a colon and the payload.
pub fn tagged_fingerprint(kind: &str, payload: &str) -> (out: String)
    ensures
        out@ == fingerprint_of(tagged_preimage(kind@, payload@)),
{
    let mut tagged = String::from_str(kind);
    crate::text::push_char(&mut tagged, ':');
    tagged.append(payload);
    assert(tagged@ =~= kind@ + seq![':'] + payload@);
    sha256_hex(tagged.as_str())
}

/// Fingerprint of an image: the digest of the tag `image:`, the dimensions as
/// little-endian 64-bit integers and the pixel bytes.
pub fn image_fingerprint(width: u64, height: u64, rgba: &[u8]) -> (out: String)
    ensures
        out@ == fingerprint_of(image_preimage(width, height, rgba@)),
{
    let mut tag = String::new();
    crate::text::push_char(&mut tag, 'i');
    crate::text::push_char(&mut tag, 'm');
    crate::text::push_char(&mut tag, 'a');
    crate::text::push_char(&mut tag, 'g');
    crate::text::push_char(&mut tag, 'e');
    crate::text::push_char(&mut tag, ':');
    assert(tag@ =~= crate::text::kind_image() + seq![':']);
    let mut buf: Vec<u8> = Vec::new();
    append_bytes(&mut buf, tag.as_str().as_bytes());
    let w = u64_to_le_bytes(width);
    append_bytes(&mut buf, w.as_slice());
    let h = u64_to_le_bytes(height);
    append_bytes(&mut buf, h.as_slice());
    append_bytes(&mut buf, rgba);
    assert(buf@ =~= image_preimage(width, height, rgba@));
    let digest = sha256(buf.as_slice());
    to_hex_lower(digest.as_slice())
}

fn append_bytes(buf: &mut Vec<u8>, more: &[u8])
    ensures
        final(buf)@ == old(buf)@ + more@,
{
    let mut i: usize = 0;
    assert(buf@ =~= old(buf)@ + more@.take(0));
    while i < more.len()
        invariant
            i <= more.len(),
            buf@ == old(buf)@ + more@.take(i as int),
        decreases more.len() - i,
    {
        buf.push(more[i]);
        i += 1;
        assert(buf@ =~= old(buf)@ + more@.take(i as int));
    }
    assert(more@.take(more.len() as int) =~= more@);
}

/// Two textual payloads with the same encoding are the same kind and text:
/// the encoding loses nothing.
pub proof fn lemma_tagged_preimage_injective(
    kind1: Seq<char>,
    payload1: Seq<char>,
    kind2: Seq<char>,
    payload2: Seq<char>,
)
    requires
        tagged_preimage(kind1, payload1) == tagged_preimage(kind2, payload2),
    ensures
        kind1 + seq![':'] + payload1 == kind2 + seq![':'] + payload2,
        kind1 == kind2 ==> payload1 == payload2,
{
    let a = kind1 + seq![':'] + payload1;
    let b = kind2 + seq![':'] + payload2;
    encode_utf8_decode_utf8(a);
    encode_utf8_decode_utf8(b);
    if kind1 == kind2 {
        let n = kind1.len() + 1;
        assert(a.skip(n as int) =~= payload1);
        assert(b.skip(n as int) =~= payload2);
    }
}

/// A text payload and a file payload never share an encoding, whatever they
/// hold.
pub proof fn lemma_text_and_file_preimages_differ(text: Seq<char>, paths: Seq<char>)
    ensures
        tagged_preimage(crate::text::kind_text(), text) != tagged_preimage(
            crate::text::kind_file(),
            paths,
        ),
{
    let a = crate::text::kind_text() + seq![':'] + text;
    let b = crate::text::kind_file() + seq![':'] + paths;
    if tagged_preimage(crate::text::kind_text(), text) == tagged_preimage(
        crate::text::kind_file(),
        paths,
    ) {
        lemma_tagged_preimage_injective(
            crate::text::kind_text(),
            text,
            crate::text::kind_file(),
            paths,
        );
        assert(a[0] == 't');
        assert(b[0] == 'f');
    }
}

/// The first byte of the encoding of a sequence that starts with an ASCII
/// character is that character.
proof fn lemma_first_byte_ascii(s: Seq<char>)
    requires
        s.len() > 0,
        (s[0] as u32) < 0x80,
    ensures
        encode_utf8(s).len() > 0,
        encode_utf8(s)[0] == (s[0] as u32) as u8,
{
    let c = s[0] as u32;
    assert(c & 0x7F == c) by (bit_vector)
        requires
            c < 0x80,
    ;
    assert(vstd::utf8::has_width_1_encoding(c));
    assert(vstd::utf8::encode_scalar(c) =~= seq![c as u8]);
}

/// Domain separation: an image never shares an encoding with a text or file
/// payload, whatever they hold.
pub proof fn lemma_image_preimage_differs_from_tagged(
    width: u64,
    height: u64,
    rgba: Seq<u8>,
    payload: Seq<char>,
)
    ensures
        image_preimage(width, height, rgba) != tagged_preimage(crate::text::kind_text(), payload),
        image_preimage(width, height, rgba) != tagged_preimage(crate::text::kind_file(), payload),
{
    let tag = crate::text::kind_image() + seq![':'];
    let t = crate::text::kind_text() + seq![':'] + payload;
    let f = crate::text::kind_file() + seq![':'] + payload;
    assert(tag[0] == 'i');
    assert(t[0] == 't');
    assert(f[0] == 'f');
    lemma_first_byte_ascii(tag);
    lemma_first_byte_ascii(t);
    lemma_first_byte_ascii(f);
    assert(image_preimage(width, height, rgba)[0] == encode_utf8(tag)[0]);
}

/// Two images with the same encoding have the same dimensions and pixels.
pub proof fn lemma_image_preimage_injective(
    width1: u64,
    height1: u64,
    rgba1: Seq<u8>,
    width2: u64,
    height2: u64,
    rgba2: Seq<u8>,
)
    requires
        image_preimage(width1, height1, rgba1) == image_preimage(width2, height2, rgba2),
    ensures
        width1 == width2,
        height1 == height2,
        rgba1 == rgba2,
{
    lemma_auto_spec_u64_to_from_le_bytes();
    let tag = encode_utf8(crate::text::kind_image() + seq![':']);
    let n = tag.len() as int;
    let a = image_preimage(width1, height1, rgba1);
    let b = image_preimage(width2, height2, rgba2);
    assert(a.subrange(n, n + 8) =~= spec_u64_to_le_bytes(width1));
    assert(b.subrange(n, n + 8) =~= spec_u64_to_le_bytes(width2));
    assert(a.subrange(n + 8, n + 16) =~= spec_u64_to_le_bytes(height1));
    assert(b.subrange(n + 8, n + 16) =~= spec_u64_to_le_bytes(height2));
    assert(a.skip(n + 16) =~= rgba1);
    assert(b.skip(n + 16) =~= rgba2);
    assert(vstd::bytes::spec_u64_from_le_bytes(spec_u64_to_le_bytes(width1)) == width1);
    assert(vstd::bytes::spec_u64_from_le_bytes(spec_u64_to_le_bytes(width2)) == width2);
    assert(vstd::bytes::spec_u64_from_le_bytes(spec_u64_to_le_bytes(height1)) == height1);
    assert(vstd::bytes::spec_u64_from_le_bytes(spec_u64_to_le_bytes(height2)) == height2);
}

} // verus!
