//! `file://` URIs and filesystem paths, and the cache key both are folded into.
//!
//! A path travels to a URI by percent-encoding every byte outside a small safe set, and back by
//! decoding the escapes. A UNC path `//host/share/x` carries its host in the URI's authority. What
//! is not a usable `file://` path yields `None`.

use vstd::prelude::*;
use vstd::string::*;
use vstd::utf8::*;

use crate::lru_cache;
use crate::lru_cache::{memo_get, memo_new, memo_put};
use crate::text;
use crate::text::{chars_of, decode_lossy, lowercase_is, text_of};

verus! {

/// Whether `lsp_types::Uri` accepts a text as a URI reference.
pub uninterp spec fn uri_parses(text: Seq<char>) -> bool;

/// A text made of path-safe characters and `%XX` escapes with upper-case digits.
pub open spec fn escaped_path(text: Seq<char>) -> bool {
    exists|bytes: Seq<u8>| text == ascii_text(#[trigger] percent_encoded(bytes))
}

/// `<lsp_types::Uri as FromStr>::from_str`: the URI keeps the parsed text as it stands. Whether a
/// text parses is a name; an escaped absolute path behind `file://` always does. Longer texts
/// than `i32::MAX` bytes are left out, since the parser panics on them.
#[verifier::external_body]
fn parse_uri_text(text: &str) -> (r: Option<String>)
    requires
        encode_utf8(text@).len() <= i32::MAX,
    ensures
        r is Some == uri_parses(text@),
        r matches Some(kept) ==> kept@ == text@,
        forall|path: Seq<char>|
            #![trigger escaped_path(path)]
            text@ == "file://"@ + path && escaped_path(path) && path.len() > 0 && path[0] == '/'
                && (path.len() > 1 ==> path[1] != '/') ==> r is Some,
{
    text.parse::<lsp_types::Uri>().ok().map(|uri| uri.as_str().to_string())
}

/// A text that is a URI: short enough for the parser, and accepted by it.
pub open spec fn is_uri(text: Seq<char>) -> bool {
    encode_utf8(text).len() <= i32::MAX && uri_parses(text)
}

/// A parsed URI, kept as the text it was parsed from.
pub struct Uri {
    text: String,
}

impl View for Uri {
    type V = Seq<char>;

    closed spec fn view(&self) -> Seq<char> {
        self.text@
    }
}

impl Clone for Uri {
    fn clone(&self) -> (r: Uri)
        ensures
            r@ == self@,
    {
        proof {
            use_type_invariant(self);
        }
        Uri { text: self.text.clone() }
    }
}

impl Uri {
    #[verifier::type_invariant]
    spec fn accepted(self) -> bool {
        is_uri(self.text@)
    }

    /// Parse a URI reference; `None` when the text is not one.
    pub fn parse(text: &str) -> (r: Option<Uri>)
        ensures
            r is Some == is_uri(text@),
            r matches Some(uri) ==> uri@ == text@,
    {
        if text.as_bytes().len() > 0x7fff_ffff {
            return None;
        }
        match parse_uri_text(text) {
            Some(text) => Some(Uri { text }),
            None => None,
        }
    }

    /// The URI's text.
    pub fn as_str(&self) -> (r: &str)
        ensures
            r@ == self@,
            is_uri(r@),
    {
        proof {
            use_type_invariant(self);
        }
        self.text.as_str()
    }
}

// ---------------------------------------------------------------------------
// Percent encoding.
// ---------------------------------------------------------------------------

/// The characters of an ASCII byte sequence.
pub open spec fn ascii_text(bytes: Seq<u8>) -> Seq<char> {
    Seq::new(bytes.len(), |i: int| bytes[i] as char)
}

/// Bytes that stand for themselves in a `file://` path: the URI unreserved set and `/`, `:`, `@`.
pub open spec fn path_safe(b: u8) -> bool {
    ||| 0x41 <= b <= 0x5a
    ||| 0x61 <= b <= 0x7a
    ||| 0x30 <= b <= 0x39
    ||| b == 0x2d || b == 0x5f || b == 0x2e || b == 0x7e
    ||| b == 0x2f || b == 0x3a || b == 0x40
}

/// The upper-case hexadecimal digit of a value below 16.
pub open spec fn hex_digit(value: int) -> u8 {
    if value < 10 {
        (0x30 + value) as u8
    } else {
        (0x41 + value - 10) as u8
    }
}

/// The value of a hexadecimal digit of either case.
pub open spec fn hex_value(digit: u8) -> Option<int> {
    if 0x30 <= digit <= 0x39 {
        Some(digit - 0x30)
    } else if 0x61 <= digit <= 0x66 {
        Some(digit - 0x61 + 10)
    } else if 0x41 <= digit <= 0x46 {
        Some(digit - 0x41 + 10)
    } else {
        None
    }
}

/// One byte, escaped where it is not safe.
pub open spec fn encoded_byte(b: u8) -> Seq<u8> {
    if path_safe(b) {
        seq![b]
    } else {
        seq![0x25u8, hex_digit(b as int / 16), hex_digit(b as int % 16)]
    }
}

/// Every byte of a path, escaped where it is not safe.
pub open spec fn percent_encoded(bytes: Seq<u8>) -> Seq<u8>
    decreases bytes.len(),
{
    if bytes.len() == 0 {
        Seq::empty()
    } else {
        encoded_byte(bytes[0]) + percent_encoded(bytes.drop_first())
    }
}

/// Whether the bytes start with a well-formed `%XX` escape.
pub open spec fn starts_escape(bytes: Seq<u8>) -> bool {
    bytes.len() > 2 && bytes[0] == 0x25 && hex_value(bytes[1]) is Some && hex_value(
        bytes[2],
    ) is Some
}

/// The bytes with every well-formed escape replaced by its byte; malformed ones stay.
pub open spec fn percent_decoded(bytes: Seq<u8>) -> Seq<u8>
    decreases bytes.len(),
{
    if bytes.len() == 0 {
        Seq::empty()
    } else if starts_escape(bytes) {
        seq![(hex_value(bytes[1])->0 * 16 + hex_value(bytes[2])->0) as u8] + percent_decoded(
            bytes.skip(3),
        )
    } else {
        seq![bytes[0]] + percent_decoded(bytes.drop_first())
    }
}

/// Encoding a concatenation encodes its parts.
proof fn lemma_encoded_concat(a: Seq<u8>, b: Seq<u8>)
    ensures
        percent_encoded(a + b) == percent_encoded(a) + percent_encoded(b),
    decreases a.len(),
{
    if a.len() == 0 {
        assert(a + b =~= b);
        assert(percent_encoded(a) + percent_encoded(b) =~= percent_encoded(b));
    } else {
        assert((a + b).drop_first() =~= a.drop_first() + b);
        lemma_encoded_concat(a.drop_first(), b);
        assert(percent_encoded(a + b) =~= percent_encoded(a) + percent_encoded(b));
    }
}

proof fn lemma_encoded_push(a: Seq<u8>, b: u8)
    ensures
        percent_encoded(a.push(b)) == percent_encoded(a) + encoded_byte(b),
{
    lemma_encoded_concat(a, seq![b]);
    assert(a.push(b) =~= a + seq![b]);
    assert(seq![b].drop_first() =~= Seq::<u8>::empty());
    assert(percent_encoded(seq![b]) =~= encoded_byte(b)) by {
        assert(percent_encoded(seq![b].drop_first()) =~= Seq::<u8>::empty());
    }
}

proof fn lemma_encoded_byte_decodes(b: u8, rest: Seq<u8>)
    ensures
        percent_decoded(encoded_byte(b) + rest) == seq![b] + percent_decoded(rest),
{
    let all = encoded_byte(b) + rest;
    if path_safe(b) {
        assert(all.drop_first() =~= rest);
        assert(!starts_escape(all));
    } else {
        let hi = b as int / 16;
        let lo = b as int % 16;
        assert(hi < 16 && lo < 16 && hi * 16 + lo == b);
        assert(all[1] == hex_digit(hi) && all[2] == hex_digit(lo));
        assert(hex_value(hex_digit(hi)) == Some(hi));
        assert(hex_value(hex_digit(lo)) == Some(lo));
        assert(starts_escape(all));
        assert(all.skip(3) =~= rest);
    }
}

/// Decoding undoes encoding.
pub proof fn lemma_decode_undoes_encode(bytes: Seq<u8>)
    ensures
        percent_decoded(percent_encoded(bytes)) == bytes,
    decreases bytes.len(),
{
    if bytes.len() == 0 {
        assert(percent_decoded(percent_encoded(bytes)) =~= bytes);
    } else {
        let rest = bytes.drop_first();
        lemma_decode_undoes_encode(rest);
        lemma_encoded_byte_decodes(bytes[0], percent_encoded(rest));
        assert(seq![bytes[0]] + rest =~= bytes);
    }
}

/// What percent-encoding leaves is made of safe bytes, `%` and hexadecimal digits.
proof fn lemma_encoded_is_ascii(bytes: Seq<u8>)
    ensures
        forall|i: int|
            0 <= i < percent_encoded(bytes).len() ==> path_safe(#[trigger] percent_encoded(bytes)[i])
                || percent_encoded(bytes)[i] == 0x25,
    decreases bytes.len(),
{
    if bytes.len() > 0 {
        lemma_encoded_is_ascii(bytes.drop_first());
        let head = encoded_byte(bytes[0]);
        let tail = percent_encoded(bytes.drop_first());
        assert forall|i: int| 0 <= i < percent_encoded(bytes).len() implies path_safe(
            #[trigger] percent_encoded(bytes)[i],
        ) || percent_encoded(bytes)[i] == 0x25 by {
            if i < head.len() {
                assert(percent_encoded(bytes)[i] == head[i]);
            } else {
                assert(percent_encoded(bytes)[i] == tail[i - head.len()]);
            }
        }
    }
}

/// The UTF-8 encoding of an ASCII text is its bytes.
proof fn lemma_ascii_text_utf8(bytes: Seq<u8>)
    requires
        forall|i: int| 0 <= i < bytes.len() ==> #[trigger] bytes[i] < 128,
    ensures
        encode_utf8(ascii_text(bytes)) == bytes,
{
    let text = ascii_text(bytes);
    assert(is_ascii_chars(text));
    is_ascii_chars_encode_utf8(text);
    assert forall|i: int| 0 <= i < bytes.len() implies encode_utf8(text)[i] == bytes[i] by {
        assert(text[i] as u8 == bytes[i]);
    }
    assert(encode_utf8(text) =~= bytes);
}

/// Whether a byte stands for itself in a `file://` path.
fn is_path_safe(b: u8) -> (r: bool)
    ensures
        r == path_safe(b),
{
    (0x41 <= b && b <= 0x5a) || (0x61 <= b && b <= 0x7a) || (0x30 <= b && b <= 0x39) || b == 0x2d
        || b == 0x5f || b == 0x2e || b == 0x7e || b == 0x2f || b == 0x3a || b == 0x40
}

fn hex_char(value: u8) -> (r: char)
    requires
        value < 16,
    ensures
        r == hex_digit(value as int) as char,
{
    if value < 10 {
        (0x30 + value) as char
    } else {
        (0x41 + value - 10) as char
    }
}

/// Percent-encode the UTF-8 bytes of a path.
pub fn percent_encode_path(s: &str) -> (r: String)
    ensures
        r@ == ascii_text(percent_encoded(encode_utf8(s@))),
{
    let bytes = s.as_bytes();
    let mut out: String = String::new();
    let mut i: usize = 0;
    while i < bytes.len()
        invariant
            0 <= i <= bytes@.len(),
            bytes@ == encode_utf8(s@),
            out@ == ascii_text(percent_encoded(bytes@.take(i as int))),
        decreases bytes@.len() - i,
    {
        let b: u8 = bytes[i];
        let ghost before = out@;
        if is_path_safe(b) {
            out.push(b as char);
            proof {
                assert(out@ =~= before + ascii_text(encoded_byte(b)));
            }
        } else {
            out.push('%');
            out.push(hex_char(b / 16));
            out.push(hex_char(b % 16));
            proof {
                assert(out@ =~= before + ascii_text(encoded_byte(b)));
            }
        }
        proof {
            assert(bytes@.take(i as int + 1) =~= bytes@.take(i as int).push(b));
            lemma_encoded_push(bytes@.take(i as int), b);
            assert(out@ =~= ascii_text(percent_encoded(bytes@.take(i as int + 1))));
        }
        i = i + 1;
    }
    proof {
        assert(bytes@.take(i as int) =~= bytes@);
    }
    out
}

/// The value of a hexadecimal digit of either case.
fn hex_nibble(b: u8) -> (r: Option<u8>)
    ensures
        r is Some == hex_value(b) is Some,
        r matches Some(v) ==> v == hex_value(b)->0 && v < 16,
{
    if 0x30 <= b && b <= 0x39 {
        Some(b - 0x30)
    } else if 0x61 <= b && b <= 0x66 {
        Some(b - 0x61 + 10)
    } else if 0x41 <= b && b <= 0x46 {
        Some(b - 0x41 + 10)
    } else {
        None
    }
}

/// What a text decodes to: its escapes replaced, read as UTF-8.
pub open spec fn decoded_text(text: Seq<char>) -> Seq<char> {
    utf8_lossy_or_exact(percent_decoded(encode_utf8(text)))
}

/// The characters of a byte sequence: exact where it is well-formed UTF-8.
pub open spec fn utf8_lossy_or_exact(bytes: Seq<u8>) -> Seq<char> {
    if valid_utf8(bytes) {
        decode_utf8(bytes)
    } else {
        text::utf8_lossy_text(bytes)
    }
}

/// Decode the `%XX` escapes of a text; a malformed escape stays as it is.
pub fn percent_decode(s: &str) -> (r: String)
    ensures
        r@ == decoded_text(s@),
{
    let bytes = s.as_bytes();
    let mut out: Vec<u8> = Vec::new();
    let mut i: usize = 0;
    proof {
        assert(bytes@.skip(0) =~= bytes@);
        assert(out@ + percent_decoded(bytes@.skip(0)) =~= percent_decoded(bytes@));
    }
    while i < bytes.len()
        invariant
            0 <= i <= bytes@.len(),
            bytes@ == encode_utf8(s@),
            out@ + percent_decoded(bytes@.skip(i as int)) == percent_decoded(bytes@),
        decreases bytes@.len() - i,
    {
        let ghost rest = bytes@.skip(i as int);
        let ghost before = out@;
        if bytes[i] == 0x25 && bytes.len() - i > 2 {
            if let (Some(hi), Some(lo)) = (hex_nibble(bytes[i + 1]), hex_nibble(bytes[i + 2])) {
                proof {
                    assert(starts_escape(rest));
                    assert(rest.skip(3) =~= bytes@.skip(i as int + 3));
                }
                out.push(hi * 16 + lo);
                i = i + 3;
                proof {
                    assert(out@ + percent_decoded(bytes@.skip(i as int)) =~= before
                        + percent_decoded(rest));
                }
                continue ;
            }
        }
        proof {
            assert(!starts_escape(rest));
            assert(rest.drop_first() =~= bytes@.skip(i as int + 1));
        }
        out.push(bytes[i]);
        i = i + 1;
        proof {
            assert(out@ + percent_decoded(bytes@.skip(i as int)) =~= before + percent_decoded(
                rest,
            ));
        }
    }
    proof {
        assert(bytes@.skip(i as int) =~= Seq::<u8>::empty());
        assert(out@ =~= percent_decoded(bytes@));
    }
    decode_lossy(out.as_slice())
}

// ---------------------------------------------------------------------------
// Paths and URIs.
// ---------------------------------------------------------------------------

/// A path with its backslashes turned into slashes.
pub open spec fn forward_slashes(path: Seq<char>) -> Seq<char> {
    Seq::new(
        path.len(),
        |i: int|
            if path[i] == '\\' {
                '/'
            } else {
                path[i]
            },
    )
}

/// The escaped form of a path.
pub open spec fn encoded_path(path: Seq<char>) -> Seq<char> {
    ascii_text(percent_encoded(encode_utf8(forward_slashes(path))))
}

/// The text of the `file://` URI of a path.
pub open spec fn file_uri_text(path: Seq<char>) -> Seq<char> {
    let encoded = encoded_path(path);
    if encoded.len() >= 2 && encoded[0] == '/' && encoded[1] == '/' {
        "file:"@ + encoded
    } else if encoded.len() >= 1 && encoded[0] == '/' {
        "file://"@ + encoded
    } else {
        "file:///"@ + encoded
    }
}

/// An ASCII letter.
pub open spec fn ascii_letter(c: char) -> bool {
    ('a' <= c <= 'z') || ('A' <= c <= 'Z')
}

/// The name a URI authority has for this machine, in any case.
pub open spec fn is_localhost(authority: Seq<char>) -> bool {
    text::lowered(authority) == "localhost"@
}

/// A path of the form `/X:...`.
pub open spec fn slash_drive(path: Seq<char>) -> bool {
    path.len() >= 3 && path[0] == '/' && ascii_letter(path[1]) && path[2] == ':'
}

/// The path without the slash that a URI puts before a Windows drive.
pub open spec fn without_drive_slash(path: Seq<char>, windows: bool) -> Seq<char> {
    if windows && slash_drive(path) {
        path.skip(1)
    } else {
        path
    }
}

/// The path that a URI text names.
pub open spec fn uri_path(text: Seq<char>, windows: bool) -> Option<Seq<char>> {
    if !"file://"@.is_prefix_of(text) {
        None
    } else {
        let rest = text.skip(7);
        let slash = text::index_of(rest, '/');
        if slash == rest.len() {
            None
        } else {
            let authority = rest.take(slash);
            let decoded = decoded_text(rest.skip(slash));
            if authority.len() > 0 && !is_localhost(authority) {
                Some("//"@ + decoded_text(authority) + decoded)
            } else {
                Some(without_drive_slash(decoded, windows))
            }
        }
    }
}

/// `/C:/x` becomes `C:/x` on Windows: a slash before a drive is an artifact of the URI.
fn strip_windows_drive_slash(path: &str, windows: bool) -> (r: String)
    ensures
        r@ == without_drive_slash(path@, windows),
{
    let chars = chars_of(path);
    if windows && chars.len() >= 3 && chars[0] == '/' && (('a' <= chars[1] && chars[1] <= 'z') || (
    'A' <= chars[1] && chars[1] <= 'Z')) && chars[2] == ':' {
        return text_of(&chars, 1, chars.len());
    }
    path.to_owned()
}

/// Convert a `file://` URI to a filesystem path, or `None` if it names none.
///
/// `windows` says whether paths are those of a Windows system.
pub fn uri_to_path(uri: &Uri, windows: bool) -> (r: Option<String>)
    ensures
        r is Some == uri_path(uri@, windows) is Some,
        r matches Some(path) ==> path@ == uri_path(uri@, windows)->0,
{
    let chars = chars_of(uri.as_str());
    let scheme = chars_of("file://");
    proof {
        reveal_strlit("file://");
    }
    if !text::starts_with_at(&chars, 0, &scheme) {
        proof {
            assert(!"file://"@.is_prefix_of(uri@)) by {
                if "file://"@.is_prefix_of(uri@) {
                    assert(uri@.subrange(0, 7) =~= "file://"@);
                }
            }
        }
        return None;
    }
    proof {
        assert("file://"@.is_prefix_of(uri@)) by {
            assert(uri@.subrange(0, 7) =~= "file://"@);
        }
    }
    let ghost rest = uri@.skip(7);
    let slash: usize = text::find_from(&chars, 7, '/');
    if slash == chars.len() {
        return None;
    }
    let authority = text_of(&chars, 7, slash);
    let tail = text_of(&chars, slash, chars.len());
    proof {
        assert(authority@ =~= rest.take(slash - 7));
        assert(tail@ =~= rest.skip(slash - 7));
    }
    let decoded = percent_decode(tail.as_str());
    if slash > 7 && !lowercase_is(authority.as_str(), "localhost") {
        let host = percent_decode(authority.as_str());
        let mut path: String = "//".to_owned();
        path.append(host.as_str());
        path.append(decoded.as_str());
        return Some(path);
    }
    Some(strip_windows_drive_slash(decoded.as_str(), windows))
}

/// A path of this machine with a root: `/x`, but no UNC path `//x`.
pub open spec fn local_absolute(path: Seq<char>) -> bool {
    let slashed = forward_slashes(path);
    slashed.len() >= 1 && slashed[0] == '/' && (slashed.len() >= 2 ==> slashed[1] != '/')
}

/// A `file://` URI text is ASCII: as many bytes as characters.
proof fn lemma_file_uri_ascii(path: Seq<char>)
    ensures
        is_ascii_chars(file_uri_text(path)),
        encode_utf8(file_uri_text(path)).len() == file_uri_text(path).len(),
{
    let bytes = encode_utf8(forward_slashes(path));
    lemma_encoded_is_ascii(bytes);
    reveal_strlit("file:");
    reveal_strlit("file://");
    reveal_strlit("file:///");
    let text = file_uri_text(path);
    let encoded = encoded_path(path);
    assert forall|i: int| 0 <= i < encoded.len() implies '\0' <= #[trigger] encoded[i] <= '\u{7f}' by {
        assert(path_safe(percent_encoded(bytes)[i]) || percent_encoded(bytes)[i] == 0x25);
    }
    let head = text.len() - encoded.len();
    assert forall|i: int| 0 <= i < text.len() implies '\0' <= #[trigger] text[i] <= '\u{7f}' by {
        if i >= head {
            assert(text[i] == encoded[i - head]);
        }
    }
    is_ascii_chars_encode_utf8(text);
}

/// A character with a one-byte encoding begins the encoding with that byte.
proof fn lemma_utf8_head(s: Seq<char>)
    requires
        s.len() > 0,
    ensures
        encode_utf8(s).len() > 0,
        (encode_utf8(s)[0] == 0x2f) == (s[0] == '/'),
        s[0] == '/' ==> encode_utf8(s).drop_first() == encode_utf8(s.drop_first()),
{
    let first: char = s[0];
    let c = first as u32;
    char_is_scalar(first);
    char_u32_cast(first, c);
    assert((c == 0x2f) == (first == '/'));
    let head = encode_scalar(c);
    if has_width_1_encoding(c) {
        assert(leading_byte_width_1(c) as u32 == c) by (bit_vector)
            requires
                has_width_1_encoding(c),
        ;
        assert(encode_utf8(s).drop_first() =~= encode_utf8(s.drop_first()));
    } else if has_width_2_encoding(c) {
        assert(leading_byte_width_2(c) >= 0x80) by (bit_vector)
            requires
                has_width_2_encoding(c),
        ;
    } else if has_width_3_encoding(c) {
        assert(leading_byte_width_3(c) >= 0x80) by (bit_vector)
            requires
                has_width_3_encoding(c),
        ;
    } else {
        assert(leading_byte_width_4(c) >= 0x80) by (bit_vector)
            requires
                has_width_4_encoding(c),
        ;
    }
    assert(encode_utf8(s)[0] == head[0]);
}

/// The escaped form of bytes begins with `/` exactly when they do.
proof fn lemma_encoded_head(bytes: Seq<u8>)
    requires
        bytes.len() > 0,
    ensures
        percent_encoded(bytes).len() > 0,
        (percent_encoded(bytes)[0] == 0x2f) == (bytes[0] == 0x2f),
        bytes[0] == 0x2f ==> percent_encoded(bytes).drop_first() == percent_encoded(
            bytes.drop_first(),
        ),
{
    if bytes[0] == 0x2f {
        assert(percent_encoded(bytes).drop_first() =~= percent_encoded(bytes.drop_first()));
    }
}

/// How a path's escaped form begins.
proof fn lemma_encoded_path_head(path: Seq<char>)
    ensures
        path.len() == 0 ==> encoded_path(path).len() == 0,
        path.len() > 0 ==> encoded_path(path).len() > 0 && (encoded_path(path)[0] == '/') == (
        forward_slashes(path)[0] == '/'),
        path.len() > 0 && forward_slashes(path)[0] == '/' ==> encoded_path(path).skip(1)
            == encoded_path(path.skip(1)),
{
    let slashed = forward_slashes(path);
    if path.len() > 0 {
        lemma_utf8_head(slashed);
        lemma_encoded_head(encode_utf8(slashed));
        assert(slashed.drop_first() =~= forward_slashes(path.skip(1)));
        let bytes = percent_encoded(encode_utf8(slashed));
        assert((bytes[0] as char == '/') == (bytes[0] == 0x2f));
        if slashed[0] == '/' {
            assert(encoded_path(path).skip(1) =~= encoded_path(path.skip(1)));
        }
    } else {
        assert(slashed =~= Seq::<char>::empty());
    }
}

/// A rooted local path's escaped form is a rooted local path.
proof fn lemma_local_encoded(path: Seq<char>)
    requires
        local_absolute(path),
    ensures
        file_uri_text(path) == "file://"@ + encoded_path(path),
        encoded_path(path).len() > 0,
        encoded_path(path)[0] == '/',
        encoded_path(path).len() > 1 ==> encoded_path(path)[1] != '/',
{
    lemma_encoded_path_head(path);
    lemma_encoded_path_head(path.skip(1));
    if path.len() > 1 {
        assert(forward_slashes(path)[1] == forward_slashes(path.skip(1))[0]);
        assert(encoded_path(path)[1] == encoded_path(path).skip(1)[0]);
    } else {
        assert(encoded_path(path.skip(1)).len() == 0);
    }
}

/// The path with its backslashes turned into slashes.
fn with_forward_slashes(path: &str) -> (r: String)
    ensures
        r@ == forward_slashes(path@),
{
    let chars = chars_of(path);
    let mut r: String = String::new();
    let mut i: usize = 0;
    while i < chars.len()
        invariant
            chars@ == path@,
            0 <= i <= chars@.len(),
            r@ == forward_slashes(path@).take(i as int),
        decreases chars@.len() - i,
    {
        let c: char = if chars[i] == '\\' {
            '/'
        } else {
            chars[i]
        };
        r.push(c);
        proof {
            let all = forward_slashes(path@);
            assert(all.take(i as int + 1) =~= all.take(i as int).push(all[i as int]));
        }
        i = i + 1;
    }
    proof {
        assert(forward_slashes(path@).take(i as int) =~= forward_slashes(path@));
    }
    r
}

/// Convert a filesystem path to a `file://` URI. `None` when what comes out is no URI: it never
/// is for a path `/x...` whose text fits a URI.
pub fn path_to_file_uri(path: &str) -> (r: Option<Uri>)
    ensures
        r is Some == is_uri(file_uri_text(path@)),
        r matches Some(uri) ==> uri@ == file_uri_text(path@),
        local_absolute(path@) && file_uri_text(path@).len() <= i32::MAX ==> r is Some,
{
    let normalized = with_forward_slashes(path);
    let encoded = percent_encode_path(normalized.as_str());
    let chars = chars_of(encoded.as_str());
    let mut text: String = if chars.len() >= 2 && chars[0] == '/' && chars[1] == '/' {
        "file:".to_owned()
    } else if chars.len() >= 1 && chars[0] == '/' {
        "file://".to_owned()
    } else {
        "file:///".to_owned()
    };
    text.append(encoded.as_str());
    proof {
        lemma_file_uri_ascii(path@);
        if local_absolute(path@) {
            lemma_local_encoded(path@);
            assert(escaped_path(encoded@));
        }
    }
    if text.as_str().as_bytes().len() > 0x7fff_ffff {
        return None;
    }
    match parse_uri_text(text.as_str()) {
        Some(text) => Some(Uri { text }),
        None => None,
    }
}

// ---------------------------------------------------------------------------
// Cache keys.
// ---------------------------------------------------------------------------

/// The cache-key form of a path: the text that `path_to_file_uri` gives it.
pub fn canonical_key(path: &str) -> (r: Option<String>)
    ensures
        r is Some == is_uri(file_uri_text(path@)),
        r matches Some(key) ==> key@ == file_uri_text(path@),
        local_absolute(path@) && file_uri_text(path@).len() <= i32::MAX ==> r is Some,
{
    match path_to_file_uri(path) {
        Some(uri) => Some(uri.text),
        None => None,
    }
}

/// The upper-case form of an ASCII lower-case letter.
pub open spec fn ascii_upper(c: char) -> char {
    if 'a' <= c <= 'z' {
        ((c as u8 - 32) as u8) as char
    } else {
        c
    }
}

/// A URI text with a lower-case Windows drive.
pub open spec fn lower_drive(text: Seq<char>) -> bool {
    "file:///"@.is_prefix_of(text) && text.len() >= 10 && 'a' <= text[8] <= 'z' && text[9] == ':'
}

/// A URI text with its Windows drive in upper case.
pub open spec fn folded_drive(text: Seq<char>) -> Seq<char> {
    if lower_drive(text) {
        text.update(8, ascii_upper(text[8]))
    } else {
        text
    }
}

/// Upper-case the drive of a `file:///c:/...` text; any other text stays.
pub fn fold_uri_drive(uri: &str) -> (r: String)
    ensures
        r@ == folded_drive(uri@),
{
    let mut chars = chars_of(uri);
    let prefix = chars_of("file:///");
    proof {
        reveal_strlit("file:///");
    }
    if text::starts_with_at(&chars, 0, &prefix) {
        proof {
            assert(uri@.subrange(0, 8) =~= "file:///"@);
        }
        if chars.len() >= 10 && 'a' <= chars[8] && chars[8] <= 'z' && chars[9] == ':' {
            let upper: char = (chars[8] as u8 - 32) as char;
            chars.set(8, upper);
            let r = text_of(&chars, 0, chars.len());
            proof {
                assert(r@ =~= folded_drive(uri@));
            }
            return r;
        }
    } else {
        proof {
            if "file:///"@.is_prefix_of(uri@) {
                assert(uri@.subrange(0, 8) =~= "file:///"@);
            }
        }
    }
    uri.to_owned()
}

/// The path a key is made from: the resolved one where the disk gave one.
pub open spec fn keyed_path(path: Seq<char>, resolved: Option<Seq<char>>) -> Seq<char> {
    match resolved {
        Some(actual) => actual,
        None => path,
    }
}

/// The key text of a path, where it has one.
pub open spec fn path_key(path: Seq<char>, resolved: Option<Seq<char>>) -> Option<Seq<char>> {
    let text = file_uri_text(keyed_path(path, resolved));
    if is_uri(text) {
        Some(folded_drive(text))
    } else {
        None
    }
}

/// The key text of a URI: that of its path, or its own folded text.
pub open spec fn uri_key(text: Seq<char>, resolved: Option<Seq<char>>, windows: bool) -> Seq<char> {
    match uri_path(text, windows) {
        Some(path) => match path_key(path, resolved) {
            Some(key) => key,
            None => folded_drive(text),
        },
        None => folded_drive(text),
    }
}

/// The key of the per-file caches: a `file://` URI text in one encoding, with the drive folded.
/// A key is made only from a URI or from a path, so that both sides of a cache agree on it.
#[derive(Debug, PartialEq, Eq, Hash)]
pub struct CanonicalKey(String);

impl Clone for CanonicalKey {
    fn clone(&self) -> (r: CanonicalKey)
        ensures
            r@ == self@,
    {
        CanonicalKey(self.0.clone())
    }
}

impl View for CanonicalKey {
    type V = Seq<char>;

    closed spec fn view(&self) -> Seq<char> {
        self.0@
    }
}

impl CanonicalKey {
    /// The key of a URI as a client wrote it. `resolved` is the canonical form of the URI's path,
    /// where the disk has it.
    pub fn for_uri(uri: &Uri, resolved: Option<&str>, windows: bool) -> (r: CanonicalKey)
        ensures
            r@ == uri_key(uri@, text::opt_str(resolved), windows),
    {
        match uri_to_path(uri, windows) {
            Some(path) => match CanonicalKey::for_path(path.as_str(), resolved) {
                Some(key) => key,
                None => CanonicalKey(fold_uri_drive(uri.as_str())),
            },
            None => CanonicalKey(fold_uri_drive(uri.as_str())),
        }
    }

    /// The key of a filesystem path. `resolved` is its canonical form, where the disk has it.
    pub fn for_path(path: &str, resolved: Option<&str>) -> (r: Option<CanonicalKey>)
        ensures
            r is Some == path_key(path@, text::opt_str(resolved)) is Some,
            r matches Some(key) ==> Some(key@) == path_key(path@, text::opt_str(resolved)),
            ({
                let actual = keyed_path(path@, text::opt_str(resolved));
                local_absolute(actual) && file_uri_text(actual).len() <= i32::MAX ==> r is Some
            }),
    {
        let actual: &str = match resolved {
            Some(actual) => actual,
            None => path,
        };
        match canonical_key(actual) {
            Some(key) => Some(CanonicalKey(fold_uri_drive(key.as_str()))),
            None => None,
        }
    }

    /// The key's text.
    pub fn as_str(&self) -> (r: &str)
        ensures
            r@ == self@,
    {
        self.0.as_str()
    }
}

/// How many canonical paths are remembered.
pub const CANONICALIZE_MEMO_CAPACITY: usize = 4096;

/// The canonical forms that the disk gave of paths, by path. Only successful resolutions are
/// remembered: a path that is not on disk yet is asked for again.
pub struct CanonicalizeMemo {
    cache: lru::LruCache<String, String>,
}

impl CanonicalizeMemo {
    /// The remembered resolutions, most recently used first.
    pub closed spec fn entries(&self) -> Seq<(Seq<char>, Seq<char>)> {
        lru_cache::memo_entries(self.cache)
    }

    /// Each path is remembered once, within the capacity.
    pub closed spec fn well_formed(&self) -> bool {
        &&& lru_cache::memo_capacity(self.cache) == CANONICALIZE_MEMO_CAPACITY
        &&& lru_cache::well_kept(self.entries(), CANONICALIZE_MEMO_CAPACITY as nat)
    }

    /// An empty memo.
    pub fn new() -> (r: CanonicalizeMemo)
        ensures
            r.well_formed(),
            r.entries() == Seq::<(Seq<char>, Seq<char>)>::empty(),
    {
        CanonicalizeMemo { cache: memo_new(CANONICALIZE_MEMO_CAPACITY) }
    }

    /// The remembered canonical form of a path. On `None` the disk is to be asked.
    pub fn lookup(&mut self, path: &str) -> (r: Option<String>)
        requires
            old(self).well_formed(),
        ensures
            final(self).well_formed(),
            final(self).entries() == lru_cache::touched(old(self).entries(), path@),
            r is Some == lru_cache::lookup(old(self).entries(), path@) is Some,
            r matches Some(actual) ==> Some(actual@) == lru_cache::lookup(old(self).entries(), path@),
    {
        proof {
            lru_cache::lemma_touched(
                self.entries(),
                CANONICALIZE_MEMO_CAPACITY as nat,
                path@,
            );
        }
        memo_get(&mut self.cache, path)
    }

    /// Take note of what the disk said of a path; a failure is not remembered.
    pub fn record(&mut self, path: &str, resolved: Option<&str>)
        requires
            old(self).well_formed(),
        ensures
            final(self).well_formed(),
            final(self).entries() == match resolved {
                Some(actual) => lru_cache::stored(
                    old(self).entries(),
                    CANONICALIZE_MEMO_CAPACITY as nat,
                    path@,
                    actual@,
                ),
                None => old(self).entries(),
            },
    {
        if let Some(actual) = resolved {
            proof {
                lru_cache::lemma_stored(
                    self.entries(),
                    CANONICALIZE_MEMO_CAPACITY as nat,
                    path@,
                    actual@,
                );
            }
            memo_put(&mut self.cache, path.to_owned(), actual.to_owned());
        }
    }
}

// ---------------------------------------------------------------------------
// Laws.
// ---------------------------------------------------------------------------

/// The escaped form of bytes that hold no escape sign is decoded to itself.
proof fn lemma_decode_plain(bytes: Seq<u8>)
    requires
        forall|i: int| 0 <= i < bytes.len() ==> #[trigger] bytes[i] != 0x25,
    ensures
        percent_decoded(bytes) == bytes,
    decreases bytes.len(),
{
    if bytes.len() > 0 {
        let rest = bytes.drop_first();
        assert forall|i: int| 0 <= i < rest.len() implies #[trigger] rest[i] != 0x25 by {
            assert(rest[i] == bytes[i + 1]);
        }
        lemma_decode_plain(rest);
        assert(seq![bytes[0]] + rest =~= bytes);
    } else {
        assert(percent_decoded(bytes) =~= bytes);
    }
}

/// A text that is percent-encoded as bytes and read back is the same text.
proof fn lemma_text_round_trip(text: Seq<char>)
    ensures
        decoded_text(ascii_text(percent_encoded(encode_utf8(text)))) == text,
{
    let bytes = encode_utf8(text);
    let encoded = percent_encoded(bytes);
    lemma_encoded_is_ascii(bytes);
    assert forall|i: int| 0 <= i < encoded.len() implies #[trigger] encoded[i] < 128 by {
        assert(path_safe(encoded[i]) || encoded[i] == 0x25);
    }
    lemma_ascii_text_utf8(encoded);
    lemma_decode_undoes_encode(bytes);
    encode_utf8_valid_utf8(text);
    encode_utf8_decode_utf8(text);
}

/// The escaped form of a concatenation.
proof fn lemma_escaped_concat(a: Seq<char>, b: Seq<char>)
    ensures
        ascii_text(percent_encoded(encode_utf8(a + b))) == ascii_text(
            percent_encoded(encode_utf8(a)),
        ) + ascii_text(percent_encoded(encode_utf8(b))),
{
    text::lemma_utf8_concat(a, b);
    lemma_encoded_concat(encode_utf8(a), encode_utf8(b));
    assert(ascii_text(percent_encoded(encode_utf8(a + b))) =~= ascii_text(
        percent_encoded(encode_utf8(a)),
    ) + ascii_text(percent_encoded(encode_utf8(b))));
}

/// Escaping adds no slash and takes none away.
proof fn lemma_escaped_slashes(text: Seq<char>)
    requires
        forall|i: int| 0 <= i < text.len() ==> #[trigger] text[i] != '/',
    ensures
        forall|i: int|
            0 <= i < ascii_text(percent_encoded(encode_utf8(text))).len()
                ==> #[trigger] ascii_text(percent_encoded(encode_utf8(text)))[i] != '/',
        text.len() > 0 ==> ascii_text(percent_encoded(encode_utf8(text))).len() > 0,
    decreases text.len(),
{
    let escaped = ascii_text(percent_encoded(encode_utf8(text)));
    if text.len() > 0 {
        let rest = text.drop_first();
        assert forall|i: int| 0 <= i < rest.len() implies #[trigger] rest[i] != '/' by {
            assert(rest[i] == text[i + 1]);
        }
        lemma_escaped_slashes(rest);
        let head = seq![text[0]];
        assert(head + rest =~= text);
        lemma_escaped_concat(head, rest);
        lemma_escaped_char(text[0]);
        let first = ascii_text(percent_encoded(encode_utf8(head)));
        let tail = ascii_text(percent_encoded(encode_utf8(rest)));
        assert forall|i: int| 0 <= i < escaped.len() implies #[trigger] escaped[i] != '/' by {
            if i < first.len() {
                assert(escaped[i] == first[i]);
            } else {
                assert(escaped[i] == tail[i - first.len()]);
            }
        }
        assert(escaped.len() == first.len() + tail.len());
    }
}

/// A single character other than `/` has a non-empty escaped form without `/`.
proof fn lemma_escaped_char(c: char)
    requires
        c != '/',
    ensures
        ascii_text(percent_encoded(encode_utf8(seq![c]))).len() > 0,
        forall|i: int|
            0 <= i < ascii_text(percent_encoded(encode_utf8(seq![c]))).len()
                ==> #[trigger] ascii_text(percent_encoded(encode_utf8(seq![c])))[i] != '/',
{
    let s = seq![c];
    let bytes = encode_utf8(s);
    lemma_utf8_no_slash(c);
    assert(bytes =~= encode_scalar(c as u32)) by {
        assert(s.drop_first() =~= Seq::<char>::empty());
        assert(encode_utf8(s.drop_first()) =~= Seq::<u8>::empty());
    }
    lemma_encoded_no_slash(bytes);
    assert(bytes.len() > 0);
    assert(percent_encoded(bytes).len() >= encoded_byte(bytes[0]).len());
}

/// Only `/` has the byte of `/` in its encoding.
proof fn lemma_utf8_no_slash(c: char)
    requires
        c != '/',
    ensures
        encode_scalar(c as u32).len() > 0,
        forall|i: int|
            0 <= i < encode_scalar(c as u32).len() ==> #[trigger] encode_scalar(c as u32)[i]
                != 0x2f,
{
    let u = c as u32;
    char_is_scalar(c);
    char_u32_cast(c, u);
    assert(u != 0x2f);
    if has_width_1_encoding(u) {
        assert(leading_byte_width_1(u) as u32 == u) by (bit_vector)
            requires
                has_width_1_encoding(u),
        ;
    } else if has_width_2_encoding(u) {
        assert(leading_byte_width_2(u) >= 0x80 && last_continuation_byte(u) >= 0x80)
            by (bit_vector)
            requires
                has_width_2_encoding(u),
        ;
    } else if has_width_3_encoding(u) {
        assert(leading_byte_width_3(u) >= 0x80 && second_last_continuation_byte(u) >= 0x80
            && last_continuation_byte(u) >= 0x80) by (bit_vector)
            requires
                has_width_3_encoding(u),
        ;
    } else {
        assert(leading_byte_width_4(u) >= 0x80 && third_last_continuation_byte(u) >= 0x80
            && second_last_continuation_byte(u) >= 0x80 && last_continuation_byte(u) >= 0x80)
            by (bit_vector)
            requires
                has_width_4_encoding(u),
        ;
    }
}

/// Escaping bytes other than `/` gives no `/`.
proof fn lemma_encoded_no_slash(bytes: Seq<u8>)
    requires
        forall|i: int| 0 <= i < bytes.len() ==> #[trigger] bytes[i] != 0x2f,
    ensures
        forall|i: int|
            0 <= i < percent_encoded(bytes).len() ==> #[trigger] percent_encoded(bytes)[i] != 0x2f,
        forall|i: int|
            0 <= i < ascii_text(percent_encoded(bytes)).len() ==> #[trigger] ascii_text(
                percent_encoded(bytes),
            )[i] != '/',
    decreases bytes.len(),
{
    let all = percent_encoded(bytes);
    if bytes.len() > 0 {
        let rest = bytes.drop_first();
        assert forall|i: int| 0 <= i < rest.len() implies #[trigger] rest[i] != 0x2f by {
            assert(rest[i] == bytes[i + 1]);
        }
        lemma_encoded_no_slash(rest);
        let head = encoded_byte(bytes[0]);
        assert forall|i: int| 0 <= i < all.len() implies #[trigger] all[i] != 0x2f by {
            if i < head.len() {
                assert(all[i] == head[i]);
            } else {
                assert(all[i] == percent_encoded(rest)[i - head.len()]);
            }
        }
    }
    lemma_encoded_is_ascii(bytes);
    assert forall|i: int| 0 <= i < ascii_text(all).len() implies #[trigger] ascii_text(all)[i]
        != '/' by {
        assert(all[i] != 0x2f);
        assert(path_safe(all[i]) || all[i] == 0x25);
    }
}

/// The path holds no backslash, so that it is kept as it stands.
pub open spec fn plain_slashes(path: Seq<char>) -> bool {
    forall|i: int| 0 <= i < path.len() ==> #[trigger] path[i] != '\\'
}

/// A rooted path of this machine comes back from its URI as it was. On Windows a path `/X:...`
/// is left out: its first slash is taken for the one before a drive.
pub proof fn lemma_local_path_round_trip(path: Seq<char>, windows: bool)
    requires
        plain_slashes(path),
        local_absolute(path),
        !(windows && slash_drive(path)),
    ensures
        uri_path(file_uri_text(path), windows) == Some(path),
{
    assert(forward_slashes(path) =~= path);
    lemma_local_encoded(path);
    lemma_text_round_trip(path);
    reveal_strlit("file://");
    let text = file_uri_text(path);
    let encoded = encoded_path(path);
    assert(text.skip(7) =~= encoded);
    assert("file://"@.is_prefix_of(text)) by {
        assert(text.subrange(0, 7) =~= "file://"@);
    }
    text::lemma_index_of_is(encoded, '/', 0);
    assert(encoded.take(0) =~= Seq::<char>::empty());
    assert(encoded.skip(0) =~= encoded);
}

/// A path with a Windows drive comes back from its URI as it was.
pub proof fn lemma_drive_path_round_trip(path: Seq<char>)
    requires
        plain_slashes(path),
        path.len() >= 2,
        ascii_letter(path[0]),
        path[1] == ':',
    ensures
        uri_path(file_uri_text(path), true) == Some(path),
{
    assert(forward_slashes(path) =~= path);
    lemma_encoded_path_head(path);
    reveal_strlit("file://");
    reveal_strlit("file:///");
    let text = file_uri_text(path);
    let encoded = encoded_path(path);
    assert(text =~= "file:///"@ + encoded);
    let slashed = seq!['/'] + path;
    lemma_escaped_concat(seq!['/'], path);
    let slash_bytes = encode_utf8(seq!['/']);
    assert(ascii_text(percent_encoded(encode_utf8(seq!['/']))) =~= seq!['/']) by {
        assert(forward_slashes(seq!['/']) =~= seq!['/']);
        lemma_encoded_path_head(seq!['/']);
        assert(seq!['/'].skip(1) =~= Seq::<char>::empty());
        lemma_encoded_path_head(Seq::<char>::empty());
        let e = encoded_path(seq!['/']);
        assert(e.skip(1).len() == 0);
    }
    let rest = text.skip(7);
    assert(rest =~= seq!['/'] + encoded);
    assert(rest == ascii_text(percent_encoded(encode_utf8(slashed))));
    lemma_text_round_trip(slashed);
    assert("file://"@.is_prefix_of(text)) by {
        assert(text.subrange(0, 7) =~= "file://"@);
    }
    text::lemma_index_of_is(rest, '/', 0);
    assert(rest.take(0) =~= Seq::<char>::empty());
    assert(rest.skip(0) =~= rest);
    assert(slash_drive(slashed));
    assert(slashed.skip(1) =~= path);
}

/// A UNC path `//host/rest` comes back from its URI as it was, host included. The host
/// `localhost` is left out: a URI has it for this machine.
pub proof fn lemma_unc_path_round_trip(host: Seq<char>, rest: Seq<char>, windows: bool)
    requires
        plain_slashes(host),
        plain_slashes(rest),
        host.len() > 0,
        forall|i: int| 0 <= i < host.len() ==> #[trigger] host[i] != '/',
        !is_localhost(host),
    ensures
        uri_path(file_uri_text("//"@ + host + "/"@ + rest), windows) == Some(
            "//"@ + host + "/"@ + rest,
        ),
{
    reveal_strlit("//");
    reveal_strlit("/");
    reveal_strlit("file:");
    reveal_strlit("file://");
    let tail = "/"@ + rest;
    let path = "//"@ + host + "/"@ + rest;
    let inner = host + tail;
    assert(path =~= "//"@ + inner);
    assert(forward_slashes(path) =~= path);
    let encoded = encoded_path(path);
    // The two leading slashes stay, and what follows is the escaped host and tail.
    lemma_encoded_path_head(path);
    lemma_encoded_path_head(path.skip(1));
    assert(forward_slashes(path.skip(1))[0] == '/');
    assert(path.skip(1).skip(1) =~= inner);
    assert(encoded.skip(1)[0] == encoded[1]);
    assert(encoded.skip(2) =~= encoded.skip(1).skip(1));
    assert(forward_slashes(inner) =~= inner);
    let e_host = ascii_text(percent_encoded(encode_utf8(host)));
    let e_tail = ascii_text(percent_encoded(encode_utf8(tail)));
    lemma_escaped_concat(host, tail);
    assert(encoded.skip(2) =~= e_host + e_tail);
    let text = file_uri_text(path);
    assert(text =~= "file:"@ + encoded);
    assert("file://"@.is_prefix_of(text)) by {
        assert(text.subrange(0, 7) =~= "file://"@);
    }
    let after = text.skip(7);
    assert(after =~= e_host + e_tail);
    // The first slash is the one behind the host.
    lemma_escaped_slashes(host);
    assert(forward_slashes(tail) =~= tail);
    lemma_encoded_path_head(tail);
    assert(e_tail[0] == '/');
    assert forall|j: int| 0 <= j < e_host.len() implies after[j] != '/' by {
        assert(after[j] == e_host[j]);
    }
    assert(after[e_host.len() as int] == e_tail[0]);
    text::lemma_index_of_is(after, '/', e_host.len() as int);
    assert(after.take(e_host.len() as int) =~= e_host);
    assert(after.skip(e_host.len() as int) =~= e_tail);
    lemma_text_round_trip(host);
    lemma_text_round_trip(tail);
    assert(!is_localhost(e_host)) by {
        if is_localhost(e_host) {
            lemma_localhost_plain(host);
        }
    }
    assert("//"@ + host + tail =~= path);
}

/// An escaped text that names this machine was not escaped.
proof fn lemma_localhost_plain(host: Seq<char>)
    requires
        is_localhost(ascii_text(percent_encoded(encode_utf8(host)))),
    ensures
        is_localhost(host),
{
    reveal_strlit("localhost");
    let encoded = percent_encoded(encode_utf8(host));
    let text = ascii_text(encoded);
    let lowered = text::lowered(text);
    assert(lowered == "localhost"@);
    lemma_encoded_is_ascii(encode_utf8(host));
    assert forall|i: int| 0 <= i < encoded.len() implies #[trigger] encoded[i] != 0x25 && encoded[i]
        < 128 by {
        assert(path_safe(encoded[i]) || encoded[i] == 0x25);
        assert(lowered[i] == "localhost"@[i]);
        assert(text[i] == encoded[i] as char);
    }
    lemma_decode_plain(encoded);
    lemma_ascii_text_utf8(encoded);
    lemma_text_round_trip(host);
    encode_utf8_valid_utf8(text);
    encode_utf8_decode_utf8(text);
    assert(host == text);
}

/// A key made from a URI is the key made from the path that the URI names, however the client
/// wrote the URI. This needs the path to have a key at all.
pub proof fn lemma_keys_agree(
    text: Seq<char>,
    path: Seq<char>,
    resolved: Option<Seq<char>>,
    windows: bool,
)
    requires
        uri_path(text, windows) == Some(path),
        path_key(path, resolved) is Some,
    ensures
        Some(uri_key(text, resolved, windows)) == path_key(path, resolved),
{
}

/// Folding the drive again changes nothing.
pub proof fn lemma_fold_idempotent(text: Seq<char>)
    ensures
        folded_drive(folded_drive(text)) == folded_drive(text),
{
    if lower_drive(text) {
        let folded = folded_drive(text);
        assert(!('a' <= folded[8] <= 'z'));
    }
}

/// Two texts that differ in the case of the drive alone have one folded form.
pub proof fn lemma_fold_drive_case(lower: Seq<char>)
    requires
        lower_drive(lower),
    ensures
        folded_drive(lower) == folded_drive(lower.update(8, ascii_upper(lower[8]))),
{
    lemma_fold_idempotent(lower);
}

/// What was recorded of a path is what a lookup of it gives, and a lookup changes no answer: the
/// memo never changes a key.
pub proof fn lemma_memo_transparent(
    entries: Seq<(Seq<char>, Seq<char>)>,
    path: Seq<char>,
    actual: Seq<char>,
    other: Seq<char>,
)
    requires
        lru_cache::well_kept(entries, CANONICALIZE_MEMO_CAPACITY as nat),
    ensures
        lru_cache::lookup(
            lru_cache::stored(entries, CANONICALIZE_MEMO_CAPACITY as nat, path, actual),
            path,
        ) == Some(actual),
        lru_cache::lookup(lru_cache::touched(entries, other), path) == lru_cache::lookup(
            entries,
            path,
        ),
{
    lru_cache::lemma_stored(entries, CANONICALIZE_MEMO_CAPACITY as nat, path, actual);
    lru_cache::lemma_touched(entries, CANONICALIZE_MEMO_CAPACITY as nat, other);
}

/// Which bytes stand for themselves in the URI of a path: ASCII letters and digits, `-`, `_`, `.`,
/// `~`, `/`, `:` and `@`.
pub proof fn lemma_what_stands_for_itself(b: u8)
    ensures
        encoded_byte(b) == seq![b] <==> (('a' as int <= b <= 'z' as int) || ('A' as int <= b
            <= 'Z' as int) || ('0' as int <= b <= '9' as int) || b == '-' as int || b == '_' as int
            || b == '.' as int || b == '~' as int || b == '/' as int || b == ':' as int || b
            == '@' as int),
{
    assert(encoded_byte(b).len() == 1 || encoded_byte(b).len() == 3);
}

/// Any other byte is escaped: a percent sign and two hexadecimal digits in upper case, which together
/// are its value.
pub proof fn lemma_how_a_byte_is_escaped(b: u8)
    requires
        !path_safe(b),
    ensures
        ({
            let e = encoded_byte(b);
            &&& e.len() == 3 && e[0] == '%' as int
            &&& '0' as int <= e[1] <= '9' as int || 'A' as int <= e[1] <= 'F' as int
            &&& '0' as int <= e[2] <= '9' as int || 'A' as int <= e[2] <= 'F' as int
            &&& hex_value(e[1]) is Some && hex_value(e[2]) is Some
            &&& hex_value(e[1])->0 * 16 + hex_value(e[2])->0 == b
        }),
{
}

/// The digits of an escape count in either case; no other byte is a digit.
pub proof fn lemma_values_of_digits(digit: u8)
    ensures
        '0' as int <= digit <= '9' as int ==> hex_value(digit) == Some(digit - '0' as int),
        'a' as int <= digit <= 'f' as int ==> hex_value(digit) == Some(digit - 'a' as int + 10),
        'A' as int <= digit <= 'F' as int ==> hex_value(digit) == Some(digit - 'A' as int + 10),
        hex_value(digit) is Some ==> ('0' as int <= digit <= '9' as int) || ('a' as int <= digit
            <= 'f' as int) || ('A' as int <= digit <= 'F' as int),
{
}

/// An escape is one byte, whatever follows it; a byte that begins none stays.
pub proof fn lemma_escapes_are_decoded(high: u8, low: u8, other: u8, rest: Seq<u8>)
    requires
        hex_value(high) is Some,
        hex_value(low) is Some,
    ensures
        percent_decoded(seq!['%' as u8, high, low] + rest) == seq![
            (hex_value(high)->0 * 16 + hex_value(low)->0) as u8,
        ] + percent_decoded(rest),
        other != '%' as int ==> percent_decoded(seq![other] + rest) == seq![other]
            + percent_decoded(rest),
        rest.len() < 2 || hex_value(rest[0]) is None || hex_value(rest[1]) is None
            ==> percent_decoded(seq!['%' as u8] + rest) == seq!['%' as u8] + percent_decoded(rest),
{
    let escaped = seq!['%' as u8, high, low] + rest;
    assert(escaped.skip(3) =~= rest);
    let plain = seq![other] + rest;
    assert(plain.drop_first() =~= rest);
    let sign = seq!['%' as u8] + rest;
    assert(sign.drop_first() =~= rest);
}

/// A path is a URI of this machine behind three slashes, or with the slash that it begins with behind
/// two; a path of another machine carries it behind two.
pub proof fn lemma_scheme_of_a_path(path: Seq<char>)
    ensures
        "file:"@.is_prefix_of(file_uri_text(path)),
        ({
            let encoded = encoded_path(path);
            &&& encoded.len() == 0 || encoded[0] != '/' ==> file_uri_text(path) == "file:///"@
                + encoded
            &&& encoded.len() > 0 && encoded[0] == '/' && (encoded.len() > 1 ==> encoded[1]
                != '/') ==> file_uri_text(path) == "file://"@ + encoded
            &&& encoded.len() > 1 && encoded[0] == '/' && encoded[1] == '/' ==> file_uri_text(path)
                == "file:"@ + encoded
        }),
{
    reveal_strlit("file:");
    reveal_strlit("file://");
    reveal_strlit("file:///");
    assert("file:"@ =~= file_uri_text(path).take(5));
}

/// A text that is no `file://` URI, or that has no path behind its authority, names no path.
pub proof fn lemma_what_names_no_path(text: Seq<char>, windows: bool)
    ensures
        !"file://"@.is_prefix_of(text) ==> uri_path(text, windows) is None,
        "file://"@.is_prefix_of(text) && (forall|i: int|
            7 <= i < text.len() ==> #[trigger] text[i] != '/') ==> uri_path(text, windows) is None,
        "file://"@.is_prefix_of(text) && (exists|i: int|
            7 <= i < text.len() && #[trigger] text[i] == '/') ==> uri_path(text, windows) is Some,
{
    reveal_strlit("file://");
    if "file://"@.is_prefix_of(text) {
        let rest = text.skip(7);
        text::lemma_index_of(rest, '/');
        if exists|i: int| 7 <= i < text.len() && #[trigger] text[i] == '/' {
            let i = choose|i: int| 7 <= i < text.len() && #[trigger] text[i] == '/';
            assert(rest[i - 7] == '/');
        }
    }
}

/// `localhost`, in any case, is this machine: the URI names what it names without it.
pub proof fn lemma_localhost_is_this_machine(host: Seq<char>, tail: Seq<char>, windows: bool)
    requires
        text::lowered(host) == "localhost"@,
        tail.len() > 0,
        tail[0] == '/',
    ensures
        uri_path("file://"@ + host + tail, windows) == uri_path("file://"@ + tail, windows),
        uri_path("file://"@ + tail, windows) == Some(
            without_drive_slash(decoded_text(tail), windows),
        ),
{
    reveal_strlit("file://");
    reveal_strlit("localhost");
    let named = "file://"@ + host + tail;
    let bare = "file://"@ + tail;
    assert(named.subrange(0, 7) =~= "file://"@);
    assert(bare.subrange(0, 7) =~= "file://"@);
    assert(named.skip(7) =~= host + tail);
    assert(bare.skip(7) =~= tail);
    let after = host + tail;
    let name = "localhost"@;
    assert(name[0] == 'l' && name[1] == 'o' && name[2] == 'c' && name[3] == 'a' && name[4] == 'l');
    assert(name[5] == 'h' && name[6] == 'o' && name[7] == 's' && name[8] == 't');
    assert(host.len() == 9) by {
        assert(text::lowered(host).len() == 9);
    }
    assert forall|j: int| 0 <= j < host.len() implies after[j] != '/' by {
        assert(after[j] == host[j]);
        assert(text::lowered(host)[j] == name[j]);
        assert(j == 0 || j == 1 || j == 2 || j == 3 || j == 4 || j == 5 || j == 6 || j == 7 || j
            == 8);
    }
    assert(after[host.len() as int] == '/');
    text::lemma_index_of_is(after, '/', host.len() as int);
    text::lemma_index_of_is(tail, '/', 0);
    assert(after.take(host.len() as int) =~= host);
    assert(after.skip(host.len() as int) =~= tail);
    assert(tail.take(0) =~= Seq::<char>::empty());
    assert(tail.skip(0) =~= tail);
}

/// The slash before a drive goes on Windows alone, and no other slash does.
pub proof fn lemma_slash_before_a_drive(drive: char, rest: Seq<char>, path: Seq<char>)
    requires
        ('a' <= drive <= 'z') || ('A' <= drive <= 'Z'),
    ensures
        without_drive_slash(seq!['/', drive, ':'] + rest, true) == seq![drive, ':'] + rest,
        without_drive_slash(path, false) == path,
        path.len() < 3 || path[2] != ':' ==> without_drive_slash(path, true) == path,
{
    assert((seq!['/', drive, ':'] + rest).skip(1) =~= seq![drive, ':'] + rest);
}

/// Folding changes the drive of a URI of this machine from lower to upper case, and nothing else.
pub proof fn lemma_what_folding_changes(text: Seq<char>, i: int)
    requires
        0 <= i < text.len(),
    ensures
        folded_drive(text).len() == text.len(),
        i != 8 ==> folded_drive(text)[i] == text[i],
        "file:///"@.is_prefix_of(text) && text.len() >= 10 && text[9] == ':' && 'a' <= text[8]
            <= 'z' ==> folded_drive(text)[8] as int == text[8] as int - 32,
        !"file:///"@.is_prefix_of(text) ==> folded_drive(text) == text,
        text.len() < 10 || text[9] != ':' || !('a' <= text[8] <= 'z') ==> folded_drive(text)
            == text,
{
}

/// A file has one key, however it is reached: the path that the disk gave decides, and the path as
/// it was written where the disk gave none.
pub proof fn lemma_one_key_per_file(
    path: Seq<char>,
    other: Seq<char>,
    actual: Seq<char>,
    text: Seq<char>,
    windows: bool,
)
    ensures
        path_key(path, Some(actual)) == path_key(other, Some(actual)),
        path_key(path, None) == path_key(other, Some(path)),
        is_uri(file_uri_text(path)) ==> path_key(path, None) == Some(
            folded_drive(file_uri_text(path)),
        ),
        !is_uri(file_uri_text(path)) ==> path_key(path, None) is None,
        uri_path(text, windows) is None ==> uri_key(text, Some(actual), windows) == folded_drive(
            text,
        ),
{
}

/// A path is written into its URI with slashes, whichever way it was spelled.
pub proof fn lemma_slashes_in_a_uri(path: Seq<char>, i: int)
    requires
        0 <= i < path.len(),
    ensures
        forward_slashes(path).len() == path.len(),
        path[i] == '\\' ==> forward_slashes(path)[i] == '/',
        path[i] != '\\' ==> forward_slashes(path)[i] == path[i],
        file_uri_text(forward_slashes(path)) == file_uri_text(path),
{
    assert(forward_slashes(forward_slashes(path)) =~= forward_slashes(path));
}

} // verus!
