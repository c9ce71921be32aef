//! The file-URL codec: percent-encoding of paths into `file://` URLs and back,
//! with Unicode normalization of the decoded path.
use unicode_normalization::UnicodeNormalization;
use vstd::prelude::*;
use vstd::string::*;
use vstd::utf8::*;

verus! {

/// ASCII alphanumerics and `-`, `.`, `_`, `~`: the bytes left as they are.
pub open spec fn is_unreserved(b: u8) -> bool {
    ||| 48 <= b <= 57
    ||| 65 <= b <= 90
    ||| 97 <= b <= 122
    ||| b == 45
    ||| b == 46
    ||| b == 95
    ||| b == 126
}

/// The upper-case hexadecimal digit of a value below 16.
pub open spec fn hex_digit_char(d: u8) -> char {
    if d < 10 {
        ((48 + d) as u8) as char
    } else {
        ((55 + d) as u8) as char
    }
}

pub open spec fn percent_encode_byte(b: u8) -> Seq<char> {
    if is_unreserved(b) {
        seq![b as char]
    } else {
        seq!['%', hex_digit_char(b / 16), hex_digit_char(b % 16)]
    }
}

pub open spec fn percent_encode_bytes(b: Seq<u8>) -> Seq<char>
    decreases b.len(),
{
    if b.len() == 0 {
        seq![]
    } else {
        percent_encode_byte(b[0]) + percent_encode_bytes(b.drop_first())
    }
}

/// `s` percent-encoded byte by byte over its UTF-8 encoding.
pub open spec fn percent_encoded(s: Seq<char>) -> Seq<char> {
    percent_encode_bytes(encode_utf8(s))
}

pub open spec fn is_hex_digit(b: u8) -> bool {
    ||| 48 <= b <= 57
    ||| 65 <= b <= 70
    ||| 97 <= b <= 102
}

pub open spec fn hex_value(b: u8) -> int {
    if b <= 57 {
        b - 48
    } else if b <= 70 {
        b - 55
    } else {
        b - 87
    }
}

/// Each `%` followed by two hexadecimal digits becomes the byte they spell;
/// every other byte stays.
pub open spec fn percent_decode_bytes(b: Seq<u8>) -> Seq<u8>
    decreases b.len(),
{
    if b.len() == 0 {
        seq![]
    } else if b[0] == 37 && b.len() >= 3 && is_hex_digit(b[1]) && is_hex_digit(b[2]) {
        seq![(hex_value(b[1]) * 16 + hex_value(b[2])) as u8] + percent_decode_bytes(
            b.subrange(3, b.len() as int),
        )
    } else {
        seq![b[0]] + percent_decode_bytes(b.drop_first())
    }
}

/// The percent-decoded bytes of `s` are UTF-8.
pub open spec fn percent_decodes(s: Seq<char>) -> bool {
    valid_utf8(percent_decode_bytes(encode_utf8(s)))
}

pub open spec fn percent_decoded(s: Seq<char>) -> Seq<char> {
    decode_utf8(percent_decode_bytes(encode_utf8(s)))
}

/// The Unicode Normalization Form C of a character sequence.
pub uninterp spec fn nfc_of(s: Seq<char>) -> Seq<char>;

/// Relies on urlencoding::encode, which percent-encodes every UTF-8 byte of
/// `s` but ASCII alphanumerics and `-`, `_`, `.`, `~`, with upper-case digits.
#[verifier::external_body]
fn percent_encode(s: &str) -> (r: String)
    ensures
        r@ == percent_encoded(s@),
{
    urlencoding::encode(s).into_owned()
}

/// Relies on urlencoding::decode, which turns each `%` and two hexadecimal
/// digits into that byte, keeps all other bytes, and fails exactly when the
/// resulting bytes are not UTF-8.
#[verifier::external_body]
fn percent_decode(s: &str) -> (r: Option<String>)
    ensures
        r is Some <==> percent_decodes(s@),
        r matches Some(d) ==> d@ == percent_decoded(s@),
{
    urlencoding::decode(s).ok().map(|d| d.into_owned())
}

/// Relies on unicode_normalization's `nfc`, which yields the characters of
/// `s` in Normalization Form C; text in that form normalizes to itself, and
/// empty text stays empty.
#[verifier::external_body]
fn nfc(s: &str) -> (r: String)
    ensures
        r@ == nfc_of(s@),
        nfc_of(r@) == r@,
        s@.len() == 0 ==> r@.len() == 0,
{
    s.nfc().collect::<String>()
}

/// Brings text to Normalization Form C.
pub fn normalize(s: &str) -> (r: String)
    ensures
        r@ == nfc_of(s@),
        nfc_of(r@) == r@,
{
    nfc(s)
}

/// Brings a text field to Normalization Form C.
pub fn normalize_optional(field: Option<String>) -> (r: Option<String>)
    ensures
        match field {
            Some(s) => r matches Some(t) && t@ == nfc_of(s@) && nfc_of(t@) == t@,
            None => r is None,
        },
{
    match field {
        Some(s) => Some(nfc(s.as_str())),
        None => None,
    }
}

/// One path character in a file URL: the separator stays, anything else is
/// percent-encoded.
pub open spec fn encode_path_char(c: char) -> Seq<char> {
    if c == '/' {
        seq!['/']
    } else {
        percent_encoded(seq![c])
    }
}

pub open spec fn encode_path(p: Seq<char>) -> Seq<char>
    decreases p.len(),
{
    if p.len() == 0 {
        seq![]
    } else {
        encode_path_char(p[0]) + encode_path(p.drop_first())
    }
}

pub open spec fn file_scheme() -> Seq<char> {
    seq!['f', 'i', 'l', 'e', ':', '/', '/']
}

/// The `file://` URL of a path.
pub open spec fn file_url_of(p: Seq<char>) -> Seq<char> {
    file_scheme() + encode_path(p)
}

pub open spec fn localhost_dir() -> Seq<char> {
    seq!['l', 'o', 'c', 'a', 'l', 'h', 'o', 's', 't', '/']
}

/// The path part of what follows `file://`: all of it when the host is
/// empty, what follows the host when it is `localhost`; `None` for any other
/// host.
pub open spec fn url_path_part(rest: Seq<char>) -> Option<Seq<char>> {
    if rest.len() > 0 && rest[0] == '/' {
        Some(rest)
    } else if rest.len() >= 10 && rest.subrange(0, 10) == localhost_dir() {
        Some(rest.subrange(9, rest.len() as int))
    } else {
        None
    }
}

/// The path that a `file://` URL names: its percent-decoded path part, in
/// Normalization Form C; `None` when `u` has no `file://` scheme, names a
/// host other than `localhost`, or its decoded bytes are not UTF-8.
pub open spec fn path_of_file_url(u: Seq<char>) -> Option<Seq<char>> {
    if u.len() >= 7 && u.subrange(0, 7) == file_scheme() {
        match url_path_part(u.subrange(7, u.len() as int)) {
            Some(pp) => if percent_decodes(pp) {
                Some(nfc_of(percent_decoded(pp)))
            } else {
                None
            },
            None => None,
        }
    } else {
        None
    }
}

proof fn lemma_encode_utf8_concat(a: Seq<char>, b: Seq<char>)
    ensures
        encode_utf8(a + b) == encode_utf8(a) + encode_utf8(b),
    decreases a.len(),
{
    if a.len() == 0 {
        assert(a + b =~= b);
        assert(encode_utf8(a) + encode_utf8(b) =~= encode_utf8(b));
    } else {
        assert((a + b).drop_first() =~= a.drop_first() + b);
        lemma_encode_utf8_concat(a.drop_first(), b);
        assert(encode_utf8(a + b) =~= encode_utf8(a) + encode_utf8(b));
    }
}

proof fn lemma_percent_encode_bytes_concat(a: Seq<u8>, b: Seq<u8>)
    ensures
        percent_encode_bytes(a + b) == percent_encode_bytes(a) + percent_encode_bytes(b),
    decreases a.len(),
{
    if a.len() == 0 {
        assert(a + b =~= b);
        assert(percent_encode_bytes(a) + percent_encode_bytes(b) =~= percent_encode_bytes(b));
    } else {
        assert((a + b).drop_first() =~= a.drop_first() + b);
        lemma_percent_encode_bytes_concat(a.drop_first(), b);
        assert(percent_encode_bytes(a + b) =~= percent_encode_bytes(a) + percent_encode_bytes(b));
    }
}

proof fn lemma_encode_path_concat(a: Seq<char>, b: Seq<char>)
    ensures
        encode_path(a + b) == encode_path(a) + encode_path(b),
    decreases a.len(),
{
    if a.len() == 0 {
        assert(a + b =~= b);
        assert(encode_path(a) + encode_path(b) =~= encode_path(b));
    } else {
        assert((a + b).drop_first() =~= a.drop_first() + b);
        lemma_encode_path_concat(a.drop_first(), b);
        assert(encode_path(a + b) =~= encode_path(a) + encode_path(b));
    }
}

/// Within one path segment, encoding character by character is encoding the
/// whole segment at once.
proof fn lemma_encode_segment(x: Seq<char>)
    requires
        forall|k: int| 0 <= k < x.len() ==> x[k] != '/',
    ensures
        encode_path(x) == percent_encoded(x),
    decreases x.len(),
{
    if x.len() == 0 {
        assert(encode_utf8(x) =~= Seq::<u8>::empty());
        assert(percent_encoded(x) =~= Seq::<char>::empty());
    } else {
        let head = seq![x[0]];
        let rest = x.drop_first();
        lemma_encode_segment(rest);
        assert(x =~= head + rest);
        lemma_encode_utf8_concat(head, rest);
        lemma_percent_encode_bytes_concat(encode_utf8(head), encode_utf8(rest));
    }
}

proof fn lemma_ascii_encoding(c: Seq<char>)
    requires
        is_ascii_chars(c),
    ensures
        encode_utf8(c) =~= Seq::new(c.len(), |i: int| c[i] as u8),
{
    is_ascii_chars_encode_utf8(c);
}

proof fn lemma_hex_digit(d: u8)
    requires
        d < 16,
    ensures
        is_hex_digit(hex_digit_char(d) as u8),
        hex_value(hex_digit_char(d) as u8) == d,
        '\0' <= hex_digit_char(d) <= '\u{7f}',
{
}

/// Decoding the UTF-8 bytes of a percent-encoding gives back the encoded
/// bytes, whatever follows.
proof fn lemma_decode_encoded_bytes(b: Seq<u8>, x: Seq<u8>)
    ensures
        percent_decode_bytes(encode_utf8(percent_encode_bytes(b)) + x) == b
            + percent_decode_bytes(x),
    decreases b.len(),
{
    if b.len() == 0 {
        assert(encode_utf8(percent_encode_bytes(b)) =~= Seq::<u8>::empty());
        assert(encode_utf8(percent_encode_bytes(b)) + x =~= x);
        assert(b + percent_decode_bytes(x) =~= percent_decode_bytes(x));
    } else {
        let b0 = b[0];
        let rest = b.drop_first();
        let e0 = percent_encode_byte(b0);
        let tail = encode_utf8(percent_encode_bytes(rest)) + x;
        lemma_encode_utf8_concat(e0, percent_encode_bytes(rest));
        lemma_decode_encoded_bytes(rest, x);
        let all = encode_utf8(percent_encode_bytes(b)) + x;
        if is_unreserved(b0) {
            assert(is_ascii_chars(e0));
            lemma_ascii_encoding(e0);
            assert(all =~= seq![b0] + tail);
            assert(all.drop_first() =~= tail);
            assert(b =~= seq![b0] + rest);
            assert(b + percent_decode_bytes(x) =~= seq![b0] + (rest + percent_decode_bytes(x)));
        } else {
            let hi = b0 / 16;
            let lo = b0 % 16;
            lemma_hex_digit(hi);
            lemma_hex_digit(lo);
            assert(is_ascii_chars(e0));
            lemma_ascii_encoding(e0);
            let h = hex_digit_char(hi) as u8;
            let l = hex_digit_char(lo) as u8;
            assert(all =~= seq![37u8, h, l] + tail);
            assert(all.subrange(3, all.len() as int) =~= tail);
            assert((hex_value(h) * 16 + hex_value(l)) as u8 == b0) by (nonlinear_arith)
                requires
                    hex_value(h) == b0 / 16,
                    hex_value(l) == b0 % 16,
            ;
            assert(b =~= seq![b0] + rest);
            assert(b + percent_decode_bytes(x) =~= seq![b0] + (rest + percent_decode_bytes(x)));
        }
    }
}

/// Decoding the UTF-8 bytes of an encoded path gives back the path's bytes,
/// whatever follows.
proof fn lemma_decode_encoded_path(p: Seq<char>, x: Seq<u8>)
    ensures
        percent_decode_bytes(encode_utf8(encode_path(p)) + x) == encode_utf8(p)
            + percent_decode_bytes(x),
    decreases p.len(),
{
    if p.len() == 0 {
        assert(encode_utf8(encode_path(p)) + x =~= x);
        assert(encode_utf8(p) + percent_decode_bytes(x) =~= percent_decode_bytes(x));
    } else {
        let c = p[0];
        let rest = p.drop_first();
        let head = seq![c];
        lemma_encode_utf8_concat(encode_path_char(c), encode_path(rest));
        lemma_encode_utf8_concat(head, rest);
        assert(p =~= head + rest);
        lemma_decode_encoded_path(rest, x);
        let tail = encode_utf8(encode_path(rest)) + x;
        let all = encode_utf8(encode_path(p)) + x;
        assert(all =~= encode_utf8(encode_path_char(c)) + tail);
        if c == '/' {
            assert(is_ascii_chars(head));
            lemma_ascii_encoding(head);
            assert(all =~= seq![47u8] + tail);
            assert(all.drop_first() =~= tail);
            assert(encode_utf8(p) + percent_decode_bytes(x) =~= seq![47u8] + (encode_utf8(rest)
                + percent_decode_bytes(x)));
        } else {
            lemma_decode_encoded_bytes(encode_utf8(head), tail);
            assert(encode_utf8(p) + percent_decode_bytes(x) =~= encode_utf8(head) + (encode_utf8(
                rest,
            ) + percent_decode_bytes(x)));
        }
    }
}

/// Encoding an absolute path in Normalization Form C as a file URL and
/// decoding that URL gives the path back.
pub proof fn lemma_path_round_trip(p: Seq<char>)
    requires
        nfc_of(p) == p,
        p.len() > 0 && p[0] == '/',
    ensures
        path_of_file_url(file_url_of(p)) == Some(p),
{
    let u = file_url_of(p);
    let rest = u.subrange(7, u.len() as int);
    assert(u.subrange(0, 7) =~= file_scheme());
    assert(rest =~= encode_path(p));
    assert(encode_path_char(p[0]) =~= seq!['/']);
    assert(rest[0] == '/');
    lemma_decode_encoded_path(p, seq![]);
    assert(encode_utf8(encode_path(p)) + seq![] =~= encode_utf8(encode_path(p)));
    assert(encode_utf8(p) + percent_decode_bytes(seq![]) =~= encode_utf8(p));
    encode_utf8_valid_utf8(p);
    encode_utf8_decode_utf8(p);
}

/// A file URL without host whose percent-decoded path is in Normalization
/// Form C, and the URL that its path encodes to, percent-decode to the same
/// text: re-encoding only makes the percent-encoding canonical.
pub proof fn lemma_url_round_trip(u: Seq<char>, p: Seq<char>)
    requires
        path_of_file_url(u) == Some(p),
        u.len() > 7 && u[7] == '/',
        nfc_of(percent_decoded(u.subrange(7, u.len() as int))) == percent_decoded(
            u.subrange(7, u.len() as int),
        ),
    ensures
        percent_decoded(file_url_of(p).subrange(7, file_url_of(p).len() as int))
            == percent_decoded(u.subrange(7, u.len() as int)),
{
    let e = file_url_of(p);
    assert(e.subrange(7, e.len() as int) =~= encode_path(p));
    lemma_decode_encoded_path(p, seq![]);
    assert(encode_utf8(encode_path(p)) + seq![] =~= encode_utf8(encode_path(p)));
    assert(encode_utf8(p) + percent_decode_bytes(seq![]) =~= encode_utf8(p));
    encode_utf8_decode_utf8(p);
}

/// Converts a path to a `file://` URL, percent-encoding each of its segments
/// on its own so that the separators stay as they are.
pub fn path_to_file_url(path: &str) -> (r: String)
    ensures
        r@ == file_url_of(path@),
{
    let n = path.unicode_len();
    let mut out = String::from_str("file://");
    proof {
        reveal_strlit("file://");
        reveal_strlit("/");
        assert(path@.subrange(0, 0) =~= Seq::<char>::empty());
    }
    let mut start: usize = 0;
    let mut i: usize = 0;
    while i < n
        invariant
            n == path@.len(),
            start <= i <= n,
            out@ == file_scheme() + encode_path(path@.subrange(0, start as int)),
            forall|k: int| start <= k < i ==> path@[k] != '/',
        decreases n - i,
    {
        if path.get_char(i) == '/' {
            let seg = path.substring_char(start, i);
            let enc = percent_encode(seg);
            let ghost old_out = out@;
            out.append(enc.as_str());
            out.append("/");
            proof {
                reveal_strlit("/");
                assert(out@ =~= old_out + enc@ + seq!['/']);
                let before = path@.subrange(0, start as int);
                let sep = seq![path@[i as int]];
                lemma_encode_segment(seg@);
                lemma_encode_path_concat(before, seg@);
                lemma_encode_path_concat(before + seg@, sep);
                assert(path@.subrange(0, i + 1) =~= before + seg@ + sep);
                assert(sep[0] == '/');
                assert(sep.drop_first() =~= Seq::<char>::empty());
                assert(encode_path(Seq::<char>::empty()) =~= Seq::<char>::empty());
                assert(encode_path(sep) =~= seq!['/']);
                assert(out@ =~= file_scheme() + encode_path(path@.subrange(0, i + 1)));
            }
            start = i + 1;
        }
        i = i + 1;
    }
    let seg = path.substring_char(start, n);
    let enc = percent_encode(seg);
    out.append(enc.as_str());
    proof {
        let before = path@.subrange(0, start as int);
        lemma_encode_segment(seg@);
        lemma_encode_path_concat(before, seg@);
        assert(path@ =~= before + seg@);
    }
    out
}

fn has_file_scheme(s: &str, n: usize) -> (r: bool)
    requires
        n == s@.len(),
    ensures
        r == (n >= 7 && s@.subrange(0, 7) == file_scheme()),
{
    if n < 7 {
        return false;
    }
    let r = s.get_char(0) == 'f' && s.get_char(1) == 'i' && s.get_char(2) == 'l' && s.get_char(3)
        == 'e' && s.get_char(4) == ':' && s.get_char(5) == '/' && s.get_char(6) == '/';
    assert(r == (s@.subrange(0, 7) =~= file_scheme()));
    r
}

fn has_localhost_dir(s: &str, n: usize) -> (r: bool)
    requires
        n == s@.len(),
    ensures
        r == (n >= 10 && s@.subrange(0, 10) == localhost_dir()),
{
    if n < 10 {
        return false;
    }
    let r = s.get_char(0) == 'l' && s.get_char(1) == 'o' && s.get_char(2) == 'c' && s.get_char(3)
        == 'a' && s.get_char(4) == 'l' && s.get_char(5) == 'h' && s.get_char(6) == 'o'
        && s.get_char(7) == 's' && s.get_char(8) == 't' && s.get_char(9) == '/';
    assert(r == (s@.subrange(0, 10) =~= localhost_dir()));
    r
}

/// Converts a `file://` URL to the path it names: the percent-decoded path
/// part, in Normalization Form C. `None` when the URL has another scheme, a
/// host other than `localhost`, or decoded bytes that are not UTF-8.
pub fn file_url_to_path(file_url: &str) -> (r: Option<String>)
    ensures
        match r {
            Some(p) => path_of_file_url(file_url@) == Some(p@) && nfc_of(p@) == p@,
            None => path_of_file_url(file_url@) is None,
        },
{
    let n = file_url.unicode_len();
    if !has_file_scheme(file_url, n) {
        return None;
    }
    let rest = file_url.substring_char(7, n);
    let m = n - 7;
    let path_part = if m > 0 && rest.get_char(0) == '/' {
        rest
    } else if has_localhost_dir(rest, m) {
        rest.substring_char(9, m)
    } else {
        return None;
    };
    match percent_decode(path_part) {
        Some(decoded) => Some(nfc(decoded.as_str())),
        None => None,
    }
}

} // verus!
