//! The calls that leave the verified library.

use vstd::prelude::*;
use vstd::utf8::{decode_utf8, valid_utf8};

verus! {

/// `String::push`: appends one character to the end of the string.
pub assume_specification[ String::push ](s: &mut String, c: char)
    ensures
        final(s)@ == old(s)@.push(c),
;

/// `uuid::Uuid::new_v4` and `into_bytes`: sixteen bytes from the operating
/// system's random source, of which the version and variant bits are fixed to
/// those of a random identifier. Nothing is claimed of the other bits. The call
/// panics where the operating system has no random source.
#[verifier::external_body]
pub(crate) fn random_uuid() -> (id: [u8; 16])
    ensures
        id@[6] / 16 == 4,
        128 <= id@[8] < 192,
{
    uuid::Uuid::new_v4().into_bytes()
}

/// The character of standard base64 for the six bits `n`.
pub open spec fn base64_char(n: int) -> char {
    if n < 26 {
        ('A' as int + n) as char
    } else if n < 52 {
        ('a' as int + n - 26) as char
    } else if n < 62 {
        ('0' as int + n - 52) as char
    } else if n == 62 {
        '+'
    } else {
        '/'
    }
}

/// Four characters for one to three bytes; what is missing of three is padded.
pub open spec fn base64_group(g: Seq<u8>) -> Seq<char> {
    let b1: int = if g.len() > 1 {
        g[1] as int
    } else {
        0
    };
    let b2: int = if g.len() > 2 {
        g[2] as int
    } else {
        0
    };
    let n = g[0] * 0x1_0000 + b1 * 0x100 + b2;
    seq![
        base64_char(n / 0x4_0000),
        base64_char(n / 0x1000 % 64),
        if g.len() > 1 {
            base64_char(n / 64 % 64)
        } else {
            '='
        },
        if g.len() > 2 {
            base64_char(n % 64)
        } else {
            '='
        },
    ]
}

/// The standard base64 encoding of `data`, with padding: group after group of
/// three bytes.
pub open spec fn base64_standard(data: Seq<u8>) -> Seq<char>
    decreases data.len(),
{
    if data.len() == 0 {
        seq![]
    } else if data.len() <= 3 {
        base64_group(data)
    } else {
        base64_group(data.take(3)) + base64_standard(data.skip(3))
    }
}

/// Whether `c` occurs in standard base64 text.
pub open spec fn is_base64_char(c: char) -> bool {
    'A' <= c <= 'Z' || 'a' <= c <= 'z' || '0' <= c <= '9' || c == '+' || c == '/' || c == '='
}

/// Standard base64 text has four characters for every three bytes begun, all of
/// the alphabet or padding.
pub proof fn law_base64_shape(data: Seq<u8>)
    ensures
        base64_standard(data).len() == (data.len() + 2) / 3 * 4,
        forall|i: int|
            0 <= i < base64_standard(data).len() ==> is_base64_char(
                #[trigger] base64_standard(data)[i],
            ),
    decreases data.len(),
{
    if data.len() > 3 {
        law_base64_shape(data.skip(3));
    }
}

/// `base64::Engine::encode` of the engine `STANDARD`: the standard base64
/// encoding, with padding. The length is kept within what a string can hold,
/// beyond which the call panics.
#[verifier::external_body]
pub(crate) fn base64_encode(data: &[u8]) -> (r: String)
    requires
        (data@.len() + 2) / 3 * 4 <= isize::MAX,
    ensures
        r@ == base64_standard(data@),
{
    base64::Engine::encode(&base64::engine::general_purpose::STANDARD, data)
}

/// The SHA-1 digest of `data`.
pub uninterp spec fn sha1_of(data: Seq<u8>) -> Seq<u8>;

/// `sha1::Sha1::digest`: a function of the bytes alone, twenty bytes long.
#[verifier::external_body]
pub(crate) fn sha1_digest(data: &[u8]) -> (r: Vec<u8>)
    ensures
        r@ == sha1_of(data@),
        r@.len() == 20,
{
    <sha1::Sha1 as sha1::Digest>::digest(data).to_vec()
}

/// `data` as text, where what is not UTF-8 is replaced.
pub uninterp spec fn utf8_lossy(data: Seq<u8>) -> Seq<char>;

/// `String::from_utf8_lossy`: a function of the bytes alone, which decodes
/// UTF-8. What stands in the place of malformed bytes is not stated.
#[verifier::external_body]
pub(crate) fn text_lossy(data: &[u8]) -> (r: String)
    ensures
        r@ == utf8_lossy(data@),
        valid_utf8(data@) ==> r@ == decode_utf8(data@),
{
    String::from_utf8_lossy(data).into_owned()
}

/// Whether a TLS server can go by the name `host`.
pub uninterp spec fn is_server_name(host: Seq<char>) -> bool;

/// `rustls::pki_types::ServerName::try_from`: whether the text is a host name or
/// an address that a TLS server can be known by, a function of the text alone.
#[verifier::external_body]
pub(crate) fn names_server(host: &str) -> (r: bool)
    ensures
        r == is_server_name(host@),
{
    tokio_rustls::rustls::pki_types::ServerName::try_from(host).is_ok()
}

/// The error of an input or output operation.
#[verifier::external_type_specification]
#[verifier::external_body]
pub struct ExIoError(std::io::Error);

/// `data` as one gzip member, where it can be compressed.
pub uninterp spec fn gzip_of(data: Seq<u8>) -> Option<Seq<u8>>;

/// The data of the gzip member that `data` starts with, where there is one.
pub uninterp spec fn gunzip_of(data: Seq<u8>) -> Option<Seq<u8>>;

/// `flate2::write::GzEncoder` over a vector, at the default level: whether it
/// succeeds and what it writes is a function of the bytes alone (no time stamp
/// and no operating system are recorded), and what it writes decompresses to
/// the same bytes.
#[verifier::external_body]
pub(crate) fn gzip_compress(data: &[u8]) -> (r: Result<Vec<u8>, std::io::Error>)
    ensures
        match r {
            Ok(z) => gzip_of(data@) == Some(z@) && gunzip_of(z@) == Some(data@),
            Err(_) => gzip_of(data@) is None,
        },
{
    let mut enc = flate2::write::GzEncoder::new(Vec::new(), flate2::Compression::default());
    std::io::Write::write_all(&mut enc, data)?;
    enc.finish()
}

/// `flate2::read::GzDecoder` read to its end: whether it succeeds and what it
/// gives is a function of the bytes alone.
#[verifier::external_body]
pub(crate) fn gzip_decompress(data: &[u8]) -> (r: Result<Vec<u8>, std::io::Error>)
    ensures
        match r {
            Ok(d) => gunzip_of(data@) == Some(d@),
            Err(_) => gunzip_of(data@) is None,
        },
{
    let mut out: Vec<u8> = Vec::new();
    std::io::Read::read_to_end(&mut flate2::read::GzDecoder::new(data), &mut out)?;
    Ok(out)
}

/// What is wrong with `body` as JSON, if anything.
pub uninterp spec fn json_error(body: Seq<u8>) -> Option<Seq<char>>;

/// The member `key` of the JSON object `body`, where it is an integer of 64 bits.
pub uninterp spec fn json_integer(body: Seq<u8>, key: Seq<char>) -> Option<i64>;

/// The member `key` of the JSON object `body`, where it is a string.
pub uninterp spec fn json_string(body: Seq<u8>, key: Seq<char>) -> Option<Seq<char>>;

/// The string at `pointer` in the JSON value `body`, where there is one.
pub uninterp spec fn json_string_at(body: Seq<u8>, pointer: Seq<char>) -> Option<Seq<char>>;

/// The member `key` of the JSON object `body`, where it is true or false.
pub uninterp spec fn json_flag(body: Seq<u8>, key: Seq<char>) -> Option<bool>;

/// A string by its characters.
pub open spec fn opt_view(s: Option<String>) -> Option<Seq<char>> {
    match s {
        Some(t) => Some(t@),
        None => None,
    }
}

/// `serde_json::from_slice` to a `Value`, then `get` with `as_i64`, `as_str` and
/// `as_bool`, and `pointer` with `as_str`: each is a function of the bytes and
/// of the key or pointer alone, and so is the text of the error.
#[verifier::external_body]
pub(crate) fn json_members(
    body: &[u8],
    integer: &str,
    string: &str,
    pointer: &str,
    flag: &str,
) -> (r: Result<(Option<i64>, Option<String>, Option<String>, Option<bool>), String>)
    ensures
        match r {
            Ok(m) => {
                &&& json_error(body@) is None
                &&& m.0 == json_integer(body@, integer@)
                &&& opt_view(m.1) == json_string(body@, string@)
                &&& opt_view(m.2) == json_string_at(body@, pointer@)
                &&& m.3 == json_flag(body@, flag@)
            },
            Err(e) => json_error(body@) == Some(e@),
        },
{
    let v: serde_json::Value = serde_json::from_slice(body).map_err(|e| e.to_string())?;
    Ok((
        v.get(integer).and_then(|x| x.as_i64()),
        v.get(string).and_then(|x| x.as_str()).map(|x| x.to_string()),
        v.pointer(pointer).and_then(|x| x.as_str()).map(|x| x.to_string()),
        v.get(flag).and_then(|x| x.as_bool()),
    ))
}

/// A value inside a JSON object.
#[derive(Debug, PartialEq, Eq)]
pub enum JsonScalar {
    Text(String),
    Number(u32),
    Flag(bool),
}

/// A value inside a JSON object.
pub enum ScalarView {
    Text(Seq<char>),
    Number(u32),
    Flag(bool),
}

impl View for JsonScalar {
    type V = ScalarView;

    open spec fn view(&self) -> ScalarView {
        match self {
            JsonScalar::Text(s) => ScalarView::Text(s@),
            JsonScalar::Number(n) => ScalarView::Number(*n),
            JsonScalar::Flag(b) => ScalarView::Flag(*b),
        }
    }
}

/// The members of a JSON object by their names.
pub open spec fn members_view(members: Seq<(String, JsonScalar)>) -> Seq<(Seq<char>, ScalarView)> {
    Seq::new(members.len(), |i: int| (members[i].0@, members[i].1@))
}

/// A JSON object of JSON objects by their names.
pub open spec fn sections_view(sections: Seq<(String, Vec<(String, JsonScalar)>)>) -> Seq<
    (Seq<char>, Seq<(Seq<char>, ScalarView)>),
> {
    Seq::new(sections.len(), |i: int| (sections[i].0@, members_view(sections[i].1@)))
}

/// The compact text of a JSON object of JSON objects.
pub uninterp spec fn json_text(sections: Seq<(Seq<char>, Seq<(Seq<char>, ScalarView)>)>) -> Seq<
    char,
>;

/// `to_string` of a `serde_json::Value` that holds the sections as objects: a
/// function of the names and values alone.
#[verifier::external_body]
pub(crate) fn json_render(sections: Vec<(String, Vec<(String, JsonScalar)>)>) -> (r: String)
    ensures
        r@ == json_text(sections_view(sections@)),
{
    let object = |members: Vec<(String, JsonScalar)>| {
        serde_json::Value::from_iter(members.into_iter().map(|(name, value)| match value {
            JsonScalar::Text(s) => (name, serde_json::Value::from(s)),
            JsonScalar::Number(n) => (name, serde_json::Value::from(n)),
            JsonScalar::Flag(b) => (name, serde_json::Value::from(b)),
        }))
    };
    serde_json::Value::from_iter(sections.into_iter().map(|(name, members)| (name, object(members)))).to_string()
}

} // verus!
