//! The opening handshake of a WebSocket connection.

use crate::bytes;
use crate::outside;
use crate::outside::{base64_encode, random_uuid, sha1_digest, text_lossy};
use crate::text;
use crate::ws::{StreamView, WsError, WsStream};
use vstd::prelude::*;
use vstd::slice::slice_subrange;
use vstd::string::*;
use vstd::utf8;

verus! {

/// What a server appends to the key before it digests it.
pub const WS_GUID: &'static str = "258EAFA5-E914-47DA-95CA-C5AB0DC85B11";

/// The largest answer to a handshake that is read.
pub const MAX_RESPONSE_SIZE: usize = 8192;

/// How much of an answer that refuses the handshake is quoted.
pub const QUOTED_SIZE: usize = 200;

// ---------------------------------------------------------------- the key

/// A fresh random key: the base64 encoding of sixteen bytes.
pub fn client_key() -> (key: String)
    ensures
        exists|id: Seq<u8>|
            id.len() == 16 && id[6] / 16 == 4 && 128 <= id[8] < 192 && key@
                == #[trigger] outside::base64_standard(id),
        key@.len() == 24,
        forall|i: int| 0 <= i < key@.len() ==> outside::is_base64_char(#[trigger] key@[i]),
{
    let id: [u8; 16] = random_uuid();
    proof {
        outside::law_base64_shape(id@);
    }
    base64_encode(id.as_slice())
}

/// What a server that read `key` answers.
pub open spec fn accept_of(key: Seq<char>) -> Seq<char> {
    outside::base64_standard(
        outside::sha1_of(utf8::encode_utf8(key) + utf8::encode_utf8(WS_GUID@)),
    )
}

/// What a server that read `key` answers.
pub fn expected_accept(key: &str) -> (r: String)
    ensures
        r@ == accept_of(key@),
{
    let mut data: Vec<u8> = Vec::new();
    bytes::append_bytes(&mut data, key.as_bytes());
    bytes::append_bytes(&mut data, WS_GUID.as_bytes());
    assert(data@ =~= utf8::encode_utf8(key@) + utf8::encode_utf8(WS_GUID@));
    let digest: Vec<u8> = sha1_digest(data.as_slice());
    base64_encode(digest.as_slice())
}

// ---------------------------------------------------------------- the request

/// One header line.
pub open spec fn header_line(name: Seq<char>, value: Seq<char>) -> Seq<char> {
    name + ": "@ + value + "\r\n"@
}

/// The first `n` header lines.
pub open spec fn header_lines(headers: Seq<(&str, &str)>, n: nat) -> Seq<char>
    decreases n,
{
    if n == 0 {
        seq![]
    } else {
        header_lines(headers, (n - 1) as nat) + header_line(headers[n - 1].0@, headers[n - 1].1@)
    }
}

/// The request that asks a server to switch protocols.
pub open spec fn request_text(
    path: Seq<char>,
    host: Seq<char>,
    key: Seq<char>,
    headers: Seq<(&str, &str)>,
) -> Seq<char> {
    "GET "@ + path + " HTTP/1.1\r\nHost: "@ + host
        + "\r\nUpgrade: websocket\r\nConnection: Upgrade\r\nSec-WebSocket-Key: "@ + key
        + "\r\nSec-WebSocket-Version: 13\r\n"@ + header_lines(headers, headers.len()) + "\r\n"@
}

/// The request that asks a server to switch protocols, with `headers` of the
/// caller's own.
pub fn upgrade_request(path: &str, host: &str, key: &str, headers: &[(&str, &str)]) -> (r: String)
    ensures
        r@ == request_text(path@, host@, key@, headers@),
{
    let mut req: String = String::new();
    req.append("GET ");
    req.append(path);
    req.append(" HTTP/1.1\r\nHost: ");
    req.append(host);
    req.append("\r\nUpgrade: websocket\r\nConnection: Upgrade\r\nSec-WebSocket-Key: ");
    req.append(key);
    req.append("\r\nSec-WebSocket-Version: 13\r\n");
    let ghost start = req@;
    let mut i: usize = 0;
    assert(start =~= start + header_lines(headers@, 0));
    while i < headers.len()
        invariant
            i <= headers@.len(),
            req@ == start + header_lines(headers@, i as nat),
        decreases headers@.len() - i,
    {
        let ghost before = req@;
        req.append(headers[i].0);
        req.append(": ");
        req.append(headers[i].1);
        req.append("\r\n");
        assert(req@ =~= before + header_line(headers@[i as int].0@, headers@[i as int].1@));
        assert(req@ =~= start + header_lines(headers@, (i + 1) as nat));
        i = i + 1;
    }
    req.append("\r\n");
    assert(req@ =~= request_text(path@, host@, key@, headers@));
    req
}

// ---------------------------------------------------------------- the answer

/// Whether an empty line follows the line that ends at `i`.
pub open spec fn is_break(s: Seq<u8>, i: int) -> bool {
    &&& i + 4 <= s.len()
    &&& s[i] == 13
    &&& s[i + 1] == 10
    &&& s[i + 2] == 13
    &&& s[i + 3] == 10
}

/// Where the head of an answer ends, looked for from `i` on.
pub open spec fn head_end_from(s: Seq<u8>, i: int) -> Option<int>
    decreases s.len() - i,
{
    if i + 4 > s.len() {
        None
    } else if is_break(s, i) {
        Some(i + 4)
    } else {
        head_end_from(s, i + 1)
    }
}

/// Where the head of an answer ends: after the first empty line.
pub open spec fn head_end(s: Seq<u8>) -> Option<int> {
    head_end_from(s, 0)
}

/// Finds where the head of an answer ends.
pub fn find_head_end(s: &[u8]) -> (r: Option<usize>)
    ensures
        r is Some <==> head_end(s@) is Some,
        r is Some ==> r->0 == head_end(s@)->0 && 4 <= r->0 <= s@.len(),
{
    let n: usize = s.len();
    let mut i: usize = 0;
    while n >= 4 && i <= n - 4
        invariant
            n == s@.len(),
            n >= 4 ==> i <= n - 3,
            n < 4 ==> i == 0,
            head_end(s@) == head_end_from(s@, i as int),
        decreases n - i,
    {
        if s[i] == 13 && s[i + 1] == 10 && s[i + 2] == 13 && s[i + 3] == 10 {
            return Some(i + 4);
        }
        i = i + 1;
    }
    None
}

/// The answer to a handshake as far as it has been read.
#[derive(Debug)]
pub struct Handshake {
    pub resp: Vec<u8>,
}

impl Handshake {
    /// Nothing has been read yet.
    pub fn new() -> (r: Handshake)
        ensures
            r.resp@ == Seq::<u8>::empty(),
    {
        Handshake { resp: Vec::new() }
    }

    /// Takes what one read gave; nothing means that the connection has ended.
    /// Says where the head ends once it is complete.
    pub fn receive(&mut self, chunk: &[u8]) -> (r: Result<Option<usize>, WsError>)
        ensures
            final(self).resp@ == old(self).resp@ + chunk@,
            chunk@.len() == 0 ==> r == Err::<Option<usize>, WsError>(WsError::HandshakeClosed),
            chunk@.len() > 0 && final(self).resp@.len() > MAX_RESPONSE_SIZE ==> r == Err::<
                Option<usize>,
                WsError,
            >(WsError::HandshakeTooLarge),
            chunk@.len() > 0 && final(self).resp@.len() <= MAX_RESPONSE_SIZE ==> r is Ok && (
            r->Ok_0 is Some <==> head_end(final(self).resp@) is Some) && (r->Ok_0 is Some ==> (
            r->Ok_0)->0 == head_end(final(self).resp@)->0 && (r->Ok_0)->0
                <= final(self).resp@.len()),
    {
        if chunk.len() == 0 {
            assert(self.resp@ =~= self.resp@ + chunk@);
            return Err(WsError::HandshakeClosed);
        }
        bytes::append_bytes(&mut self.resp, chunk);
        if self.resp.len() > MAX_RESPONSE_SIZE {
            return Err(WsError::HandshakeTooLarge);
        }
        Ok(find_head_end(self.resp.as_slice()))
    }
}

/// The first line of `s`, without its line ending, and what follows it.
pub open spec fn next_line(s: Seq<char>) -> (Seq<char>, Seq<char>) {
    let k = text::first_at(s, '\n');
    if k >= s.len() {
        (s, seq![])
    } else if k > 0 && s[k - 1] == '\r' {
        (s.take(k - 1), s.skip(k + 1))
    } else {
        (s.take(k), s.skip(k + 1))
    }
}

/// The value of the line `line`, where it is a header with the given name.
pub open spec fn value_of(line: Seq<char>, name: Seq<char>) -> Option<Seq<char>> {
    let k = text::first_at(line, ':');
    if k < line.len() && text::same_ignoring_case(line.take(k), name) {
        Some(text::trimmed(line.skip(k + 1)))
    } else {
        None
    }
}

/// The value of the first header with the given name in the lines of `s`.
pub open spec fn header_value(s: Seq<char>, name: Seq<char>) -> Option<Seq<char>>
    decreases s.len(),
    via header_value_decreases
{
    if s.len() == 0 {
        None
    } else {
        match value_of(next_line(s).0, name) {
            Some(v) => Some(v),
            None => header_value(next_line(s).1, name),
        }
    }
}

#[via_fn]
proof fn header_value_decreases(s: Seq<char>, name: Seq<char>) {
    text::lemma_first_at(s, '\n');
}

/// Whether the lines of `s` hold a header with the given name and whether the
/// first one has the value `want`.
pub fn header_is(s: &[char], name: &[char], want: &[char]) -> (r: bool)
    ensures
        r == (header_value(s@, name@) == Some(want@)),
{
    let n: usize = s.len();
    let mut at: usize = 0;
    assert(s@.skip(0) =~= s@);
    while at < n
        invariant
            at <= n == s@.len(),
            header_value(s@, name@) == header_value(s@.skip(at as int), name@),
        decreases n - at,
    {
        let rest: &[char] = slice_subrange(s, at, n);
        assert(rest@ =~= s@.skip(at as int));
        let k: usize = text::find_first(rest, '\n');
        let end: usize = if k < rest.len() && k > 0 && rest[k - 1] == '\r' {
            k - 1
        } else {
            k
        };
        let line: &[char] = slice_subrange(rest, 0, end);
        assert(line@ =~= next_line(rest@).0);
        let c: usize = text::find_first(line, ':');
        if c < line.len() {
            let given: &[char] = slice_subrange(line, 0, c);
            assert(given@ =~= line@.take(c as int));
            if text::same_but_case(given, name) {
                let value: &[char] = slice_subrange(line, c + 1, line.len());
                assert(value@ =~= line@.skip(c + 1));
                let (i, j) = text::trim_range(value);
                return text::same_chars(slice_subrange(value, i, j), want);
            }
        }
        if k < rest.len() {
            assert(s@.skip(at + k + 1) =~= next_line(rest@).1);
            at = at + k + 1;
        } else {
            assert(s@.skip(n as int) =~= next_line(rest@).1);
            at = n;
        }
    }
    assert(s@.skip(at as int).len() == 0);
    false
}

/// How a handshake ends.
pub enum HandshakeView {
    /// The server has switched protocols.
    Accepted,
    /// The server did not switch protocols.
    Rejected,
    /// The server did not prove that it read the key.
    BadAccept,
}

/// How a handshake ends, by the head of the answer and what was expected.
pub open spec fn handshake_view(head: Seq<char>, expected: Seq<char>) -> HandshakeView {
    if !text::starts_with(head, "HTTP/1.1 101 "@) {
        HandshakeView::Rejected
    } else if header_value(head, "Sec-WebSocket-Accept"@) == Some(expected) {
        HandshakeView::Accepted
    } else {
        HandshakeView::BadAccept
    }
}

/// The last position at or before `n` at which no character is cut.
pub open spec fn whole_until(data: Seq<u8>, n: int) -> int
    decreases n,
{
    if n <= 0 || utf8::is_char_boundary(data, n) {
        n
    } else {
        whole_until(data, n - 1)
    }
}

/// How many bytes of `head` are quoted: at most `QUOTED_SIZE`, and no character
/// in part.
pub open spec fn quoted_size(head: Seq<char>) -> int {
    let data = utf8::encode_utf8(head);
    whole_until(
        data,
        if data.len() < QUOTED_SIZE {
            data.len() as int
        } else {
            QUOTED_SIZE as int
        },
    )
}

/// How many bytes of `head` are quoted.
fn quote_size(head: &str) -> (n: usize)
    ensures
        n == quoted_size(head@),
        utf8::is_char_boundary(utf8::encode_utf8(head@), n as int),
{
    let size: usize = head.as_bytes().len();
    let mut n: usize = if size < QUOTED_SIZE {
        size
    } else {
        QUOTED_SIZE
    };
    proof {
        utf8::encode_utf8_valid_utf8(head@);
        utf8::is_char_boundary_start_end_of_seq(utf8::encode_utf8(head@));
    }
    while !head.is_char_boundary(n)
        invariant
            utf8::is_char_boundary(utf8::encode_utf8(head@), 0),
            quoted_size(head@) == whole_until(utf8::encode_utf8(head@), n as int),
        decreases n,
    {
        n = n - 1;
    }
    n
}

/// Checks the head of an answer. An answer that refuses the handshake is
/// quoted, up to a number of bytes and without cutting a character.
pub fn check_head(head: &str, expected: &str) -> (r: Result<(), WsError>)
    ensures
        match handshake_view(head@, expected@) {
            HandshakeView::Accepted => r == Ok::<(), WsError>(()),
            HandshakeView::BadAccept => r == Err::<(), WsError>(WsError::BadAccept),
            HandshakeView::Rejected => r matches Err(WsError::Rejected(q)) && utf8::encode_utf8(q@)
                == utf8::encode_utf8(head@).take(quoted_size(head@)),
        },
{
    let v: Vec<char> = text::chars_of(head);
    if !text::has_prefix(v.as_slice(), "HTTP/1.1 101 ") {
        let n: usize = quote_size(head);
        let (quoted, _) = head.split_at(n);
        let q: String = quoted.to_owned();
        assert(utf8::encode_utf8(q@) =~= utf8::encode_utf8(head@).take(n as int));
        return Err(WsError::Rejected(q));
    }
    let name: Vec<char> = text::chars_of("Sec-WebSocket-Accept");
    let want: Vec<char> = text::chars_of(expected);
    if header_is(v.as_slice(), name.as_slice(), want.as_slice()) {
        Ok(())
    } else {
        Err(WsError::BadAccept)
    }
}

impl WsStream {
    /// Opens the connection after an answer whose head is complete. Bytes after
    /// the head are kept as the first ones of the connection.
    pub fn connect(resp: &[u8], key: &str) -> (r: Result<WsStream, WsError>)
        requires
            head_end(resp@) is Some,
        ensures
            ({
                let end = head_end(resp@)->0;
                let head = outside::utf8_lossy(resp@.take(end));
                &&& utf8::valid_utf8(resp@.take(end)) ==> head == utf8::decode_utf8(resp@.take(end))
                &&& match handshake_view(head, accept_of(key@)) {
                    HandshakeView::Accepted => r matches Ok(s) && s@ == (StreamView {
                        wire: resp@.skip(end),
                        fragments: seq![],
                        opcode: None,
                    }),
                    HandshakeView::BadAccept => r == Err::<WsStream, WsError>(WsError::BadAccept),
                    HandshakeView::Rejected => r matches Err(WsError::Rejected(q))
                        && utf8::encode_utf8(q@) == utf8::encode_utf8(head).take(quoted_size(head)),
                }
            }),
    {
        let end: usize = match find_head_end(resp) {
            Some(end) => end,
            None => {
                return Err(WsError::HandshakeClosed);
            },
        };
        let head_bytes: &[u8] = slice_subrange(resp, 0, end);
        assert(head_bytes@ =~= resp@.take(end as int));
        let head: String = text_lossy(head_bytes);
        let expected: String = expected_accept(key);
        match check_head(head.as_str(), expected.as_str()) {
            Ok(()) => {
                let rest: Vec<u8> = bytes::copy_range(resp, end, resp.len());
                assert(rest@ =~= resp@.skip(end as int));
                Ok(WsStream::new(rest))
            },
            Err(e) => Err(e),
        }
    }
}

// ---------------------------------------------------------------- laws

/// The end of the head is settled once it has been seen: bytes that follow do
/// not move it.
pub proof fn law_head_end_is_settled(s: Seq<u8>, more: Seq<u8>)
    requires
        head_end(s) is Some,
    ensures
        head_end(s + more) == head_end(s),
{
    lemma_head_end_from(s, more, 0);
}

proof fn lemma_head_end_from(s: Seq<u8>, more: Seq<u8>, i: int)
    requires
        0 <= i,
        head_end_from(s, i) is Some,
    ensures
        head_end_from(s + more, i) == head_end_from(s, i),
    decreases s.len() - i,
{
    assert(is_break(s + more, i) == is_break(s, i));
    if !is_break(s, i) {
        lemma_head_end_from(s, more, i + 1);
    }
}

/// The quotation of a refusal is the longest start of it that has at most
/// `QUOTED_SIZE` bytes and cuts no character; a short refusal is quoted whole.
pub proof fn law_quotation(head: Seq<char>)
    ensures
        ({
            let data = utf8::encode_utf8(head);
            let n = quoted_size(head);
            &&& 0 <= n <= data.len() && n <= QUOTED_SIZE
            &&& utf8::is_char_boundary(data, n)
            &&& forall|m: int|
                n < m <= data.len() && m <= QUOTED_SIZE ==> !#[trigger] utf8::is_char_boundary(data, m)
            &&& data.len() <= QUOTED_SIZE ==> n == data.len()
        }),
{
    let data = utf8::encode_utf8(head);
    utf8::encode_utf8_valid_utf8(head);
    utf8::is_char_boundary_start_end_of_seq(data);
    lemma_whole_until(
        data,
        if data.len() < QUOTED_SIZE {
            data.len() as int
        } else {
            QUOTED_SIZE as int
        },
    );
}

proof fn lemma_whole_until(data: Seq<u8>, n: int)
    requires
        0 <= n,
        utf8::is_char_boundary(data, 0),
    ensures
        0 <= whole_until(data, n) <= n,
        utf8::is_char_boundary(data, whole_until(data, n)),
        forall|m: int| whole_until(data, n) < m <= n ==> !#[trigger] utf8::is_char_boundary(data, m),
    decreases n,
{
    if n > 0 && !utf8::is_char_boundary(data, n) {
        lemma_whole_until(data, n - 1);
    }
}

/// Lines without the header that is looked for are passed over.
proof fn lemma_skip_lines(before: Seq<char>, rest: Seq<char>, name: Seq<char>)
    requires
        before.len() > 0 ==> before.last() == '\n',
        header_value(before, name) is None,
    ensures
        header_value(before + rest, name) == header_value(rest, name),
    decreases before.len(),
{
    let s = before + rest;
    if before.len() == 0 {
        assert(s =~= rest);
    } else {
        text::lemma_first_at(before, '\n');
        let k = text::first_at(before, '\n');
        assert(k < before.len()) by {
            if k == before.len() {
                assert(before[before.len() - 1] == '\n');
            }
        }
        text::lemma_first_at_unique(s, '\n', k);
        let tail = before.skip(k + 1);
        assert(s.take(k) =~= before.take(k));
        assert(k > 0 ==> s.take(k - 1) =~= before.take(k - 1));
        assert(s.skip(k + 1) =~= tail + rest);
        if tail.len() > 0 {
            assert(tail.last() == before.last());
        }
        lemma_skip_lines(tail, rest, name);
    }
}

/// A header is found by its name, whatever the case of its letters, after any
/// lines that do not hold it, and whatever follows; its value is taken without
/// the whitespace around it.
pub proof fn law_header_is_found(
    before: Seq<char>,
    given: Seq<char>,
    value: Seq<char>,
    after: Seq<char>,
    name: Seq<char>,
)
    requires
        before.len() > 0 ==> before.last() == '\n',
        header_value(before, name) is None,
        text::same_ignoring_case(given, name),
        !given.contains(':'),
        !given.contains('\n'),
        !value.contains('\n'),
    ensures
        header_value(before + given + seq![':'] + value + seq!['\r', '\n'] + after, name) == Some(
            text::trimmed(value),
        ),
{
    let line = given + seq![':'] + value;
    let rest = line + seq!['\r', '\n'] + after;
    lemma_skip_lines(before, rest, name);
    assert(before + given + seq![':'] + value + seq!['\r', '\n'] + after =~= before + rest);
    let k = line.len() as int + 1;
    assert forall|i: int| 0 <= i < k implies rest[i] != '\n' by {
        if i < given.len() {
            assert(rest[i] == given[i]);
        } else if given.len() < i < line.len() {
            assert(rest[i] == value[i - given.len() - 1]);
        }
    }
    text::lemma_first_at_unique(rest, '\n', k);
    assert(rest.take(k - 1) =~= line);
    let c = given.len() as int;
    assert forall|i: int| 0 <= i < c implies line[i] != ':' by {
        assert(line[i] == given[i]);
    }
    text::lemma_first_at_unique(line, ':', c);
    assert(line.take(c) =~= given);
    assert(line.skip(c + 1) =~= value);
}

/// An answer that switches protocols and proves with any spelling of the header
/// that the key was read is accepted; one that proves another key is not.
pub proof fn law_proof_of_key_decides(
    before: Seq<char>,
    given: Seq<char>,
    value: Seq<char>,
    after: Seq<char>,
    expected: Seq<char>,
)
    requires
        text::starts_with(before, "HTTP/1.1 101 "@),
        before.last() == '\n',
        header_value(before, "Sec-WebSocket-Accept"@) is None,
        text::same_ignoring_case(given, "Sec-WebSocket-Accept"@),
        !given.contains(':'),
        !given.contains('\n'),
        !value.contains('\n'),
    ensures
        ({
            let head = before + given + seq![':'] + value + seq!['\r', '\n'] + after;
            handshake_view(head, expected) == if text::trimmed(value) == expected {
                HandshakeView::Accepted
            } else {
                HandshakeView::BadAccept
            }
        }),
{
    reveal_strlit("HTTP/1.1 101 ");
    let head = before + given + seq![':'] + value + seq!['\r', '\n'] + after;
    law_header_is_found(before, given, value, after, "Sec-WebSocket-Accept"@);
    assert(head.take(13) =~= before.take(13));
}

} // verus!
