//! What the handshake says and how its answer is read, character by character.

use crate::handshake;
use crate::handshake::HandshakeView;
use crate::outside;
use crate::text;
use vstd::prelude::*;
use vstd::utf8;

verus! {

// ---------------------------------------------------------------- the request

/// The request asks for the path at the host, names the key, and ends with the
/// headers of the caller and an empty line.
pub proof fn law_request_text(
    path: Seq<char>,
    host: Seq<char>,
    key: Seq<char>,
    headers: Seq<(&str, &str)>,
)
    ensures
        handshake::request_text(path, host, key, headers) == "GET "@ + path
            + " HTTP/1.1\r\nHost: "@ + host
            + "\r\nUpgrade: websocket\r\nConnection: Upgrade\r\nSec-WebSocket-Key: "@ + key
            + "\r\nSec-WebSocket-Version: 13\r\n"@ + handshake::header_lines(
            headers,
            headers.len(),
        ) + "\r\n"@,
{
}

/// Every header of the caller is a line of its own, in order and whole.
pub proof fn law_header_lines(headers: Seq<(&str, &str)>, n: nat)
    requires
        n < headers.len(),
    ensures
        handshake::header_lines(headers, 0).len() == 0,
        handshake::header_lines(headers, n + 1) == handshake::header_lines(headers, n)
            + headers[n as int].0@ + ": "@ + headers[n as int].1@ + "\r\n"@,
{
    let before = handshake::header_lines(headers, n);
    assert(handshake::header_lines(headers, n + 1) =~= before + headers[n as int].0@ + ": "@
        + headers[n as int].1@ + "\r\n"@);
}

/// The proof of a key is the base64 encoding of the digest of the key with the
/// identifier of the protocol behind it.
pub proof fn law_proof_of_key(key: Seq<char>)
    ensures
        handshake::accept_of(key) == outside::base64_standard(
            outside::sha1_of(
                utf8::encode_utf8(key) + utf8::encode_utf8("258EAFA5-E914-47DA-95CA-C5AB0DC85B11"@),
            ),
        ),
{
}

// ---------------------------------------------------------------- the head of the answer

/// Whether the four bytes at `i` are two line ends.
pub open spec fn ends_head(s: Seq<u8>, i: int) -> bool {
    s[i] == 13 && s[i + 1] == 10 && s[i + 2] == 13 && s[i + 3] == 10
}

proof fn lemma_head_end_from(s: Seq<u8>, i: int)
    requires
        0 <= i,
    ensures
        handshake::head_end_from(s, i) matches Some(e) ==> i + 4 <= e <= s.len() && ends_head(
            s,
            e - 4,
        ) && forall|j: int| i <= j < e - 4 ==> !#[trigger] ends_head(s, j),
        handshake::head_end_from(s, i) is None ==> forall|j: int|
            i <= j <= s.len() - 4 ==> !#[trigger] ends_head(s, j),
    decreases s.len() - i,
{
    if i + 4 <= s.len() && !handshake::is_break(s, i) {
        lemma_head_end_from(s, i + 1);
        assert(!ends_head(s, i));
    }
}

/// The head ends after the first two line ends in a row, and nowhere without
/// them.
pub proof fn law_head_end_is_the_first(s: Seq<u8>)
    ensures
        handshake::head_end(s) matches Some(e) ==> 4 <= e <= s.len() && ends_head(s, e - 4)
            && forall|j: int| 0 <= j < e - 4 ==> !#[trigger] ends_head(s, j),
        handshake::head_end(s) is None ==> forall|j: int|
            0 <= j <= s.len() - 4 ==> !#[trigger] ends_head(s, j),
{
    lemma_head_end_from(s, 0);
}

// ---------------------------------------------------------------- lines

/// A line ends with a line feed, with or without a carriage return before it, or
/// with the text.
pub proof fn law_line_ends(line: Seq<char>, rest: Seq<char>)
    requires
        !line.contains('\n'),
    ensures
        handshake::next_line(line + seq!['\r', '\n'] + rest) == (line, rest),
        line.len() == 0 || line.last() != '\r' ==> handshake::next_line(line + seq!['\n'] + rest)
            == (line, rest),
        handshake::next_line(line) == (line, Seq::<char>::empty()),
{
    let n = line.len() as int;
    assert forall|i: int| 0 <= i < n implies line[i] != '\n' by {
        if line[i] == '\n' {
            assert(line.contains('\n'));
        }
    }
    let crlf = line + seq!['\r', '\n'] + rest;
    assert forall|i: int| 0 <= i < n + 1 implies crlf[i] != '\n' by {
        if i < n {
            assert(crlf[i] == line[i]);
        }
    }
    text::lemma_first_at_unique(crlf, '\n', n + 1);
    assert(crlf.take(n) =~= line);
    assert(crlf.skip(n + 2) =~= rest);
    let lf = line + seq!['\n'] + rest;
    assert forall|i: int| 0 <= i < n implies lf[i] != '\n' by {
        assert(lf[i] == line[i]);
    }
    text::lemma_first_at_unique(lf, '\n', n);
    assert(lf.take(n) =~= line);
    assert(lf.skip(n + 1) =~= rest);
    if n > 0 {
        assert(lf[n - 1] == line.last());
    }
    text::lemma_first_at_unique(line, '\n', n);
}

/// A line with a colon is a header with what stands before the first colon as
/// its name; it is the one that is looked for where the names are the same but
/// for letter case, and its value is what follows without whitespace around it.
pub proof fn law_header_line(given: Seq<char>, value: Seq<char>, name: Seq<char>)
    requires
        !given.contains(':'),
    ensures
        text::same_ignoring_case(given, name) ==> handshake::value_of(
            given + seq![':'] + value,
            name,
        ) == Some(text::trimmed(value)),
        !text::same_ignoring_case(given, name) ==> handshake::value_of(
            given + seq![':'] + value,
            name,
        ) is None,
        handshake::value_of(given, name) is None,
{
    let n = given.len() as int;
    assert forall|i: int| 0 <= i < n implies given[i] != ':' by {
        if given[i] == ':' {
            assert(given.contains(':'));
        }
    }
    let line = given + seq![':'] + value;
    assert forall|i: int| 0 <= i < n implies line[i] != ':' by {
        assert(line[i] == given[i]);
    }
    text::lemma_first_at_unique(line, ':', n);
    assert(line.take(n) =~= given);
    assert(line.skip(n + 1) =~= value);
    text::lemma_first_at_unique(given, ':', n);
}

/// The first line that is the header gives the value; the others are passed
/// over, and without one there is none.
pub proof fn law_first_header_counts(s: Seq<char>, name: Seq<char>)
    ensures
        s.len() == 0 ==> handshake::header_value(s, name) is None,
        s.len() > 0 && handshake::value_of(handshake::next_line(s).0, name) is Some
            ==> handshake::header_value(s, name) == handshake::value_of(
            handshake::next_line(s).0,
            name,
        ),
        s.len() > 0 && handshake::value_of(handshake::next_line(s).0, name) is None
            ==> handshake::header_value(s, name) == handshake::header_value(
            handshake::next_line(s).1,
            name,
        ),
{
}

/// An answer is a refusal unless it starts with the status of a switch; then the
/// proof of the key decides.
pub proof fn law_answer_decides(head: Seq<char>, expected: Seq<char>)
    ensures
        ({
            let status = "HTTP/1.1 101 "@;
            let switches = head.len() >= status.len() && head.take(status.len() as int) == status;
            let proved = handshake::header_value(head, "Sec-WebSocket-Accept"@) == Some(expected);
            &&& !switches ==> handshake::handshake_view(head, expected) == HandshakeView::Rejected
            &&& switches && proved ==> handshake::handshake_view(head, expected)
                == HandshakeView::Accepted
            &&& switches && !proved ==> handshake::handshake_view(head, expected)
                == HandshakeView::BadAccept
        }),
{
}

/// The quotation of a refusal is the longest start of at most 200 bytes that
/// cuts no character.
pub proof fn law_quotation_has_two_hundred_bytes(head: Seq<char>)
    ensures
        ({
            let data = utf8::encode_utf8(head);
            let n = handshake::quoted_size(head);
            &&& 0 <= n <= data.len() && n <= 200
            &&& utf8::is_char_boundary(data, n)
            &&& forall|m: int|
                n < m <= data.len() && m <= 200 ==> !#[trigger] utf8::is_char_boundary(data, m)
        }),
{
    handshake::law_quotation(head);
}

} // verus!
