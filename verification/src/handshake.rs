//! The upgrade handshake: request validation, accept-key derivation and the
//! `101 Switching Protocols` response.

use crate::text::{
    bytes_eq, copy_range, decode_lossy, find_separator, first_separator, lossy_text, split,
    split_bytes, trim, trim_bytes, views,
};
use base64::Engine;
use sha1::Digest;
use vstd::prelude::*;
use vstd::slice::{slice_subrange, slice_to_vec};
use vstd::string::*;
use vstd::utf8::*;

verus! {

/// The fixed GUID that the protocol appends to the client's key.
pub const WEBSOCKET_PREFIX: &'static str = "258EAFA5-E914-47DA-95CA-C5AB0DC85B11";

/// The response up to the accept key.
pub const RESPONSE_HEAD: &'static str =
    "HTTP/1.1 101 Switching Protocols\r\nUpgrade: websocket\r\nConnection: Upgrade\r\nSec-WebSocket-Accept: ";

/// The response after the accept key: end of line, then a blank line.
pub const RESPONSE_TAIL: &'static str = "\r\n\r\n";

pub const LINE_FEED: u8 = 0x0a;

pub const SPACE: u8 = 0x20;

pub const SLASH: u8 = 0x2f;

/// Why a handshake is refused.
#[derive(Clone, Copy, Debug, PartialEq, Eq, Structural)]
pub enum HandshakeError {
    /// The first line is not `GET <path> HTTP/1.1` with a path that starts with `/`.
    MalformedRequestLine,
    /// `Upgrade`, `Connection`, `Sec-WebSocket-Key` or `Sec-WebSocket-Version` is absent.
    MissingHeader,
    /// `Upgrade` is not `websocket`, `Connection` is not `Upgrade`, or the version is not `13`.
    InvalidHeader,
}

/// The SHA-1 digest of a byte sequence.
pub uninterp spec fn sha1_digest(data: Seq<u8>) -> Seq<u8>;

/// The Base64 text of a byte sequence: standard alphabet, padded.
pub uninterp spec fn base64_text(data: Seq<u8>) -> Seq<char>;

/// Hashes `data` with `sha1::Sha1::digest`, the one-shot form of the hasher.
///
/// Trusted: the result is the SHA-1 digest of `data`, which is 20 bytes long.
#[verifier::external_body]
fn sha1_of(data: &[u8]) -> (digest: Vec<u8>)
    ensures
        digest@ == sha1_digest(data@),
        digest@.len() == 20,
{
    sha1::Sha1::digest(data).to_vec()
}

/// Encodes `data` with `base64::engine::general_purpose::STANDARD.encode`.
///
/// Trusted: the result is the padded standard Base64 text of `data`. The
/// encoder fails on inputs whose encoded length does not fit in `usize`;
/// the bound keeps clear of them.
#[verifier::external_body]
fn base64_of(data: &[u8]) -> (text: String)
    requires
        data@.len() <= 0x3fff_ffff,
    ensures
        text@ == base64_text(data@),
{
    base64::engine::general_purpose::STANDARD.encode(data)
}

/// The accept key for a client key: Base64 of the SHA-1 of the key followed
/// by the protocol GUID.
pub open spec fn accept_key(client_key: Seq<u8>) -> Seq<char> {
    base64_text(sha1_digest(client_key + WEBSOCKET_PREFIX.spec_bytes()))
}

/// The response that upgrades the connection, for an accept key.
pub open spec fn response_text(accept: Seq<char>) -> Seq<char> {
    RESPONSE_HEAD@ + accept + RESPONSE_TAIL@
}

/// Whether `line` is `GET <path> HTTP/1.1`: three words parted by single
/// spaces, the path starting with `/`, the version trimmed.
pub open spec fn request_line_ok(line: Seq<u8>) -> bool {
    let words = split(line, SPACE);
    &&& words.len() == 3
    &&& words[0] == "GET".spec_bytes()
    &&& words[1].len() > 0
    &&& words[1][0] == SLASH
    &&& trim(words[2]) == "HTTP/1.1".spec_bytes()
}

/// Name and value of a header line, parted at its first `": "`; `None` for a
/// line that has no `": "`.
pub open spec fn header_parts(line: Seq<u8>) -> Option<(Seq<u8>, Seq<u8>)> {
    let at = first_separator(line);
    if at < line.len() {
        Some((line.subrange(0, at), line.subrange(at + 2, line.len() as int)))
    } else {
        None
    }
}

/// The value of the last header line named `name`.
pub open spec fn header_value(lines: Seq<Seq<u8>>, name: Seq<u8>) -> Option<Seq<u8>>
    decreases lines.len(),
{
    if lines.len() == 0 {
        None
    } else {
        match header_parts(lines.last()) {
            Some((n, v)) => if n == name {
                Some(v)
            } else {
                header_value(lines.drop_last(), name)
            },
            None => header_value(lines.drop_last(), name),
        }
    }
}

/// What a request leads to: the client's trimmed key, or the reason for
/// refusal. The request line is checked first, then that the four required
/// headers are present, then their values.
pub open spec fn handshake_outcome(request: Seq<u8>) -> Result<Seq<u8>, HandshakeError> {
    let lines = split(request, LINE_FEED);
    let headers = lines.drop_first();
    let upgrade = header_value(headers, "Upgrade".spec_bytes());
    let connection = header_value(headers, "Connection".spec_bytes());
    let key = header_value(headers, "Sec-WebSocket-Key".spec_bytes());
    let version = header_value(headers, "Sec-WebSocket-Version".spec_bytes());
    if !request_line_ok(lines[0]) {
        Err(HandshakeError::MalformedRequestLine)
    } else if upgrade is None || connection is None || key is None || version is None {
        Err(HandshakeError::MissingHeader)
    } else if trim(upgrade->0) != "websocket".spec_bytes() || trim(connection->0)
        != "Upgrade".spec_bytes() || trim(version->0) != "13".spec_bytes() {
        Err(HandshakeError::InvalidHeader)
    } else {
        Ok(trim(key->0))
    }
}

/// What the server answers to a request: the upgrade response, or the
/// refusal with nothing to write.
pub open spec fn handshake_reply(request: Seq<u8>, r: Result<String, HandshakeError>) -> bool {
    match handshake_outcome(request) {
        Ok(key) => r is Ok && r->Ok_0@ == response_text(accept_key(key)),
        Err(e) => r is Err && r->Err_0 == e,
    }
}

/// Rejection: a request is refused if its first line is malformed, if it
/// has no `Sec-WebSocket-Version` header, or if that header is not `13`; and
/// a refused request gets no response.
pub proof fn lemma_handshake_rejection(request: Seq<u8>, r: Result<String, HandshakeError>)
    requires
        handshake_reply(request, r),
    ensures
        !request_line_ok(split(request, LINE_FEED)[0]) ==> r == Err::<String, HandshakeError>(
            HandshakeError::MalformedRequestLine,
        ),
        header_value(
            split(request, LINE_FEED).drop_first(),
            "Sec-WebSocket-Version".spec_bytes(),
        ) is None ==> r is Err,
        header_value(split(request, LINE_FEED).drop_first(), "Sec-WebSocket-Version".spec_bytes())
            matches Some(version) && trim(version) != "13".spec_bytes() ==> r is Err,
        header_value(split(request, LINE_FEED).drop_first(), "Sec-WebSocket-Version".spec_bytes())
            matches Some(version) && trim(version) == "8".spec_bytes() ==> r is Err,
        handshake_outcome(request) is Err ==> r is Err,
{
    reveal_strlit("8");
    reveal_strlit("13");
    is_ascii_spec_bytes("8");
    is_ascii_spec_bytes("13");
    assert("8".spec_bytes().len() == 1);
    assert("13".spec_bytes().len() == 2);
}

fn derive_accept_key(client_key: &[u8]) -> (accept: String)
    ensures
        accept@ == accept_key(client_key@),
{
    let mut combined: Vec<u8> = slice_to_vec(client_key);
    combined.extend_from_slice(WEBSOCKET_PREFIX.as_bytes());
    assert(combined@ =~= client_key@ + WEBSOCKET_PREFIX.spec_bytes());
    let digest = sha1_of(combined.as_slice());
    base64_of(digest.as_slice())
}

/// Derives the `Sec-WebSocket-Accept` value for a client's key.
pub fn sec_websocket_key(client_key: String) -> (accept: String)
    ensures
        accept@ == accept_key(encode_utf8(client_key@)),
{
    derive_accept_key(client_key.as_str().as_bytes())
}

/// Builds the upgrade response around an accept key.
pub fn handshake_response(accept: &str) -> (response: String)
    ensures
        response@ == response_text(accept@),
{
    String::from_str(RESPONSE_HEAD).concat(accept).concat(RESPONSE_TAIL)
}

/// Checks the request line.
pub fn check_request_line(line: &[u8]) -> (ok: bool)
    ensures
        ok == request_line_ok(line@),
{
    let words = split_bytes(line, SPACE);
    if words.len() != 3 {
        return false;
    }
    assert(views(words@)[0] == words@[0]@);
    assert(views(words@)[1] == words@[1]@);
    assert(views(words@)[2] == words@[2]@);
    if !bytes_eq(words[0].as_slice(), "GET".as_bytes()) {
        return false;
    }
    if words[1].len() == 0 || words[1][0] != SLASH {
        return false;
    }
    let version = trim_bytes(words[2].as_slice());
    bytes_eq(version.as_slice(), "HTTP/1.1".as_bytes())
}

/// Looks up the last of `lines` that is a header named `name`.
pub fn find_header(lines: &[Vec<u8>], name: &[u8]) -> (r: Option<Vec<u8>>)
    ensures
        match header_value(views(lines@), name@) {
            Some(v) => r is Some && r->0@ == v,
            None => r is None,
        },
{
    let n: usize = lines.len();
    let mut found: Option<Vec<u8>> = None;
    let mut i: usize = 0;
    let ghost all = views(lines@);
    while i < n
        invariant
            i <= n,
            n == lines@.len(),
            all == views(lines@),
            match header_value(all.subrange(0, i as int), name@) {
                Some(v) => found is Some && found->0@ == v,
                None => found is None,
            },
        decreases n - i,
    {
        let line: &[u8] = lines[i].as_slice();
        let at: usize = find_separator(line);
        proof {
            let upto = all.subrange(0, i + 1);
            assert(upto.drop_last() =~= all.subrange(0, i as int));
            assert(upto.last() == line@);
        }
        if at < line.len() {
            if bytes_eq(slice_subrange(line, 0, at), name) {
                found = Some(copy_range(line, at + 2, line.len()));
            }
        }
        i += 1;
    }
    assert(all.subrange(0, n as int) =~= all);
    found
}

/// Validates an upgrade request and gives the client's trimmed key, or the
/// reason for refusing it.
pub fn check_request(request: &[u8]) -> (r: Result<Vec<u8>, HandshakeError>)
    ensures
        match handshake_outcome(request@) {
            Ok(key) => r is Ok && r->Ok_0@ == key,
            Err(e) => r is Err && r->Err_0 == e,
        },
{
    let lines = split_bytes(request, LINE_FEED);
    assert(views(lines@)[0] == lines@[0]@);
    if !check_request_line(lines[0].as_slice()) {
        return Err(HandshakeError::MalformedRequestLine);
    }
    let headers: &[Vec<u8>] = slice_subrange(lines.as_slice(), 1, lines.len());
    assert(views(headers@) =~= views(lines@).drop_first());
    let upgrade = find_header(headers, "Upgrade".as_bytes());
    let connection = find_header(headers, "Connection".as_bytes());
    let key = find_header(headers, "Sec-WebSocket-Key".as_bytes());
    let version = find_header(headers, "Sec-WebSocket-Version".as_bytes());
    match (upgrade, connection, key, version) {
        (Some(upgrade), Some(connection), Some(key), Some(version)) => {
            let upgrade = trim_bytes(upgrade.as_slice());
            let connection = trim_bytes(connection.as_slice());
            let version = trim_bytes(version.as_slice());
            if !bytes_eq(upgrade.as_slice(), "websocket".as_bytes()) || !bytes_eq(
                connection.as_slice(),
                "Upgrade".as_bytes(),
            ) || !bytes_eq(version.as_slice(), "13".as_bytes()) {
                return Err(HandshakeError::InvalidHeader);
            }
            Ok(trim_bytes(key.as_slice()))
        },
        _ => Err(HandshakeError::MissingHeader),
    }
}

/// Answers an upgrade request given as text.
pub fn respond_to_request(request: &str) -> (r: Result<String, HandshakeError>)
    ensures
        handshake_reply(encode_utf8(request@), r),
{
    match check_request(request.as_bytes()) {
        Ok(key) => {
            let accept = derive_accept_key(key.as_slice());
            Ok(handshake_response(accept.as_str()))
        },
        Err(e) => Err(e),
    }
}

/// Answers the first bytes read from a new connection. The bytes are read as
/// UTF-8 with invalid sequences replaced, then validated as an upgrade
/// request.
pub fn verify_client_handshake(request: &[u8]) -> (r: Result<String, HandshakeError>)
    ensures
        handshake_reply(encode_utf8(lossy_text(request@)), r),
        valid_utf8(request@) ==> handshake_reply(request@, r),
{
    let text = decode_lossy(request);
    proof {
        if valid_utf8(request@) {
            decode_utf8_encode_utf8(request@);
        }
    }
    respond_to_request(text.as_str())
}

} // verus!
