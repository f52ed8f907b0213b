//! The handshakes that ask a hop to connect on, as bytes.
//!
//! A hop is asked in its own protocol to open a connection to a host and a
//! port: the next hop of the chain, or the destination. The caller sends
//! what it is told to send and hands back what it has received since; it is
//! told when the hop has agreed, and how many of the received bytes belong
//! to the handshake.
//!
//! SOCKS5 names the host as a domain name and offers the username and
//! password method where the hop has credentials. SOCKS4 carries the
//! username as the user id and names the host the way version 4a does. HTTP
//! sends a `CONNECT` request, with basic proxy authorization where the hop
//! has credentials.

use vstd::prelude::*;
use vstd::utf8::encode_utf8;
use crate::config::{ProxyConfig, ProxyProtocol};
use crate::text::{decimal, push_decimal};

verus! {

/// What the caller does next in a handshake.
#[derive(Debug)]
pub enum Progress {
    /// Send these bytes, then hand back what the hop answers.
    Send(Vec<u8>),
    /// The answer is not complete: read more, and hand back all of it.
    Incomplete,
    /// The hop has agreed. The first `consumed` bytes of what was received
    /// are its answer; what follows them already comes from the far end.
    Established { consumed: usize },
    /// The hop refused, answered something else than the protocol allows,
    /// or cannot be asked for this host in its protocol.
    Rejected,
}

/// A `Progress` with its bytes as a sequence.
pub enum Step {
    Send(Seq<u8>),
    Incomplete,
    Established { consumed: usize },
    Rejected,
}

impl View for Progress {
    type V = Step;

    open spec fn view(&self) -> Step {
        match self {
            Progress::Send(bytes) => Step::Send(bytes@),
            Progress::Incomplete => Step::Incomplete,
            Progress::Established { consumed } => Step::Established { consumed: *consumed },
            Progress::Rejected => Step::Rejected,
        }
    }
}

/// Which answer a handshake is waiting for.
#[derive(Clone, Copy, Debug, PartialEq, Eq, Structural)]
pub enum Stage {
    /// The method that a SOCKS5 hop selects.
    Socks5Method,
    /// The verdict of a SOCKS5 hop on username and password.
    Socks5Auth,
    /// The reply of a SOCKS5 hop to the connect request.
    Socks5Reply,
    /// The reply of a SOCKS4 hop to the connect request.
    Socks4Reply,
    /// The response of an HTTP hop to the `CONNECT` request.
    HttpReply,
    /// None: the handshake is over.
    Finished,
}

/// The longest response of an HTTP hop that is waited for.
pub const HTTP_REPLY_LIMIT: usize = 8192;

/// A port in network byte order.
pub open spec fn port_bytes(port: u16) -> Seq<u8> {
    seq![(port / 256) as u8, (port % 256) as u8]
}

/// The SOCKS5 greeting: version 5 and the methods offered, "no
/// authentication" always and "username and password" with credentials.
pub open spec fn socks5_greeting(with_credentials: bool) -> Seq<u8> {
    if with_credentials {
        seq![5u8, 2u8, 0u8, 2u8]
    } else {
        seq![5u8, 1u8, 0u8]
    }
}

/// The SOCKS5 username and password request; both take 1 to 255 bytes.
pub open spec fn socks5_auth_request(username: Seq<u8>, password: Seq<u8>) -> Option<Seq<u8>> {
    if 1 <= username.len() <= 255 && 1 <= password.len() <= 255 {
        Some(
            seq![1u8, username.len() as u8] + username + seq![password.len() as u8] + password,
        )
    } else {
        None
    }
}

/// The SOCKS5 connect request for a host named by 1 to 255 bytes.
pub open spec fn socks5_connect_request(host: Seq<u8>, port: u16) -> Option<Seq<u8>> {
    if 1 <= host.len() <= 255 {
        Some(seq![5u8, 1u8, 0u8, 3u8, host.len() as u8] + host + port_bytes(port))
    } else {
        None
    }
}

/// The length of a SOCKS5 reply of which at least five bytes are there, by
/// the type of the address it carries; zero for an unknown type.
pub open spec fn socks5_reply_len(received: Seq<u8>) -> int {
    if received[3] == 1 {
        10
    } else if received[3] == 4 {
        22
    } else if received[3] == 3 {
        7 + received[4]
    } else {
        0
    }
}

/// The reading of a SOCKS5 reply to a connect request: version 5 and
/// status 0 grant it.
pub open spec fn socks5_reply(received: Seq<u8>) -> Step {
    if received.len() < 2 {
        Step::Incomplete
    } else if received[0] != 5 || received[1] != 0 {
        Step::Rejected
    } else if received.len() < 5 {
        Step::Incomplete
    } else if socks5_reply_len(received) == 0 {
        Step::Rejected
    } else if received.len() < socks5_reply_len(received) {
        Step::Incomplete
    } else {
        Step::Established { consumed: socks5_reply_len(received) as usize }
    }
}

/// The SOCKS4 connect request: the port, an address that says "a name
/// follows", the user id and the host, each closed by a zero byte. Neither
/// may hold a zero byte and the host is not empty.
pub open spec fn socks4_request(user_id: Seq<u8>, host: Seq<u8>, port: u16) -> Option<Seq<u8>> {
    if host.len() >= 1 && !host.contains(0u8) && !user_id.contains(0u8) {
        Some(
            seq![4u8, 1u8] + port_bytes(port) + seq![0u8, 0u8, 0u8, 1u8] + user_id + seq![0u8]
                + host + seq![0u8],
        )
    } else {
        None
    }
}

/// The reading of a SOCKS4 reply: eight bytes, of which a zero and the code
/// 90 grant the request.
pub open spec fn socks4_reply(received: Seq<u8>) -> Step {
    if received.len() < 2 {
        Step::Incomplete
    } else if received[0] != 0 || received[1] != 90 {
        Step::Rejected
    } else if received.len() < 8 {
        Step::Incomplete
    } else {
        Step::Established { consumed: 8 }
    }
}

/// The character that stands for the six-bit value `v` in base 64.
pub open spec fn base64_digit(v: int) -> u8 {
    if v < 26 {
        (65 + v) as u8
    } else if v < 52 {
        (71 + v) as u8
    } else if v < 62 {
        (v - 4) as u8
    } else if v == 62 {
        43
    } else {
        47
    }
}

/// `bytes` in base 64, padded with `=`.
pub open spec fn base64(bytes: Seq<u8>) -> Seq<u8>
    decreases bytes.len(),
{
    if bytes.len() == 0 {
        Seq::empty()
    } else if bytes.len() == 1 {
        let b0 = bytes[0] as int;
        seq![base64_digit(b0 / 4), base64_digit(b0 % 4 * 16), 61u8, 61u8]
    } else if bytes.len() == 2 {
        let b0 = bytes[0] as int;
        let b1 = bytes[1] as int;
        seq![
            base64_digit(b0 / 4),
            base64_digit(b0 % 4 * 16 + b1 / 16),
            base64_digit(b1 % 16 * 4),
            61u8,
        ]
    } else {
        let b0 = bytes[0] as int;
        let b1 = bytes[1] as int;
        let b2 = bytes[2] as int;
        seq![
            base64_digit(b0 / 4),
            base64_digit(b0 % 4 * 16 + b1 / 16),
            base64_digit(b1 % 16 * 4 + b2 / 64),
            base64_digit(b2 % 64),
        ] + base64(bytes.skip(3))
    }
}

/// Host and port as they stand in an HTTP request.
pub open spec fn authority(host: Seq<u8>, port: u16) -> Seq<u8> {
    host + encode_utf8(":"@) + encode_utf8(decimal(port as nat))
}

/// The header that carries username and password, or nothing.
pub open spec fn proxy_authorization(credentials: Option<(Seq<u8>, Seq<u8>)>) -> Seq<u8> {
    match credentials {
        Some((username, password)) => encode_utf8("Proxy-Authorization: Basic "@) + base64(
            username + encode_utf8(":"@) + password,
        ) + encode_utf8("\r\n"@),
        None => Seq::empty(),
    }
}

/// The HTTP request that asks for a tunnel to `host` and `port`.
pub open spec fn http_request(
    host: Seq<u8>,
    port: u16,
    credentials: Option<(Seq<u8>, Seq<u8>)>,
) -> Seq<u8> {
    encode_utf8("CONNECT "@) + authority(host, port) + encode_utf8(" HTTP/1.1\r\nHost: "@)
        + authority(host, port) + encode_utf8("\r\n"@) + proxy_authorization(credentials)
        + encode_utf8("\r\n"@)
}

/// Where the first empty line at or after `from` ends, if there is one.
pub open spec fn headers_end(received: Seq<u8>, from: int) -> Option<int>
    decreases received.len() - from,
{
    if from < 0 || from + 4 > received.len() {
        None
    } else if received[from] == 13 && received[from + 1] == 10 && received[from + 2] == 13
        && received[from + 3] == 10 {
        Some(from + 4)
    } else {
        headers_end(received, from + 1)
    }
}

/// Whether `byte` is a decimal digit.
pub open spec fn is_digit(byte: u8) -> bool {
    48 <= byte <= 57
}

/// Whether a response starts with `HTTP/1.`, a digit, a space and a status
/// code of the form `2xx`.
pub open spec fn http_status_ok(received: Seq<u8>) -> bool {
    &&& received.len() >= 12
    &&& received[0] == 72
    &&& received[1] == 84
    &&& received[2] == 84
    &&& received[3] == 80
    &&& received[4] == 47
    &&& received[5] == 49
    &&& received[6] == 46
    &&& is_digit(received[7])
    &&& received[8] == 32
    &&& received[9] == 50
    &&& is_digit(received[10])
    &&& is_digit(received[11])
}

/// The reading of the response to a `CONNECT` request: it ends with the
/// first empty line, and a status `2xx` grants the tunnel. A response that
/// reaches the limit without an empty line is refused.
pub open spec fn http_reply(received: Seq<u8>) -> Step {
    match headers_end(received, 0) {
        Some(end) => if http_status_ok(received) {
            Step::Established { consumed: end as usize }
        } else {
            Step::Rejected
        },
        None => if received.len() >= HTTP_REPLY_LIMIT {
            Step::Rejected
        } else {
            Step::Incomplete
        },
    }
}

/// Username and password of a hop, as bytes.
pub open spec fn credentials_of(hop: ProxyConfig) -> Option<(Seq<u8>, Seq<u8>)> {
    match hop.auth {
        Some(auth) => Some((encode_utf8(auth.username@), encode_utf8(auth.password@))),
        None => None,
    }
}

/// The user id that a SOCKS4 hop is given: the username, or nothing.
pub open spec fn user_id_of(credentials: Option<(Seq<u8>, Seq<u8>)>) -> Seq<u8> {
    match credentials {
        Some((username, password)) => username,
        None => Seq::empty(),
    }
}

/// Sending `request` and then waiting at `stage`, or giving up where there
/// is no request.
pub open spec fn send_or_reject(request: Option<Seq<u8>>, stage: Stage) -> (Stage, Step) {
    match request {
        Some(bytes) => (stage, Step::Send(bytes)),
        None => (Stage::Finished, Step::Rejected),
    }
}

/// A reading of an answer that sends nothing: the handshake stays at
/// `stage` while the answer is incomplete and is over otherwise.
pub open spec fn wait_or_finish(stage: Stage, reading: Step) -> (Stage, Step) {
    if reading is Incomplete {
        (stage, reading)
    } else {
        (Stage::Finished, reading)
    }
}

/// The first step of a handshake that asks a hop for `host` and `port`.
pub open spec fn begin(
    protocol: ProxyProtocol,
    credentials: Option<(Seq<u8>, Seq<u8>)>,
    host: Seq<u8>,
    port: u16,
) -> (Stage, Step) {
    match protocol {
        ProxyProtocol::Socks5 => (
            Stage::Socks5Method,
            Step::Send(socks5_greeting(credentials is Some)),
        ),
        ProxyProtocol::Socks4 => send_or_reject(
            socks4_request(user_id_of(credentials), host, port),
            Stage::Socks4Reply,
        ),
        ProxyProtocol::Http => (Stage::HttpReply, Step::Send(http_request(host, port, credentials))),
    }
}

/// The step that follows when `received` has come in at `stage`.
pub open spec fn advance(
    stage: Stage,
    credentials: Option<(Seq<u8>, Seq<u8>)>,
    host: Seq<u8>,
    port: u16,
    received: Seq<u8>,
) -> (Stage, Step) {
    match stage {
        Stage::Socks5Method => if received.len() < 2 {
            (stage, Step::Incomplete)
        } else if received[0] != 5 {
            (Stage::Finished, Step::Rejected)
        } else if received[1] == 0 {
            send_or_reject(socks5_connect_request(host, port), Stage::Socks5Reply)
        } else if received[1] == 2 && credentials is Some {
            send_or_reject(
                socks5_auth_request(credentials.unwrap().0, credentials.unwrap().1),
                Stage::Socks5Auth,
            )
        } else {
            (Stage::Finished, Step::Rejected)
        },
        Stage::Socks5Auth => if received.len() < 2 {
            (stage, Step::Incomplete)
        } else if received[0] == 1 && received[1] == 0 {
            send_or_reject(socks5_connect_request(host, port), Stage::Socks5Reply)
        } else {
            (Stage::Finished, Step::Rejected)
        },
        Stage::Socks5Reply => wait_or_finish(stage, socks5_reply(received)),
        Stage::Socks4Reply => wait_or_finish(stage, socks4_reply(received)),
        Stage::HttpReply => wait_or_finish(stage, http_reply(received)),
        Stage::Finished => (Stage::Finished, Step::Rejected),
    }
}

fn push_bytes(out: &mut Vec<u8>, bytes: &[u8])
    ensures
        final(out)@ == old(out)@ + bytes@,
{
    let mut i: usize = 0;
    while i < bytes.len()
        invariant
            i <= bytes@.len(),
            out@ == old(out)@ + bytes@.take(i as int),
        decreases bytes@.len() - i,
    {
        out.push(bytes[i]);
        assert(out@ =~= old(out)@ + bytes@.take(i + 1));
        i += 1;
    }
    assert(bytes@.take(i as int) =~= bytes@);
}

fn push_port(out: &mut Vec<u8>, port: u16)
    ensures
        final(out)@ == old(out)@ + port_bytes(port),
{
    out.push((port / 256) as u8);
    out.push((port % 256) as u8);
    assert(out@ =~= old(out)@ + port_bytes(port));
}

fn has_zero(bytes: &[u8]) -> (found: bool)
    ensures
        found == bytes@.contains(0u8),
{
    let mut i: usize = 0;
    while i < bytes.len()
        invariant
            i <= bytes@.len(),
            forall|k: int| 0 <= k < i ==> bytes@[k] != 0,
        decreases bytes@.len() - i,
    {
        if bytes[i] == 0 {
            return true;
        }
        i += 1;
    }
    false
}

fn digit_of(v: u8) -> (digit: u8)
    requires
        v < 64,
    ensures
        digit == base64_digit(v as int),
{
    if v < 26 {
        65 + v
    } else if v < 52 {
        71 + v
    } else if v < 62 {
        v - 4
    } else if v == 62 {
        43
    } else {
        47
    }
}

/// Appends `bytes` in base 64 to `out`.
pub fn push_base64(out: &mut Vec<u8>, bytes: &[u8])
    ensures
        final(out)@ == old(out)@ + base64(bytes@),
{
    let mut i: usize = 0;
    assert(bytes@.skip(0) =~= bytes@);
    while bytes.len() - i >= 3
        invariant
            i <= bytes@.len(),
            old(out)@ + base64(bytes@) == out@ + base64(bytes@.skip(i as int)),
        decreases bytes@.len() - i,
    {
        let ghost rest = bytes@.skip(i as int);
        let ghost before = out@;
        let b0 = bytes[i];
        let b1 = bytes[i + 1];
        let b2 = bytes[i + 2];
        out.push(digit_of(b0 / 4));
        out.push(digit_of(b0 % 4 * 16 + b1 / 16));
        out.push(digit_of(b1 % 16 * 4 + b2 / 64));
        out.push(digit_of(b2 % 64));
        proof {
            assert(rest.skip(3) =~= bytes@.skip(i + 3));
            assert(out@ + base64(rest.skip(3)) =~= before + base64(rest));
        }
        i += 3;
    }
    let ghost rest = bytes@.skip(i as int);
    let ghost before = out@;
    if bytes.len() - i == 1 {
        let b0 = bytes[i];
        out.push(digit_of(b0 / 4));
        out.push(digit_of(b0 % 4 * 16));
        out.push(61);
        out.push(61);
        assert(out@ =~= before + base64(rest));
    } else if bytes.len() - i == 2 {
        let b0 = bytes[i];
        let b1 = bytes[i + 1];
        out.push(digit_of(b0 / 4));
        out.push(digit_of(b0 % 4 * 16 + b1 / 16));
        out.push(digit_of(b1 % 16 * 4));
        out.push(61);
        assert(out@ =~= before + base64(rest));
    } else {
        assert(out@ =~= before + base64(rest));
    }
}

fn push_authority(out: &mut Vec<u8>, host: &[u8], port: u16)
    ensures
        final(out)@ == old(out)@ + authority(host@, port),
{
    push_bytes(out, host);
    push_bytes(out, ":".as_bytes());
    let mut digits = String::new();
    push_decimal(&mut digits, port as u64);
    assert(digits@ =~= decimal(port as nat));
    push_bytes(out, digits.as_str().as_bytes());
    assert(out@ =~= old(out)@ + authority(host@, port));
}

fn socks5_connect(host: &[u8], port: u16) -> (r: (Stage, Progress))
    ensures
        (r.0, r.1@) == send_or_reject(socks5_connect_request(host@, port), Stage::Socks5Reply),
{
    if host.len() < 1 || host.len() > 255 {
        return (Stage::Finished, Progress::Rejected);
    }
    let mut out: Vec<u8> = Vec::new();
    out.push(5);
    out.push(1);
    out.push(0);
    out.push(3);
    out.push(host.len() as u8);
    push_bytes(&mut out, host);
    push_port(&mut out, port);
    assert(out@ =~= socks5_connect_request(host@, port).unwrap());
    (Stage::Socks5Reply, Progress::Send(out))
}

fn socks5_auth(username: &[u8], password: &[u8]) -> (r: (Stage, Progress))
    ensures
        (r.0, r.1@) == send_or_reject(
            socks5_auth_request(username@, password@),
            Stage::Socks5Auth,
        ),
{
    if username.len() < 1 || username.len() > 255 || password.len() < 1 || password.len() > 255 {
        return (Stage::Finished, Progress::Rejected);
    }
    let mut out: Vec<u8> = Vec::new();
    out.push(1);
    out.push(username.len() as u8);
    push_bytes(&mut out, username);
    out.push(password.len() as u8);
    push_bytes(&mut out, password);
    assert(out@ =~= socks5_auth_request(username@, password@).unwrap());
    (Stage::Socks5Auth, Progress::Send(out))
}

fn socks4_connect(user_id: &[u8], host: &[u8], port: u16) -> (r: (Stage, Progress))
    ensures
        (r.0, r.1@) == send_or_reject(socks4_request(user_id@, host@, port), Stage::Socks4Reply),
{
    if host.len() < 1 || has_zero(host) || has_zero(user_id) {
        return (Stage::Finished, Progress::Rejected);
    }
    let mut out: Vec<u8> = Vec::new();
    out.push(4);
    out.push(1);
    push_port(&mut out, port);
    out.push(0);
    out.push(0);
    out.push(0);
    out.push(1);
    push_bytes(&mut out, user_id);
    out.push(0);
    push_bytes(&mut out, host);
    out.push(0);
    assert(out@ =~= socks4_request(user_id@, host@, port).unwrap());
    (Stage::Socks4Reply, Progress::Send(out))
}

fn http_connect(hop: &ProxyConfig, host: &[u8], port: u16) -> (out: Vec<u8>)
    ensures
        out@ == http_request(host@, port, credentials_of(*hop)),
{
    let mut out: Vec<u8> = Vec::new();
    push_bytes(&mut out, "CONNECT ".as_bytes());
    push_authority(&mut out, host, port);
    push_bytes(&mut out, " HTTP/1.1\r\nHost: ".as_bytes());
    push_authority(&mut out, host, port);
    push_bytes(&mut out, "\r\n".as_bytes());
    let ghost head = out@;
    match &hop.auth {
        Some(auth) => {
            let mut plain: Vec<u8> = Vec::new();
            push_bytes(&mut plain, auth.username.as_str().as_bytes());
            push_bytes(&mut plain, ":".as_bytes());
            push_bytes(&mut plain, auth.password.as_str().as_bytes());
            push_bytes(&mut out, "Proxy-Authorization: Basic ".as_bytes());
            push_base64(&mut out, plain.as_slice());
            push_bytes(&mut out, "\r\n".as_bytes());
            assert(out@ =~= head + proxy_authorization(credentials_of(*hop)));
        },
        None => {
            assert(out@ =~= head + proxy_authorization(credentials_of(*hop)));
        },
    }
    push_bytes(&mut out, "\r\n".as_bytes());
    assert(out@ =~= http_request(host@, port, credentials_of(*hop)));
    out
}

fn read_socks5_reply(received: &[u8]) -> (reading: Progress)
    ensures
        reading@ == socks5_reply(received@),
{
    if received.len() < 2 {
        return Progress::Incomplete;
    }
    if received[0] != 5 || received[1] != 0 {
        return Progress::Rejected;
    }
    if received.len() < 5 {
        return Progress::Incomplete;
    }
    let size: usize = if received[3] == 1 {
        10
    } else if received[3] == 4 {
        22
    } else if received[3] == 3 {
        7 + received[4] as usize
    } else {
        0
    };
    if size == 0 {
        Progress::Rejected
    } else if received.len() < size {
        Progress::Incomplete
    } else {
        Progress::Established { consumed: size }
    }
}

fn read_socks4_reply(received: &[u8]) -> (reading: Progress)
    ensures
        reading@ == socks4_reply(received@),
{
    if received.len() < 2 {
        Progress::Incomplete
    } else if received[0] != 0 || received[1] != 90 {
        Progress::Rejected
    } else if received.len() < 8 {
        Progress::Incomplete
    } else {
        Progress::Established { consumed: 8 }
    }
}

fn digit(byte: u8) -> (r: bool)
    ensures
        r == is_digit(byte),
{
    48 <= byte && byte <= 57
}

fn status_ok(received: &[u8]) -> (ok: bool)
    ensures
        ok == http_status_ok(received@),
{
    received.len() >= 12 && received[0] == 72 && received[1] == 84 && received[2] == 84
        && received[3] == 80 && received[4] == 47 && received[5] == 49 && received[6] == 46
        && digit(received[7]) && received[8] == 32 && received[9] == 50 && digit(received[10])
        && digit(received[11])
}

fn read_http_reply(received: &[u8]) -> (reading: Progress)
    ensures
        reading@ == http_reply(received@),
{
    let mut i: usize = 0;
    while received.len() - i >= 4
        invariant
            i <= received@.len(),
            headers_end(received@, 0) == headers_end(received@, i as int),
        decreases received@.len() - i,
    {
        if received[i] == 13 && received[i + 1] == 10 && received[i + 2] == 13 && received[i + 3]
            == 10 {
            return if status_ok(received) {
                Progress::Established { consumed: i + 4 }
            } else {
                Progress::Rejected
            };
        }
        i += 1;
    }
    if received.len() >= HTTP_REPLY_LIMIT {
        Progress::Rejected
    } else {
        Progress::Incomplete
    }
}

fn finish(stage: Stage, reading: Progress) -> (r: (Stage, Progress))
    ensures
        (r.0, r.1@) == wait_or_finish(stage, reading@),
{
    match reading {
        Progress::Incomplete => (stage, Progress::Incomplete),
        other => (Stage::Finished, other),
    }
}

/// Starts the handshake that asks `hop` to connect to `host` and `port`.
pub fn start(hop: &ProxyConfig, host: &str, port: u16) -> (r: (Stage, Progress))
    ensures
        (r.0, r.1@) == begin(hop.protocol, credentials_of(*hop), encode_utf8(host@), port),
{
    let host = host.as_bytes();
    match hop.protocol {
        ProxyProtocol::Socks5 => {
            let mut out: Vec<u8> = Vec::new();
            out.push(5);
            if hop.auth.is_some() {
                out.push(2);
                out.push(0);
                out.push(2);
            } else {
                out.push(1);
                out.push(0);
            }
            assert(out@ =~= socks5_greeting(credentials_of(*hop) is Some));
            (Stage::Socks5Method, Progress::Send(out))
        },
        ProxyProtocol::Socks4 => match &hop.auth {
            Some(auth) => socks4_connect(auth.username.as_str().as_bytes(), host, port),
            None => {
                let nobody: Vec<u8> = Vec::new();
                socks4_connect(nobody.as_slice(), host, port)
            },
        },
        ProxyProtocol::Http => (Stage::HttpReply, Progress::Send(http_connect(hop, host, port))),
    }
}

/// Goes on with the handshake at `stage`, now that `received` has come in
/// since the last bytes were sent.
pub fn reply(stage: Stage, hop: &ProxyConfig, host: &str, port: u16, received: &[u8]) -> (r: (
    Stage,
    Progress,
))
    ensures
        (r.0, r.1@) == advance(
            stage,
            credentials_of(*hop),
            encode_utf8(host@),
            port,
            received@,
        ),
{
    let host = host.as_bytes();
    match stage {
        Stage::Socks5Method => {
            if received.len() < 2 {
                (stage, Progress::Incomplete)
            } else if received[0] != 5 {
                (Stage::Finished, Progress::Rejected)
            } else if received[1] == 0 {
                socks5_connect(host, port)
            } else if received[1] == 2 {
                match &hop.auth {
                    Some(auth) => socks5_auth(
                        auth.username.as_str().as_bytes(),
                        auth.password.as_str().as_bytes(),
                    ),
                    None => (Stage::Finished, Progress::Rejected),
                }
            } else {
                (Stage::Finished, Progress::Rejected)
            }
        },
        Stage::Socks5Auth => {
            if received.len() < 2 {
                (stage, Progress::Incomplete)
            } else if received[0] == 1 && received[1] == 0 {
                socks5_connect(host, port)
            } else {
                (Stage::Finished, Progress::Rejected)
            }
        },
        Stage::Socks5Reply => finish(stage, read_socks5_reply(received)),
        Stage::Socks4Reply => finish(stage, read_socks4_reply(received)),
        Stage::HttpReply => finish(stage, read_http_reply(received)),
        Stage::Finished => (Stage::Finished, Progress::Rejected),
    }
}

} // verus!
