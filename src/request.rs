//! Building the raw HTTP/1.1 request that goes to the backend.
use vstd::prelude::*;
use crate::message::{fields_view, HeaderField};
use crate::scan::all_visible;

verus! {

/// An inbound request as the listener parsed it.
#[derive(Clone, Debug)]
pub struct InboundRequest {
    pub method: Vec<u8>,
    /// Path and query, as received.
    pub target: Vec<u8>,
    /// Header fields in the order received.
    pub headers: Vec<HeaderField>,
    pub body: Vec<u8>,
}

/// Settings read once at start-up and never changed afterwards.
#[derive(Clone, Debug)]
pub struct ProxyConfig {
    pub socket_path: String,
    pub auth_token: Option<Vec<u8>>,
    pub listen_port: u16,
}

/// The request for the backend, in the two parts that are written one after
/// the other: request line and headers, then the body.
#[derive(Clone, Debug)]
pub struct WireRequest {
    pub head: Vec<u8>,
    pub body: Vec<u8>,
}

/// `": "`
pub open spec fn colon_space() -> Seq<u8> {
    seq![58u8, 32u8]
}

/// `"\r\n"`
pub open spec fn crlf() -> Seq<u8> {
    seq![13u8, 10u8]
}

/// `" HTTP/1.1\r\n"`
pub open spec fn version_suffix() -> Seq<u8> {
    seq![32u8, 72u8, 84u8, 84u8, 80u8, 47u8, 49u8, 46u8, 49u8, 13u8, 10u8]
}

/// `"x-api-key"`
pub open spec fn api_key_name() -> Seq<u8> {
    seq![120u8, 45u8, 97u8, 112u8, 105u8, 45u8, 107u8, 101u8, 121u8]
}

/// `"Host"`
pub open spec fn host_name() -> Seq<u8> {
    seq![72u8, 111u8, 115u8, 116u8]
}

/// `"localhost"`
pub open spec fn localhost() -> Seq<u8> {
    seq![108u8, 111u8, 99u8, 97u8, 108u8, 104u8, 111u8, 115u8, 116u8]
}

/// `"Content-Length"`
pub open spec fn content_length_name() -> Seq<u8> {
    seq![67u8, 111u8, 110u8, 116u8, 101u8, 110u8, 116u8, 45u8, 76u8, 101u8, 110u8, 103u8, 116u8, 104u8]
}

/// The decimal digits of `n`, most significant first, without leading zeros.
pub open spec fn decimal(n: nat) -> Seq<u8>
    decreases n,
{
    if n < 10 {
        seq![(48 + n) as u8]
    } else {
        decimal(n / 10).push((48 + n % 10) as u8)
    }
}

/// `Name: value\r\n`
pub open spec fn header_line(h: (Seq<u8>, Seq<u8>)) -> Seq<u8> {
    h.0 + colon_space() + h.1 + crlf()
}

pub open spec fn header_lines(hs: Seq<(Seq<u8>, Seq<u8>)>) -> Seq<u8>
    decreases hs.len(),
{
    if hs.len() == 0 {
        seq![]
    } else {
        header_lines(hs.drop_last()) + header_line(hs.last())
    }
}

/// The inbound headers that are forwarded: those whose value is printable.
pub open spec fn forwarded(hs: Seq<(Seq<u8>, Seq<u8>)>) -> Seq<(Seq<u8>, Seq<u8>)> {
    hs.filter(|h: (Seq<u8>, Seq<u8>)| all_visible(h.1))
}

/// The token to send, when one is configured and it is not empty.
pub open spec fn active_token(token: Option<Seq<u8>>) -> Option<Seq<u8>> {
    match token {
        Some(t) => if t.len() > 0 {
            Some(t)
        } else {
            None
        },
        None => None,
    }
}

/// The headers the proxy adds after the forwarded ones: the api key when a
/// token is active, the placeholder host, and the body length when there is a body.
pub open spec fn added_headers(token: Option<Seq<u8>>, body_len: nat) -> Seq<(Seq<u8>, Seq<u8>)> {
    let auth = match active_token(token) {
        Some(t) => seq![(api_key_name(), t)],
        None => seq![],
    };
    let length = if body_len > 0 {
        seq![(content_length_name(), decimal(body_len))]
    } else {
        seq![]
    };
    auth + seq![(host_name(), localhost())] + length
}

/// Every header line of the request for the backend, in order.
pub open spec fn outbound_headers(
    hs: Seq<(Seq<u8>, Seq<u8>)>,
    token: Option<Seq<u8>>,
    body_len: nat,
) -> Seq<(Seq<u8>, Seq<u8>)> {
    forwarded(hs) + added_headers(token, body_len)
}

/// Request line, header lines, blank line.
pub open spec fn request_head(
    method: Seq<u8>,
    target: Seq<u8>,
    headers: Seq<(Seq<u8>, Seq<u8>)>,
) -> Seq<u8> {
    method + seq![32u8] + target + version_suffix() + header_lines(headers) + crlf()
}

pub open spec fn token_view(t: Option<Vec<u8>>) -> Option<Seq<u8>> {
    match t {
        Some(v) => Some(v@),
        None => None,
    }
}

/// The head that `build_request` produces for `req` under `config`.
pub open spec fn wire_head(req: InboundRequest, config: ProxyConfig) -> Seq<u8> {
    request_head(
        req.method@,
        req.target@,
        outbound_headers(
            fields_view(req.headers@),
            token_view(config.auth_token),
            req.body@.len(),
        ),
    )
}

/// Appends `s` to `out`.
pub fn push_all(out: &mut Vec<u8>, s: &[u8])
    ensures
        final(out)@ == old(out)@ + s@,
{
    let mut i: usize = 0;
    while i < s.len()
        invariant
            0 <= i <= s@.len(),
            out@ == old(out)@ + s@.subrange(0, i as int),
        decreases s@.len() - i,
    {
        out.push(s[i]);
        i = i + 1;
        assert(out@ =~= old(out)@ + s@.subrange(0, i as int));
    }
    assert(s@.subrange(0, i as int) =~= s@);
}

/// Appends the decimal digits of `n` to `out`.
pub fn push_decimal(out: &mut Vec<u8>, n: usize)
    ensures
        final(out)@ == old(out)@ + decimal(n as nat),
    decreases n,
{
    if n >= 10 {
        push_decimal(out, n / 10);
    }
    out.push((48 + n % 10) as u8);
    assert(final(out)@ =~= old(out)@ + decimal(n as nat));
}

/// True when every byte of `v` may stand in a forwarded header value.
pub fn is_printable(v: &[u8]) -> (r: bool)
    ensures
        r == all_visible(v@),
{
    let mut i: usize = 0;
    while i < v.len()
        invariant
            0 <= i <= v@.len(),
            all_visible(v@.subrange(0, i as int)),
        decreases v@.len() - i,
    {
        let b = v[i];
        if !((32 <= b && b < 127) || b == 9) {
            assert(v@[i as int] == b);
            return false;
        }
        i = i + 1;
        assert(forall|k: int| 0 <= k < i ==> v@.subrange(0, i as int)[k] == v@[k]);
    }
    assert(v@.subrange(0, i as int) =~= v@);
    true
}

/// Appends `Name: value\r\n`.
fn push_header_line(out: &mut Vec<u8>, name: &[u8], value: &[u8])
    ensures
        final(out)@ == old(out)@ + header_line((name@, value@)),
{
    let sep: Vec<u8> = vec![58u8, 32u8];
    let end: Vec<u8> = vec![13u8, 10u8];
    push_all(out, name);
    push_all(out, sep.as_slice());
    push_all(out, value);
    push_all(out, end.as_slice());
    assert(final(out)@ =~= old(out)@ + header_line((name@, value@)));
}

proof fn lemma_header_lines_push(hs: Seq<(Seq<u8>, Seq<u8>)>, h: (Seq<u8>, Seq<u8>))
    ensures
        header_lines(hs.push(h)) == header_lines(hs) + header_line(h),
{
    assert(hs.push(h).drop_last() =~= hs);
}

proof fn lemma_forwarded_step(hs: Seq<(Seq<u8>, Seq<u8>)>, i: int)
    requires
        0 <= i < hs.len(),
    ensures
        forwarded(hs.subrange(0, i + 1)) == if all_visible(hs[i].1) {
            forwarded(hs.subrange(0, i)).push(hs[i])
        } else {
            forwarded(hs.subrange(0, i))
        },
{
    let pre = hs.subrange(0, i);
    assert(hs.subrange(0, i + 1) =~= pre.push(hs[i]));
    pre.lemma_filter_push(hs[i], |h: (Seq<u8>, Seq<u8>)| all_visible(h.1));
}

/// Appends a line for each header whose value is printable, in order.
fn push_forwarded(out: &mut Vec<u8>, headers: &Vec<HeaderField>)
    ensures
        final(out)@ == old(out)@ + header_lines(forwarded(fields_view(headers@))),
{
    let ghost hs = fields_view(headers@);
    let ghost mut sent: Seq<(Seq<u8>, Seq<u8>)> = seq![];
    let mut i: usize = 0;
    while i < headers.len()
        invariant
            0 <= i <= headers@.len(),
            hs == fields_view(headers@),
            sent == forwarded(hs.subrange(0, i as int)),
            out@ == old(out)@ + header_lines(sent),
        decreases headers@.len() - i,
    {
        let h = &headers[i];
        assert(hs[i as int] == h@);
        proof {
            lemma_forwarded_step(hs, i as int);
        }
        if is_printable(h.value.as_slice()) {
            push_header_line(out, h.name.as_slice(), h.value.as_slice());
            proof {
                lemma_header_lines_push(sent, h@);
                sent = sent.push(h@);
            }
        }
        i = i + 1;
    }
    assert(hs.subrange(0, i as int) =~= hs);
}

/// Serialises `req` into the request for the backend.
#[verifier::rlimit(50)]
pub fn build_request(req: &InboundRequest, config: &ProxyConfig) -> (r: WireRequest)
    ensures
        r.head@ == wire_head(*req, *config),
        r.body@ == req.body@,
{
    let ghost hs = fields_view(req.headers@);
    let mut out: Vec<u8> = Vec::new();
    push_all(&mut out, req.method.as_slice());
    out.push(32u8);
    push_all(&mut out, req.target.as_slice());
    let version: Vec<u8> = vec![32u8, 72u8, 84u8, 84u8, 80u8, 47u8, 49u8, 46u8, 49u8, 13u8, 10u8];
    push_all(&mut out, version.as_slice());
    let ghost line = out@;
    assert(line =~= req.method@ + seq![32u8] + req.target@ + version_suffix());
    push_forwarded(&mut out, &req.headers);
    let ghost mut sent: Seq<(Seq<u8>, Seq<u8>)> = forwarded(hs);
    match &config.auth_token {
        Some(t) => {
            if t.len() > 0 {
                let name: Vec<u8> = vec![120u8, 45u8, 97u8, 112u8, 105u8, 45u8, 107u8, 101u8, 121u8];
                push_header_line(&mut out, name.as_slice(), t.as_slice());
                proof {
                    lemma_header_lines_push(sent, (api_key_name(), t@));
                    sent = sent.push((api_key_name(), t@));
                }
            }
        },
        None => {},
    }
    let host: Vec<u8> = vec![72u8, 111u8, 115u8, 116u8];
    let local: Vec<u8> = vec![108u8, 111u8, 99u8, 97u8, 108u8, 104u8, 111u8, 115u8, 116u8];
    push_header_line(&mut out, host.as_slice(), local.as_slice());
    proof {
        lemma_header_lines_push(sent, (host_name(), localhost()));
        sent = sent.push((host_name(), localhost()));
    }
    let n = req.body.len();
    if n > 0 {
        let name: Vec<u8> = vec![
            67u8, 111u8, 110u8, 116u8, 101u8, 110u8, 116u8, 45u8, 76u8, 101u8, 110u8, 103u8,
            116u8, 104u8,
        ];
        let mut digits: Vec<u8> = Vec::new();
        push_decimal(&mut digits, n);
        push_header_line(&mut out, name.as_slice(), digits.as_slice());
        proof {
            lemma_header_lines_push(sent, (content_length_name(), decimal(n as nat)));
            sent = sent.push((content_length_name(), decimal(n as nat)));
        }
    }
    out.push(13u8);
    out.push(10u8);
    assert(sent =~= outbound_headers(hs, token_view(config.auth_token), req.body@.len()));
    assert(out@ =~= wire_head(*req, *config));
    let body = crate::scan::copy_range(req.body.as_slice(), 0, n);
    assert(body@ =~= req.body@);
    WireRequest { head: out, body }
}

} // verus!
