//! Properties that relate the request builder and the response parser.
use vstd::prelude::*;
use crate::client::name_is;
use crate::message::fields_view;
use crate::request::{
    active_token, added_headers, api_key_name, content_length_name, crlf, decimal, header_line,
    host_name, localhost, outbound_headers, token_view, wire_head, forwarded,
    InboundRequest, ProxyConfig,
};
use crate::request::{colon_space, header_lines, version_suffix};
use crate::response::{
    body_of, digits_value, framed, head_of, header_of_line, headers_from, line_at,
    line_text_end, next_line, response_headers, sep_at, separator, separator_from,
};
use crate::scan::{all_visible, index_of, is_visible, trim, ws_end, ws_len, ws_len_back, ws_start_back};

verus! {

proof fn lemma_decimal_value(n: nat)
    ensures
        digits_value(decimal(n)) == n,
        decimal(n).len() > 0,
    decreases n,
{
    if n >= 10 {
        lemma_decimal_value(n / 10);
        let d = decimal(n);
        assert(d.drop_last() =~= decimal(n / 10));
        assert(d.last() == (48 + n % 10) as u8);
        assert((48 + n % 10) as u8 - 48 == n % 10);
        assert((n / 10) * 10 + n % 10 == n);
        assert(digits_value(d) == digits_value(d.drop_last()) * 10 + (d.last() - 48) as nat);
    } else {
        let d = decimal(n);
        assert(d.drop_last() =~= Seq::<u8>::empty());
        assert(d.last() == (48 + n) as u8);
        assert(digits_value(d) == digits_value(d.drop_last()) * 10 + (d.last() - 48) as nat);
    }
}

/// The headers the proxy adds to a request hold a `Content-Length` exactly
/// when the body is non-empty; it is then the last header line of the
/// request, and its digits denote the body's byte length.
pub proof fn content_length_matches_body(req: InboundRequest, config: ProxyConfig)
    ensures
        ({
            let n = req.body@.len();
            let added = added_headers(token_view(config.auth_token), n);
            &&& n > 0 ==> {
                &&& added.last() == (content_length_name(), decimal(n))
                &&& digits_value(decimal(n)) == n
                &&& wire_head(req, config).subrange(
                    wire_head(req, config).len() - header_line(added.last()).len() - 2,
                    wire_head(req, config).len() as int,
                ) == header_line((content_length_name(), decimal(n))) + crlf()
            }
            &&& n == 0 ==> forall|i: int|
                0 <= i < added.len() ==> (#[trigger] added[i]).0 != content_length_name()
        }),
{
    let hs = fields_view(req.headers@);
    let n = req.body@.len();
    let tok = token_view(config.auth_token);
    let added = added_headers(tok, n);
    let all = outbound_headers(hs, tok, n);
    if n > 0 {
        lemma_decimal_value(n);
        assert(all.drop_last() =~= forwarded(hs) + added.drop_last());
        assert(all.last() == added.last());
        let head = wire_head(req, config);
        let pre = req.method@ + seq![32u8] + req.target@ + crate::request::version_suffix()
            + crate::request::header_lines(all.drop_last());
        assert(head =~= pre + header_line(all.last()) + crlf());
        assert(head.subrange(
            head.len() - header_line(added.last()).len() - 2,
            head.len() as int,
        ) =~= header_line(all.last()) + crlf());
    } else {
        assert forall|i: int| 0 <= i < added.len() implies (#[trigger] added[i]).0
            != content_length_name() by {
            assert(content_length_name()[0] == 67u8);
            assert(api_key_name()[0] == 120u8);
            assert(host_name().len() != content_length_name().len());
        }
    }
}

proof fn lemma_forwarded_from_inbound(hs: Seq<(Seq<u8>, Seq<u8>)>)
    ensures
        forall|i: int|
            0 <= i < forwarded(hs).len() ==> hs.contains(#[trigger] forwarded(hs)[i]),
    decreases hs.len(),
{
    if hs.len() > 0 {
        let pre = hs.drop_last();
        lemma_forwarded_from_inbound(pre);
        assert(pre.push(hs.last()) =~= hs);
        pre.lemma_filter_push(hs.last(), |h: (Seq<u8>, Seq<u8>)| all_visible(h.1));
        let f = forwarded(hs);
        assert forall|i: int| 0 <= i < f.len() implies hs.contains(#[trigger] f[i]) by {
            if i < forwarded(pre).len() {
                assert(f[i] == forwarded(pre)[i]);
                let k = choose|k: int| 0 <= k < pre.len() && pre[k] == f[i];
                assert(hs[k] == f[i]);
            } else {
                assert(f[i] == hs[hs.len() - 1]);
            }
        }
    } else {
        assert(forwarded(hs) =~= hs);
    }
}

/// With a non-empty token configured, the request carries `x-api-key: <token>`
/// right after the forwarded headers. With none, the proxy adds no such
/// header: every header line named `x-api-key`, in any case, is one the
/// client sent.
pub proof fn api_key_present_iff_configured(req: InboundRequest, config: ProxyConfig)
    ensures
        ({
            let tok = token_view(config.auth_token);
            let hs = fields_view(req.headers@);
            let all = outbound_headers(hs, tok, req.body@.len());
            &&& match active_token(tok) {
                Some(t) => all[forwarded(hs).len() as int] == (api_key_name(), t),
                None => forall|i: int|
                    0 <= i < all.len() && name_is((#[trigger] all[i]).0, api_key_name()) ==> i
                        < forwarded(hs).len() && hs.contains(all[i]),
            }
        }),
{
    let tok = token_view(config.auth_token);
    let hs = fields_view(req.headers@);
    let added = added_headers(tok, req.body@.len());
    let all = outbound_headers(hs, tok, req.body@.len());
    let f = forwarded(hs);
    match active_token(tok) {
        Some(_) => {},
        None => {
            lemma_forwarded_from_inbound(hs);
            assert forall|i: int|
                0 <= i < all.len() && name_is((#[trigger] all[i]).0, api_key_name()) implies i
                < f.len() && hs.contains(all[i]) by {
                if i >= f.len() {
                    assert(all[i] == added[i - f.len()]);
                    assert(host_name().len() != api_key_name().len());
                    assert(content_length_name().len() != api_key_name().len());
                } else {
                    assert(all[i] == f[i]);
                }
            }
        },
    }
}

/// No whitespace at either end.
pub open spec fn trimmed(v: Seq<u8>) -> bool {
    ws_len(v, 0) == 0 && ws_len_back(v, 0, v.len() as int) == 0
}

/// A header that survives a trip through the wire unchanged: printable name
/// and value, no colon in the name, no whitespace around either.
pub open spec fn clean_field(h: (Seq<u8>, Seq<u8>)) -> bool {
    &&& all_visible(h.0)
    &&& all_visible(h.1)
    &&& forall|i: int| 0 <= i < h.0.len() ==> #[trigger] h.0[i] != 58
    &&& trimmed(h.0)
    &&& trimmed(h.1)
}

pub open spec fn all_clean(hs: Seq<(Seq<u8>, Seq<u8>)>) -> bool {
    forall|i: int| 0 <= i < hs.len() ==> clean_field(#[trigger] hs[i])
}

pub open spec fn no_lf(s: Seq<u8>) -> bool {
    forall|i: int| 0 <= i < s.len() ==> #[trigger] s[i] != 10
}

/// No line feed is directly followed by a carriage return.
pub open spec fn no_blank_line(s: Seq<u8>) -> bool {
    forall|p: int| 0 <= p && p + 1 < s.len() && #[trigger] s[p] == 10 ==> s[p + 1] != 13
}

proof fn lemma_index_of_found(s: Seq<u8>, b: u8, i: int, j: int)
    requires
        0 <= i <= j <= s.len(),
        forall|k: int| i <= k < j ==> s[k] != b,
        j == s.len() || s[j] == b,
    ensures
        index_of(s, b, i) == j,
    decreases j - i,
{
    if i < j {
        lemma_index_of_found(s, b, i + 1, j);
    }
}

proof fn lemma_separator_found(s: Seq<u8>, i: int, k: int)
    requires
        0 <= i <= k,
        sep_at(s, k),
        forall|j: int| i <= j < k ==> !sep_at(s, j),
    ensures
        separator_from(s, i) == k,
    decreases k - i,
{
    if i < k {
        lemma_separator_found(s, i + 1, k);
    }
}

proof fn lemma_trim_trimmed(v: Seq<u8>)
    requires
        trimmed(v),
    ensures
        trim(v) == v,
{
    assert(ws_end(v, 0) == 0);
    assert(ws_start_back(v, 0, v.len() as int) == v.len());
    assert(v.subrange(0, v.len() as int) =~= v);
}

proof fn lemma_trim_space_prefix(v: Seq<u8>)
    requires
        trimmed(v),
        all_visible(v),
    ensures
        trim(seq![32u8] + v) == v,
{
    let u = seq![32u8] + v;
    let n = u.len() as int;
    assert(u[0] == 32u8);
    assert forall|k: int| 1 <= k < n implies #[trigger] u[k] == v[k - 1] && is_visible(u[k]) by {
        assert(is_visible(v[k - 1]));
    }
    assert(ws_len(u, 0) == 1);
    assert(ws_len(u, 1) == 0) by {
        if v.len() > 0 {
            assert(u[1] == v[0]);
        }
    }
    assert(ws_end(u, 1) == 1);
    assert(ws_end(u, 0) == 1);
    assert(ws_len_back(u, 1, n) == 0) by {
        if v.len() > 0 {
            assert(u[n - 1] == v[v.len() - 1]);
        }
    }
    assert(ws_start_back(u, 1, n) == n);
    assert(u.subrange(1, u.len() as int) =~= v);
}

proof fn lemma_parse_clean_line(h: (Seq<u8>, Seq<u8>))
    requires
        clean_field(h),
    ensures
        header_of_line(h.0 + colon_space() + h.1) == Some(h),
{
    let l = h.0 + colon_space() + h.1;
    let c = h.0.len() as int;
    assert forall|k: int| 0 <= k < c implies l[k] != 58 by {
        assert(l[k] == h.0[k]);
    }
    assert(l[c] == 58);
    lemma_index_of_found(l, 58, 0, c);
    assert(l.subrange(0, c) =~= h.0);
    assert(l.subrange(c + 1, l.len() as int) =~= seq![32u8] + h.1);
    lemma_trim_trimmed(h.0);
    lemma_trim_space_prefix(h.1);
}

proof fn lemma_header_lines_cons(h: (Seq<u8>, Seq<u8>), rest: Seq<(Seq<u8>, Seq<u8>)>)
    ensures
        header_lines(seq![h] + rest) == header_line(h) + header_lines(rest),
    decreases rest.len(),
{
    if rest.len() == 0 {
        assert(seq![h] + rest =~= seq![h]);
        assert(seq![h].drop_last() =~= Seq::<(Seq<u8>, Seq<u8>)>::empty());
        assert(seq![h].last() == h);
        assert(header_lines(Seq::<(Seq<u8>, Seq<u8>)>::empty()) =~= Seq::<u8>::empty());
        assert(header_lines(seq![h]) =~= header_lines(seq![h].drop_last()) + header_line(h));
        assert(header_lines(seq![h]) =~= header_line(h));
    } else {
        let all = seq![h] + rest;
        assert(all.drop_last() =~= seq![h] + rest.drop_last());
        assert(all.last() == rest.last());
        lemma_header_lines_cons(h, rest.drop_last());
        assert(header_lines(all) =~= header_line(h) + header_lines(rest));
    }
}

proof fn lemma_header_line_shape(h: (Seq<u8>, Seq<u8>))
    requires
        clean_field(h),
    ensures
        header_line(h).len() == h.0.len() + h.1.len() + 4,
        header_line(h) == (h.0 + colon_space() + h.1) + crlf(),
        header_line(h)[0] != 13,
        forall|k: int| 0 <= k < header_line(h).len() - 1 ==> #[trigger] header_line(h)[k] != 10,
        header_line(h)[header_line(h).len() - 2] == 13,
        header_line(h)[header_line(h).len() - 1] == 10,
{
    let x = header_line(h);
    let n = h.0.len() as int;
    let v = h.1.len() as int;
    assert forall|k: int| 0 <= k < x.len() - 1 implies #[trigger] x[k] != 10 by {
        if k < n {
            assert(x[k] == h.0[k]);
            assert(is_visible_lf(h.0[k]));
        } else if k < n + 2 {
        } else if k < n + 2 + v {
            assert(x[k] == h.1[k - n - 2]);
            assert(is_visible_lf(h.1[k - n - 2]));
        }
    }
    if n > 0 {
        assert(x[0] == h.0[0]);
        assert(is_visible_lf(h.0[0]));
    }
}

spec fn is_visible_lf(b: u8) -> bool {
    b != 10 && b != 13
}

proof fn lemma_no_blank_concat(a: Seq<u8>, b: Seq<u8>)
    requires
        no_blank_line(a),
        no_blank_line(b),
        b.len() > 0 ==> b[0] != 13,
    ensures
        no_blank_line(a + b),
{
    let s = a + b;
    assert forall|p: int| 0 <= p && p + 1 < s.len() && #[trigger] s[p] == 10 implies s[p + 1]
        != 13 by {
        if p + 1 < a.len() {
            assert(s[p] == a[p] && s[p + 1] == a[p + 1]);
        } else if p + 1 == a.len() {
            assert(s[p + 1] == b[0]);
        } else {
            assert(s[p] == b[p - a.len()] && s[p + 1] == b[p + 1 - a.len()]);
        }
    }
}

proof fn lemma_lines_no_blank(hs: Seq<(Seq<u8>, Seq<u8>)>)
    requires
        all_clean(hs),
    ensures
        no_blank_line(header_lines(hs)),
        hs.len() > 0 ==> header_lines(hs)[0] != 13,
        hs.len() > 0 ==> header_lines(hs).len() >= 4,
        hs.len() > 0 ==> header_lines(hs)[header_lines(hs).len() - 2] == 13,
        hs.len() > 0 ==> header_lines(hs)[header_lines(hs).len() - 1] == 10,
    decreases hs.len(),
{
    if hs.len() > 0 {
        let pre = hs.drop_last();
        assert(all_clean(pre)) by {
            assert forall|i: int| 0 <= i < pre.len() implies clean_field(#[trigger] pre[i]) by {
                assert(pre[i] == hs[i]);
            }
        }
        assert(clean_field(hs[hs.len() - 1]));
        lemma_lines_no_blank(pre);
        let h = hs.last();
        lemma_header_line_shape(h);
        let x = header_line(h);
        assert(no_blank_line(x)) by {
            assert forall|p: int| 0 <= p && p + 1 < x.len() && #[trigger] x[p] == 10 implies x[p
                + 1] != 13 by {
                assert(x[p] != 10);
            }
        }
        lemma_no_blank_concat(header_lines(pre), x);
        assert(header_lines(hs) == header_lines(pre) + x);
        if pre.len() > 0 {
            assert(header_lines(hs)[0] == header_lines(pre)[0]);
        } else {
            assert(header_lines(pre).len() == 0);
            assert(header_lines(hs)[0] == x[0]);
        }
    }
}

proof fn lemma_headers_from_lines(s: Seq<u8>, i: int, hs: Seq<(Seq<u8>, Seq<u8>)>)
    requires
        0 <= i <= s.len(),
        hs.len() > 0,
        all_clean(hs),
        s.subrange(i, s.len() as int) + crlf() == header_lines(hs),
    ensures
        headers_from(s, i) == hs,
    decreases hs.len(),
{
    let h = hs[0];
    let rest = hs.subrange(1, hs.len() as int);
    assert(hs =~= seq![h] + rest);
    assert(clean_field(h));
    lemma_header_lines_cons(h, rest);
    lemma_header_line_shape(h);
    lemma_parse_clean_line(h);
    let x = header_line(h);
    let m = x.len() as int;
    let line = h.0 + colon_space() + h.1;
    let t = s.subrange(i, s.len() as int);
    let full = t + crlf();
    assert(full == x + header_lines(rest));
    assert forall|k: int| 0 <= k < m - 2 implies s[i + k] == #[trigger] line[k] by {
        assert(s[i + k] == t[k]);
        assert(t[k] == full[k]);
        assert(full[k] == x[k]);
    }
    assert forall|k: int| i <= k < i + m - 2 implies s[k] != 10 by {
        assert(s[k] == line[k - i]);
        assert(x[k - i] == line[k - i]);
    }
    if rest.len() == 0 {
        assert(header_lines(rest) =~= Seq::<u8>::empty()) by {
            assert(rest =~= Seq::<(Seq<u8>, Seq<u8>)>::empty());
        }
        assert(full.len() == m);
        assert(s.len() == i + m - 2);
        lemma_index_of_found(s, 10, i, s.len() as int);
        assert(line_text_end(s, i) == s.len());
        assert(line_at(s, i) =~= line);
        assert(next_line(s, i) == s.len() + 1);
        assert(headers_from(s, i) =~= seq![h]);
    } else {
        assert(all_clean(rest)) by {
            assert forall|k: int| 0 <= k < rest.len() implies clean_field(#[trigger] rest[k]) by {
                assert(rest[k] == hs[k + 1]);
            }
        }
        lemma_lines_no_blank(rest);
        assert(full.len() >= m + 4);
        assert(s[i + m - 2] == 13) by {
            assert(s[i + m - 2] == t[m - 2]);
            assert(full[m - 2] == x[m - 2]);
        }
        assert(s[i + m - 1] == 10) by {
            assert(s[i + m - 1] == t[m - 1]);
            assert(full[m - 1] == x[m - 1]);
        }
        assert(s[i + m - 2] != 10);
        lemma_index_of_found(s, 10, i, i + m - 1);
        assert(line_text_end(s, i) == i + m - 2);
        assert(line_at(s, i) =~= line);
        assert(next_line(s, i) == i + m);
        assert(s.subrange(i + m, s.len() as int) + crlf() =~= header_lines(rest)) by {
            assert(full.subrange(m, full.len() as int) =~= header_lines(rest));
            assert(s.subrange(i + m, s.len() as int) + crlf() =~= full.subrange(
                m,
                full.len() as int,
            ));
        }
        lemma_headers_from_lines(s, i + m, rest);
        assert(headers_from(s, i) =~= seq![h] + rest);
    }
}

proof fn lemma_forwarded_all(hs: Seq<(Seq<u8>, Seq<u8>)>)
    requires
        forall|i: int| 0 <= i < hs.len() ==> all_visible(#[trigger] hs[i].1),
    ensures
        forwarded(hs) == hs,
    decreases hs.len(),
{
    if hs.len() > 0 {
        let pre = hs.drop_last();
        assert(forall|i: int| 0 <= i < pre.len() ==> pre[i] == hs[i]);
        lemma_forwarded_all(pre);
        assert(pre.push(hs.last()) =~= hs);
        pre.lemma_filter_push(hs.last(), |h: (Seq<u8>, Seq<u8>)| all_visible(h.1));
    } else {
        assert(forwarded(hs) =~= hs);
    }
}

proof fn lemma_decimal_digits(n: nat)
    ensures
        forall|i: int| 0 <= i < decimal(n).len() ==> 48 <= #[trigger] decimal(n)[i] <= 57,
        decimal(n).len() > 0,
    decreases n,
{
    if n >= 10 {
        lemma_decimal_digits(n / 10);
        let d = decimal(n);
        assert forall|i: int| 0 <= i < d.len() implies 48 <= #[trigger] d[i] <= 57 by {
            if i < d.len() - 1 {
                assert(d[i] == decimal(n / 10)[i]);
            }
        }
    }
}

proof fn lemma_added_clean(tok: Option<Seq<u8>>, n: nat)
    requires
        match active_token(tok) {
            Some(t) => all_visible(t) && trimmed(t),
            None => true,
        },
    ensures
        all_clean(added_headers(tok, n)),
        added_headers(tok, n).len() > 0,
{
    let added = added_headers(tok, n);
    lemma_decimal_digits(n);
    let api = api_key_name();
    let host = host_name();
    let local = localhost();
    let cl = content_length_name();
    assert(clean_field((host, local))) by {
        assert(forall|i: int| 0 <= i < host.len() ==> 65 <= #[trigger] host[i] <= 122);
        assert(forall|i: int| 0 <= i < local.len() ==> 97 <= #[trigger] local[i] <= 122);
    }
    assert forall|i: int| 0 <= i < added.len() implies clean_field(#[trigger] added[i]) by {
        assert(forall|j: int| 0 <= j < api.len() ==> 45 <= #[trigger] api[j] <= 121);
        assert(forall|j: int| 0 <= j < cl.len() ==> 45 <= #[trigger] cl[j] <= 121);
        if n > 0 {
            assert(clean_field((cl, decimal(n))));
        }
        match active_token(tok) {
            Some(t) => {
                assert(clean_field((api, t)));
            },
            None => {},
        }
    }
}

/// For headers with printable values (and names and values that a header line
/// can carry as they are), the header lines of a built request, read back by
/// the response parser, give the forwarded headers in their order, followed by
/// those the proxy adds; the body after the blank line is the request body.
/// A line feed in the method or target would open a line of its own before
/// the headers, and a token with whitespace at its ends comes back trimmed,
/// so those inputs are left out here.
pub proof fn header_round_trip(req: InboundRequest, config: ProxyConfig)
    requires
        all_clean(fields_view(req.headers@)),
        no_lf(req.method@),
        no_lf(req.target@),
        match active_token(token_view(config.auth_token)) {
            Some(t) => all_visible(t) && trimmed(t),
            None => true,
        },
    ensures
        ({
            let w = wire_head(req, config) + req.body@;
            &&& framed(w)
            &&& response_headers(w) == fields_view(req.headers@) + added_headers(
                token_view(config.auth_token),
                req.body@.len(),
            )
            &&& body_of(w) == req.body@
        }),
{
    let hs = fields_view(req.headers@);
    let tok = token_view(config.auth_token);
    let n = req.body@.len();
    let added = added_headers(tok, n);
    assert forall|i: int| 0 <= i < hs.len() implies all_visible(#[trigger] hs[i].1) by {
        assert(clean_field(hs[i]));
    }
    lemma_forwarded_all(hs);
    lemma_added_clean(tok, n);
    let all = hs + added;
    assert(all_clean(all)) by {
        assert forall|i: int| 0 <= i < all.len() implies clean_field(#[trigger] all[i]) by {
            if i < hs.len() {
                assert(all[i] == hs[i]);
            } else {
                assert(all[i] == added[i - hs.len()]);
            }
        }
    }
    assert(outbound_headers(hs, tok, n) == all);
    lemma_lines_no_blank(all);
    let method = req.method@;
    let target = req.target@;
    let l0 = method + seq![32u8] + target + version_suffix();
    let x = header_lines(all);
    let head = wire_head(req, config);
    assert(head =~= l0 + x + crlf());
    let w = head + req.body@;
    let a = l0.len() as int;
    let k = a + x.len() - 2;
    let lx = l0 + x;
    // the request line holds its only line feed at its end
    assert forall|p: int| 0 <= p < a - 1 implies #[trigger] l0[p] != 10 by {
        let mlen = method.len() as int;
        let tlen = target.len() as int;
        if p < mlen {
            assert(l0[p] == method[p]);
        } else if p == mlen {
        } else if p < mlen + 1 + tlen {
            assert(l0[p] == target[p - mlen - 1]);
        } else {
            assert(l0[p] == version_suffix()[p - mlen - 1 - tlen]);
        }
    }
    assert(l0[a - 1] == 10);
    assert(no_blank_line(l0));
    lemma_no_blank_concat(l0, x);
    assert forall|p: int| 0 <= p < lx.len() implies #[trigger] w[p] == lx[p] by {
        assert(w[p] == head[p]);
    }
    assert(sep_at(w, k)) by {
        assert(w[k] == x[x.len() - 2]);
        assert(w[k + 1] == x[x.len() - 1]);
        assert(w[k + 2] == head[k + 2]);
        assert(w[k + 3] == head[k + 3]);
    }
    assert forall|j: int| 0 <= j < k implies !sep_at(w, j) by {
        if sep_at(w, j) {
            assert(w[j + 1] == lx[j + 1]);
            assert(w[j + 2] == lx[j + 2]);
        }
    }
    lemma_separator_found(w, 0, k);
    assert(separator(w) == k);
    let hd = head_of(w);
    assert(hd =~= l0 + x.subrange(0, x.len() - 2));
    assert forall|p: int| 0 <= p < a - 1 implies hd[p] != 10 by {
        assert(hd[p] == l0[p]);
    }
    lemma_index_of_found(hd, 10, 0, a - 1);
    assert(next_line(hd, 0) == a);
    assert(hd.subrange(a, hd.len() as int) + crlf() =~= x) by {
        assert(hd.subrange(a, hd.len() as int) =~= x.subrange(0, x.len() - 2));
    }
    lemma_headers_from_lines(hd, a, all);
    assert(body_of(w) =~= req.body@);
}

proof fn lemma_separator_bounded(s: Seq<u8>, i: int, k: int)
    requires
        0 <= i <= k,
        sep_at(s, k),
    ensures
        i <= separator_from(s, i) <= k,
        sep_at(s, separator_from(s, i)),
        forall|j: int| i <= j < separator_from(s, i) ==> !sep_at(s, j),
    decreases k - i,
{
    if i < k && !sep_at(s, i) {
        lemma_separator_bounded(s, i + 1, k);
    }
}

proof fn lemma_headers_from_prefix(s: Seq<u8>, i: int, hs: Seq<(Seq<u8>, Seq<u8>)>)
    requires
        0 <= i,
        all_clean(hs),
        i + header_lines(hs).len() <= s.len(),
        s.subrange(i, i + header_lines(hs).len()) == header_lines(hs),
    ensures
        headers_from(s, i) == hs + headers_from(s, i + header_lines(hs).len()),
    decreases hs.len(),
{
    if hs.len() == 0 {
        assert(header_lines(hs).len() == 0);
        assert(hs + headers_from(s, i) =~= headers_from(s, i));
    } else {
        let h = hs[0];
        let rest = hs.subrange(1, hs.len() as int);
        assert(hs =~= seq![h] + rest);
        assert(clean_field(h));
        lemma_header_lines_cons(h, rest);
        lemma_header_line_shape(h);
        lemma_parse_clean_line(h);
        let x = header_line(h);
        let m = x.len() as int;
        let line = h.0 + colon_space() + h.1;
        let big = header_lines(hs);
        assert(big == x + header_lines(rest));
        assert forall|k: int| 0 <= k < m implies s[i + k] == #[trigger] x[k] by {
            assert(s[i + k] == s.subrange(i, i + big.len())[k]);
            assert(big[k] == x[k]);
        }
        assert forall|k: int| i <= k < i + m - 1 implies s[k] != 10 by {
            assert(s[k] == x[k - i]);
        }
        lemma_index_of_found(s, 10, i, i + m - 1);
        assert(line_text_end(s, i) == i + m - 2);
        assert(line_at(s, i) =~= line) by {
            assert forall|k: int| 0 <= k < m - 2 implies s.subrange(i, i + m - 2)[k] == line[k] by {
                assert(s[i + k] == x[k]);
            }
        }
        assert(next_line(s, i) == i + m);
        assert(all_clean(rest)) by {
            assert forall|k: int| 0 <= k < rest.len() implies clean_field(#[trigger] rest[k]) by {
                assert(rest[k] == hs[k + 1]);
            }
        }
        assert(s.subrange(i + m, i + m + header_lines(rest).len()) =~= header_lines(rest)) by {
            assert forall|k: int| 0 <= k < header_lines(rest).len() implies s.subrange(
                i + m,
                i + m + header_lines(rest).len(),
            )[k] == header_lines(rest)[k] by {
                assert(s[i + m + k] == s.subrange(i, i + big.len())[m + k]);
                assert(big[m + k] == header_lines(rest)[k]);
            }
        }
        lemma_headers_from_prefix(s, i + m, rest);
        assert(headers_from(s, i) =~= seq![h] + headers_from(s, i + m));
        assert(hs + headers_from(s, i + big.len()) =~= seq![h] + (rest + headers_from(
            s,
            i + m + header_lines(rest).len(),
        )));
    }
}

proof fn lemma_header_lines_concat(a: Seq<(Seq<u8>, Seq<u8>)>, b: Seq<(Seq<u8>, Seq<u8>)>)
    ensures
        header_lines(a + b) == header_lines(a) + header_lines(b),
    decreases b.len(),
{
    if b.len() == 0 {
        assert(a + b =~= a);
        assert(header_lines(b) =~= Seq::<u8>::empty());
        assert(header_lines(a) + header_lines(b) =~= header_lines(a));
    } else {
        assert((a + b).drop_last() =~= a + b.drop_last());
        assert((a + b).last() == b.last());
        lemma_header_lines_concat(a, b.drop_last());
        assert(header_lines(a + b) =~= header_lines(a) + header_lines(b));
    }
}

proof fn lemma_header_line_ends(h: (Seq<u8>, Seq<u8>))
    ensures
        header_line(h).len() >= 4,
        header_line(h)[header_line(h).len() - 2] == 13,
        header_line(h)[header_line(h).len() - 1] == 10,
        h.0.len() > 0 ==> header_line(h)[0] == h.0[0],
{
}

proof fn lemma_added_first(tok: Option<Seq<u8>>, n: nat)
    ensures
        header_lines(added_headers(tok, n)).len() > 0,
        header_lines(added_headers(tok, n))[0] != 13,
        header_lines(added_headers(tok, n))[0] != 10,
{
    let added = added_headers(tok, n);
    let h = added[0];
    let rest = added.subrange(1, added.len() as int);
    assert(added =~= seq![h] + rest);
    lemma_header_lines_cons(h, rest);
    lemma_header_line_ends(h);
    assert(h.0 == api_key_name() || h.0 == host_name());
    assert(h.0[0] == 120u8 || h.0[0] == 72u8);
}

proof fn lemma_added_last(tok: Option<Seq<u8>>, n: nat)
    ensures
        header_lines(added_headers(tok, n)).len() >= 4,
        header_lines(added_headers(tok, n))[header_lines(added_headers(tok, n)).len() - 2] == 13,
        header_lines(added_headers(tok, n))[header_lines(added_headers(tok, n)).len() - 1] == 10,
{
    let added = added_headers(tok, n);
    lemma_header_line_ends(added.last());
    assert(header_lines(added) == header_lines(added.drop_last()) + header_line(added.last()));
}

/// Whatever the configured token, the header lines of a built request, read
/// back by the response parser, begin with exactly the inbound headers, in
/// their order, when those have printable values (and names and values that
/// a header line carries as they are).
#[verifier::rlimit(40)]
pub proof fn inbound_headers_come_back_first(req: InboundRequest, config: ProxyConfig)
    requires
        all_clean(fields_view(req.headers@)),
        no_lf(req.method@),
        no_lf(req.target@),
    ensures
        ({
            let w = wire_head(req, config) + req.body@;
            let hs = fields_view(req.headers@);
            &&& framed(w)
            &&& response_headers(w).len() >= hs.len()
            &&& response_headers(w).subrange(0, hs.len() as int) == hs
        }),
{
    let hs = fields_view(req.headers@);
    let tok = token_view(config.auth_token);
    let n = req.body@.len();
    let added = added_headers(tok, n);
    assert forall|i: int| 0 <= i < hs.len() implies all_visible(#[trigger] hs[i].1) by {
        assert(clean_field(hs[i]));
    }
    lemma_forwarded_all(hs);
    lemma_header_lines_concat(hs, added);
    let method = req.method@;
    let target = req.target@;
    let l0 = method + seq![32u8] + target + version_suffix();
    let xh = header_lines(hs);
    let xa = header_lines(added);
    let head = wire_head(req, config);
    assert(head =~= l0 + xh + xa + crlf());
    let w = head + req.body@;
    let a = l0.len() as int;
    let b = a + xh.len();
    lemma_lines_no_blank(hs);
    // the request line holds its only line feed at its end
    assert forall|p: int| 0 <= p < a - 1 implies #[trigger] l0[p] != 10 by {
        let mlen = method.len() as int;
        let tlen = target.len() as int;
        if p < mlen {
            assert(l0[p] == method[p]);
        } else if p == mlen {
        } else if p < mlen + 1 + tlen {
            assert(l0[p] == target[p - mlen - 1]);
        } else {
            assert(l0[p] == version_suffix()[p - mlen - 1 - tlen]);
        }
    }
    assert(l0[a - 1] == 10);
    assert(no_blank_line(l0));
    lemma_no_blank_concat(l0, xh);
    let lx = l0 + xh;
    // the first byte after the inbound lines starts a header name of the proxy's
    assert(xa.len() > 0 && xa[0] != 13 && xa[0] != 10) by {
        lemma_added_first(tok, n);
    }
    assert forall|p: int| 0 <= p <= b implies #[trigger] w[p] == (lx + seq![xa[0]])[p] by {
        if p < b {
            assert(w[p] == head[p]);
        } else {
            assert(w[p] == xa[0]);
        }
    }
    assert forall|j: int| 0 <= j < b - 1 implies !sep_at(w, j) by {
        if sep_at(w, j) {
            assert(w[j + 1] == lx[j + 1]);
            if j + 2 < b {
                assert(w[j + 2] == lx[j + 2]);
            }
        }
    }
    assert(!sep_at(w, b - 1)) by {
        assert(w[b] == xa[0]);
    }
    let last = head.len() - 4;
    assert(sep_at(w, last)) by {
        lemma_added_last(tok, n);
        assert(w[last] == xa[xa.len() - 2]);
        assert(w[last + 1] == xa[xa.len() - 1]);
        assert(w[last + 2] == head[last + 2]);
        assert(w[last + 3] == head[last + 3]);
    }
    lemma_separator_bounded(w, 0, last);
    let k = separator(w);
    assert(k >= b) by {
        if k < b {
            assert(!sep_at(w, k));
        }
    }
    let hd = head_of(w);
    assert forall|p: int| 0 <= p < b implies hd[p] == #[trigger] lx[p] by {
        assert(hd[p] == w[p]);
    }
    assert forall|p: int| 0 <= p < a - 1 implies hd[p] != 10 by {
        assert(hd[p] == l0[p]);
    }
    assert(hd[a - 1] == 10);
    lemma_index_of_found(hd, 10, 0, a - 1);
    assert(next_line(hd, 0) == a);
    assert(hd.subrange(a, a + xh.len()) =~= xh) by {
        assert forall|p: int| 0 <= p < xh.len() implies hd.subrange(a, a + xh.len())[p]
            == xh[p] by {
            assert(hd[a + p] == lx[a + p]);
        }
    }
    lemma_headers_from_prefix(hd, a, hs);
    assert(response_headers(w).subrange(0, hs.len() as int) =~= hs);
}

} // verus!
