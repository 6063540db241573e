//! Who sent a request, for diagnostics only.
use vstd::prelude::*;
use crate::message::{fields_view, HeaderField};
use crate::request::is_printable;
use crate::scan::{all_visible, find_byte, index_of, trim, trimmed_range};

verus! {

/// `"x-forwarded-for"`
pub open spec fn forwarded_for_name() -> Seq<u8> {
    seq![120u8, 45u8, 102u8, 111u8, 114u8, 119u8, 97u8, 114u8, 100u8, 101u8, 100u8, 45u8, 102u8, 111u8, 114u8]
}

/// `"unknown"`
pub open spec fn unknown_client() -> Seq<u8> {
    seq![117u8, 110u8, 107u8, 110u8, 111u8, 119u8, 110u8]
}

pub open spec fn ascii_lower(b: u8) -> u8 {
    if 65 <= b <= 90 {
        (b + 32) as u8
    } else {
        b
    }
}

/// `name` equals the lower-case `target`, ignoring ASCII case.
pub open spec fn name_is(name: Seq<u8>, target: Seq<u8>) -> bool {
    name.len() == target.len() && forall|i: int| 0 <= i < name.len() ==> ascii_lower(
        #[trigger] name[i],
    ) == target[i]
}

/// The value of the first `X-Forwarded-For` header at or after index `i`.
pub open spec fn forwarded_for_from(hs: Seq<(Seq<u8>, Seq<u8>)>, i: int) -> Option<Seq<u8>>
    decreases hs.len() - i,
{
    if i < 0 || i >= hs.len() {
        None
    } else if name_is(hs[i].0, forwarded_for_name()) {
        Some(hs[i].1)
    } else {
        forwarded_for_from(hs, i + 1)
    }
}

/// The first comma-separated entry of a printable `X-Forwarded-For`, trimmed;
/// otherwise the peer address; otherwise `unknown`.
pub open spec fn client_identity_spec(hs: Seq<(Seq<u8>, Seq<u8>)>, peer: Option<Seq<u8>>) -> Seq<
    u8,
> {
    let fallback = match peer {
        Some(p) => p,
        None => unknown_client(),
    };
    match forwarded_for_from(hs, 0) {
        Some(v) => if all_visible(v) {
            trim(v.subrange(0, index_of(v, 44, 0)))
        } else {
            fallback
        },
        None => fallback,
    }
}

fn is_forwarded_for(name: &[u8]) -> (r: bool)
    ensures
        r == name_is(name@, forwarded_for_name()),
{
    let target: Vec<u8> = vec![
        120u8, 45u8, 102u8, 111u8, 114u8, 119u8, 97u8, 114u8, 100u8, 101u8, 100u8, 45u8, 102u8,
        111u8, 114u8,
    ];
    assert(target@ == forwarded_for_name());
    if name.len() != target.len() {
        return false;
    }
    let mut i: usize = 0;
    while i < name.len()
        invariant
            0 <= i <= name@.len(),
            name@.len() == target@.len(),
            target@ == forwarded_for_name(),
            forall|k: int| 0 <= k < i ==> ascii_lower(#[trigger] name@[k]) == target@[k],
        decreases name@.len() - i,
    {
        let b = name[i];
        let l: u8 = if 65 <= b && b <= 90 { b + 32 } else { b };
        if l != target[i] {
            return false;
        }
        i = i + 1;
    }
    true
}

fn peer_or_unknown(peer: Option<Vec<u8>>) -> (r: Vec<u8>)
    ensures
        r@ == match peer {
            Some(p) => p@,
            None => unknown_client(),
        },
{
    match peer {
        Some(p) => p,
        None => vec![117u8, 110u8, 107u8, 110u8, 111u8, 119u8, 110u8],
    }
}

/// Names the client for diagnostics.
pub fn client_identity(headers: &Vec<HeaderField>, peer: Option<Vec<u8>>) -> (r: Vec<u8>)
    ensures
        r@ == client_identity_spec(
            fields_view(headers@),
            match peer {
                Some(p) => Some(p@),
                None => None,
            },
        ),
{
    let ghost hs = fields_view(headers@);
    let mut i: usize = 0;
    while i < headers.len()
        invariant
            0 <= i <= headers@.len(),
            hs == fields_view(headers@),
            forwarded_for_from(hs, i as int) == forwarded_for_from(hs, 0),
        decreases headers@.len() - i,
    {
        assert(hs[i as int] == headers@[i as int]@);
        if is_forwarded_for(headers[i].name.as_slice()) {
            let v = headers[i].value.as_slice();
            if is_printable(v) {
                let c = find_byte(v, 44, 0);
                return trimmed_range(v, 0, c);
            }
            return peer_or_unknown(peer);
        }
        i = i + 1;
    }
    peer_or_unknown(peer)
}

} // verus!
