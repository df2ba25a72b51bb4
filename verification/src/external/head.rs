//! Taking a request head apart, with the `httparse` crate.

use httparse::{Status, EMPTY_HEADER};
use vstd::prelude::*;

use crate::h1::head::{HeadView, RawHead, RawHeader};

verus! {

/// `httparse::Error`, opaque.
#[verifier::external_type_specification]
#[verifier::external_body]
pub struct ExHttparseError(httparse::Error);

/// What `httparse::Request::parse` makes of a buffer, given room for so many
/// headers: an error, a head that is not complete yet, or the parts of one.
pub uninterp spec fn http_head(src: Seq<u8>, max_headers: nat) -> Result<
    Option<HeadView>,
    httparse::Error,
>;

/// A parsed head, with the headers by their place in the buffer.
pub open spec fn head_view(r: Result<Option<RawHead>, httparse::Error>) -> Result<
    Option<HeadView>,
    httparse::Error,
> {
    match r {
        Ok(Some(head)) => Ok(Some(head@)),
        Ok(None) => Ok(None),
        Err(e) => Err(e),
    }
}

/// `httparse::Request::parse` takes a request head apart. The result depends on
/// the bytes alone, but for the address of the buffer. A complete head lies at
/// the front of the buffer, and its headers, at most as many as there is room
/// for, lie within it; header values hold no control characters but tabs.
/// Bytes behind a complete head make no difference. Room for more than 64 K
/// headers is not asked for.
#[verifier::external_body]
pub(crate) fn parse_head(src: &[u8], max_headers: usize) -> (r: Result<
    Option<RawHead>,
    httparse::Error,
>)
    requires
        max_headers <= 0x1_0000,
    ensures
        head_view(r) == http_head(src@, max_headers as nat),
        r matches Ok(Some(head)) ==> head.wf(src@) && head.headers@.len() <= max_headers,
        r matches Ok(Some(_)) ==> forall|more: Seq<u8>| #[trigger]
            http_head(src@ + more, max_headers as nat) == http_head(src@, max_headers as nat),
{
    let mut slots = vec![EMPTY_HEADER; max_headers];
    let mut req = httparse::Request::new(&mut slots);
    let len = match req.parse(src)? {
        Status::Complete(len) => len,
        Status::Partial => return Ok(None),
    };
    let headers = req.headers.iter().map(|h| RawHeader {
        name_addr: h.name.as_ptr() as usize, name_len: h.name.len(),
        value_addr: h.value.as_ptr() as usize, value_len: h.value.len(),
    }).collect();
    Ok(Some(RawHead {
        len, method: req.method.unwrap().into(), path: req.path.unwrap().into(),
        version: req.version.unwrap(), base: src.as_ptr() as usize, headers,
    }))
}

} // verus!
