//! The parts of a request head, and where they stand in the buffer.

use vstd::prelude::*;

use crate::external::message::is_header_value;

verus! {

/// A header in memory: the addresses and lengths of its name and its value.
#[derive(Debug, Clone, Copy)]
pub struct RawHeader {
    pub name_addr: usize,
    pub name_len: usize,
    pub value_addr: usize,
    pub value_len: usize,
}

impl RawHeader {
    /// Whether the header lies in the first `len` bytes at address `base`.
    pub open spec fn lies_within(self, base: usize, len: usize) -> bool {
        &&& base <= self.name_addr
        &&& self.name_addr - base + self.name_len <= len
        &&& base <= self.value_addr
        &&& self.value_addr - base + self.value_len <= len
    }

    /// The places of name and value, counted from address `base`.
    pub open spec fn index(self, base: usize) -> HeaderIndex {
        let name = self.name_addr - base;
        let value = self.value_addr - base;
        HeaderIndex {
            name: (name as usize, (name + self.name_len) as usize),
            value: (value as usize, (value + self.value_len) as usize),
        }
    }
}

/// A complete request head, taken apart but not interpreted.
#[derive(Debug)]
pub struct RawHead {
    /// How many bytes the head takes up, with the empty line that ends it.
    pub len: usize,
    /// The method.
    pub method: Vec<u8>,
    /// The request target.
    pub path: String,
    /// The minor version, which is 1 for HTTP/1.1.
    pub version: u8,
    /// The address of the buffer that the headers stand in.
    pub base: usize,
    /// The headers.
    pub headers: Vec<RawHeader>,
}

/// A [`RawHead`], with the headers by their place in the buffer. Where the buffer
/// itself lies in memory is left out.
pub struct HeadView {
    pub len: usize,
    pub method: Seq<u8>,
    pub path: Seq<char>,
    pub version: u8,
    pub headers: Seq<HeaderIndex>,
}

impl HeadView {
    /// Whether this is a head at the front of `src`: it ends in there, the
    /// headers lie within it, and the values hold no control characters.
    pub open spec fn wf(self, src: Seq<u8>) -> bool {
        &&& self.len <= src.len()
        &&& forall|i: int|
            0 <= i < self.headers.len() ==> (#[trigger] self.headers[i]).wf(
                src.take(self.len as int),
            )
    }
}

impl View for RawHead {
    type V = HeadView;

    open spec fn view(&self) -> HeadView {
        HeadView {
            len: self.len,
            method: self.method@,
            path: self.path@,
            version: self.version,
            headers: self.headers@.map_values(|h: RawHeader| h.index(self.base)),
        }
    }
}

impl RawHead {
    /// Whether this is a head at the front of `src`, which starts at the
    /// address `base`.
    pub open spec fn wf(&self, src: Seq<u8>) -> bool {
        &&& self@.wf(src)
        &&& forall|i: int|
            0 <= i < self.headers@.len() ==> (#[trigger] self.headers@[i]).lies_within(
                self.base,
                self.len,
            )
    }
}

/// The length from which on a text is too long for a header name.
pub const MAX_NAME_LEN: usize = 0x1_0000;

/// The place of a header in a buffer: where its name and its value start and end.
#[derive(Debug, Clone, Copy)]
pub struct HeaderIndex {
    pub name: (usize, usize),
    pub value: (usize, usize),
}

impl HeaderIndex {
    /// Whether this is the place of a header in `head`.
    pub open spec fn wf(self, head: Seq<u8>) -> bool {
        &&& self.name.0 <= self.name.1 <= head.len()
        &&& self.value.0 <= self.value.1 <= head.len()
        &&& is_header_value(self.value_in(head))
    }

    /// Whether the name is not too long to be one.
    pub open spec fn name_fits(self) -> bool {
        self.name.1 - self.name.0 < MAX_NAME_LEN
    }

    /// The name, as it is written in `head`.
    pub open spec fn name_in(self, head: Seq<u8>) -> Seq<u8> {
        head.subrange(self.name.0 as int, self.name.1 as int)
    }

    /// The value, as it is written in `head`.
    pub open spec fn value_in(self, head: Seq<u8>) -> Seq<u8> {
        head.subrange(self.value.0 as int, self.value.1 as int)
    }

    /// Writes the places of `headers`, which lie in a buffer at address `base`,
    /// into the first of `indices`, as far as there are any.
    pub fn record(base: usize, headers: &[RawHeader], indices: &mut [HeaderIndex])
        requires
            forall|i: int|
                0 <= i < headers@.len() ==> (#[trigger] headers@[i]).lies_within(base, usize::MAX),
        ensures
            final(indices)@.len() == old(indices)@.len(),
            forall|i: int|
                0 <= i < final(indices)@.len() ==> #[trigger] final(indices)@[i] == if i
                    < headers@.len() {
                    headers@[i].index(base)
                } else {
                    old(indices)@[i]
                },
    {
        let mut i: usize = 0;
        while i < headers.len() && i < indices.len()
            invariant
                i <= headers@.len(),
                i <= indices@.len(),
                indices@.len() == old(indices)@.len(),
                forall|j: int|
                    0 <= j < headers@.len() ==> (#[trigger] headers@[j]).lies_within(
                        base,
                        usize::MAX,
                    ),
                forall|j: int|
                    0 <= j < indices@.len() ==> #[trigger] indices@[j] == if j < i {
                        headers@[j].index(base)
                    } else {
                        old(indices)@[j]
                    },
            decreases headers@.len() - i,
        {
            let header: RawHeader = headers[i];
            assert(header.lies_within(base, usize::MAX));
            let name_start: usize = header.name_addr - base;
            let name_end: usize = name_start + header.name_len;
            let value_start: usize = header.value_addr - base;
            let value_end: usize = value_start + header.value_len;
            indices[i] = HeaderIndex {
                name: (name_start, name_end),
                value: (value_start, value_end),
            };
            i += 1;
        }
    }
}

/// Places count bytes from the start of the buffer: a name or a value stands at
/// its address, and is as long as it is. All headers are there, in their order,
/// and the rest of the head is as it was parsed.
pub proof fn law_places(head: RawHead, i: int)
    requires
        0 <= i < head.headers@.len(),
        head.headers@[i].lies_within(head.base, head.len),
    ensures
        head@.len == head.len,
        head@.method == head.method@,
        head@.path == head.path@,
        head@.version == head.version,
        head@.headers.len() == head.headers@.len(),
        head.base + head@.headers[i].name.0 == head.headers@[i].name_addr,
        head.base + head@.headers[i].value.0 == head.headers@[i].value_addr,
        head@.headers[i].name.1 - head@.headers[i].name.0 == head.headers@[i].name_len,
        head@.headers[i].value.1 - head@.headers[i].value.0 == head.headers@[i].value_len,
{
}

} // verus!
