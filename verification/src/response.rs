//! Response framing: a status code and an ordered header list are
//! serialized as a status line, the headers, a blank line and the
//! body. Before any terminal write, content negotiation inspects the
//! originating request's `Accept-Encoding` header and echoes back the
//! first `gzip` or `br` token as a `Content-Encoding` header (no
//! actual compression is performed). A terminal operation consumes
//! the response and yields the full wire bytes.

use vstd::prelude::*;
use vstd::slice::slice_to_vec;
use vstd::string::*;
use vstd::utf8::encode_utf8;

use crate::request::Request;
use crate::text::dec_digits;
use crate::text::lower_of;
use crate::text::map_views;
use crate::text::pair_views;
use crate::text::split_at_sep;
use crate::text::str_eq;
use crate::text::trim_all;
use crate::text::u64_to_dec;

verus! {

/// A response being built for one request. Terminal operations take
/// the response by value: once sent, it cannot be touched again.
pub struct Response {
    pub code: u16,
    pub headers: Vec<(String, String)>,
    pub request: Request,
}

/// The status line emitted for a code: 200, 201 and 404 are
/// recognized, and every other code is rendered as 500.
pub open spec fn status_line(code: u16) -> Seq<char> {
    if code == 200 {
        "HTTP/1.1 200 OK\r\n"@
    } else if code == 201 {
        "HTTP/1.1 201 Created\r\n"@
    } else if code == 404 {
        "HTTP/1.1 404 Not Found\r\n"@
    } else {
        "HTTP/1.1 500 Internal Server Error\r\n"@
    }
}

/// The serialized form of a header list: `name: value` lines in
/// order, duplicates kept.
pub open spec fn header_block(hs: Seq<(Seq<char>, Seq<char>)>) -> Seq<char>
    decreases hs.len(),
{
    if hs.len() == 0 {
        Seq::empty()
    } else {
        hs[0].0 + ": "@ + hs[0].1 + "\r\n"@ + header_block(hs.skip(1))
    }
}

proof fn lemma_header_block_push(hs: Seq<(Seq<char>, Seq<char>)>, p: (Seq<char>, Seq<char>))
    ensures
        header_block(hs.push(p)) == header_block(hs) + p.0 + ": "@ + p.1 + "\r\n"@,
    decreases hs.len(),
{
    reveal_with_fuel(header_block, 3);
    if hs.len() == 0 {
        assert(hs.push(p)[0] == p);
        assert(hs.push(p).skip(1) =~= Seq::<(Seq<char>, Seq<char>)>::empty());
        assert(header_block(hs.push(p)) =~= header_block(hs) + p.0 + ": "@ + p.1 + "\r\n"@);
    } else {
        assert(hs.push(p)[0] == hs[0]);
        assert(hs.push(p).skip(1) =~= hs.skip(1).push(p));
        lemma_header_block_push(hs.skip(1), p);
        assert(header_block(hs.push(p)) =~= header_block(hs) + p.0 + ": "@ + p.1 + "\r\n"@);
    }
}

/// The first `gzip` or `br` token of an encoding list, in input
/// order.
pub open spec fn first_supported(vals: Seq<Seq<char>>) -> Option<Seq<char>>
    decreases vals.len(),
{
    if vals.len() == 0 {
        Option::None
    } else if vals[0] == "gzip"@ || vals[0] == "br"@ {
        Option::Some(vals[0])
    } else {
        first_supported(vals.skip(1))
    }
}

/// The `Content-Encoding` header that content negotiation appends
/// for a request with the given headers: the first supported token
/// of `Accept-Encoding` (split at commas, trimmed), if any.
pub open spec fn encoding_headers(req_headers: Map<Seq<char>, Seq<char>>) -> Seq<
    (Seq<char>, Seq<char>),
> {
    let k = lower_of("Accept-Encoding"@);
    if req_headers.contains_key(k) {
        match first_supported(trim_all(split_at_sep(req_headers[k], seq![',']))) {
            Option::Some(v) => seq![("Content-Encoding"@, v)],
            Option::None => Seq::empty(),
        }
    } else {
        Seq::empty()
    }
}

fn status_line_str(code: u16) -> (r: &'static str)
    ensures
        r@ == status_line(code),
{
    if code == 200 {
        "HTTP/1.1 200 OK\r\n"
    } else if code == 201 {
        "HTTP/1.1 201 Created\r\n"
    } else if code == 404 {
        "HTTP/1.1 404 Not Found\r\n"
    } else {
        "HTTP/1.1 500 Internal Server Error\r\n"
    }
}

impl Response {
    /// A response for `request` starting from `code`, with no headers
    /// yet.
    pub fn new(code: u16, request: Request) -> (r: Response)
        ensures
            r.code == code,
            r.headers@ == Seq::<(String, String)>::empty(),
            r.request == request,
    {
        Response { code, headers: Vec::new(), request }
    }

    /// Replaces the status code.
    pub fn code(&mut self, code: u16)
        ensures
            final(self).code == code,
            final(self).headers == old(self).headers,
            final(self).request == old(self).request,
    {
        self.code = code;
    }

    /// Appends a header; a repeated name is emitted twice.
    pub fn header(&mut self, header: (String, String))
        ensures
            final(self).headers@ == old(self).headers@.push(header),
            final(self).code == old(self).code,
            final(self).request == old(self).request,
    {
        self.headers.push(header);
    }

    /// Appends the negotiated `Content-Encoding` header, if the
    /// request asked for a supported encoding.
    fn set_encoding(&mut self)
        ensures
            pair_views(final(self).headers@) == pair_views(old(self).headers@)
                + encoding_headers(old(self).request.spec_headers()),
            final(self).code == old(self).code,
            final(self).request == old(self).request,
    {
        let ghost h0 = self.headers@;
        match self.request.get_header_valus("Accept-Encoding") {
            Some(values) => {
                let ghost vv = map_views(values@);
                proof {
                    assert(vv.skip(0) =~= vv);
                }
                let mut i: usize = 0;
                while i < values.len()
                    invariant
                        0 <= i <= values@.len(),
                        vv == map_views(values@),
                        vv.len() == values@.len(),
                        first_supported(vv) == first_supported(vv.skip(i as int)),
                        self.headers@ == h0,
                        self.code == old(self).code,
                        self.request == old(self).request,
                        h0 == old(self).headers@,
                        map_views(values@) == trim_all(
                            split_at_sep(
                                old(self).request.spec_headers()[lower_of("Accept-Encoding"@)],
                                seq![','],
                            ),
                        ),
                        old(self).request.spec_headers().contains_key(
                            lower_of("Accept-Encoding"@),
                        ),
                        forall|j: int|
                            0 <= j < i ==> vv[j] != "gzip"@ && vv[j] != "br"@,
                    decreases values@.len() - i,
                {
                    proof {
                        assert(values@[i as int]@ == vv[i as int]);
                        assert(vv.skip(i as int)[0] == vv[i as int]);
                        assert(vv.skip(i as int).skip(1) =~= vv.skip(i + 1));
                    }
                    let gz = "gzip";
                    let br_name = "br";
                    if str_eq(values[i].as_str(), gz) || str_eq(values[i].as_str(), br_name) {
                        let token = values[i].clone();
                        self.headers.push(("Content-Encoding".to_owned(), token));
                        proof {
                            assert(first_supported(vv) == Option::Some(vv[i as int]));
                            assert(pair_views(self.headers@) =~= pair_views(h0) + seq![
                                ("Content-Encoding"@, vv[i as int]),
                            ]);
                        }
                        return ;
                    }
                    i += 1;
                }
                proof {
                    assert(vv.skip(i as int).len() == 0);
                    assert(first_supported(vv) is None);
                    assert(pair_views(self.headers@) =~= pair_views(h0) + encoding_headers(
                        self.request.spec_headers(),
                    ));
                }
            },
            None => {
                proof {
                    assert(pair_views(self.headers@) =~= pair_views(h0) + encoding_headers(
                        self.request.spec_headers(),
                    ));
                }
            },
        }
    }

    /// Serializes the status line, every header and the blank line.
    fn render_head(&self) -> (r: String)
        ensures
            r@ == status_line(self.code) + header_block(pair_views(self.headers@)) + "\r\n"@,
    {
        let mut s = String::new();
        s.append(status_line_str(self.code));
        proof {
            assert(pair_views(self.headers@.subrange(0, 0)) =~= Seq::<(Seq<char>, Seq<char>)>::empty());
            assert(s@ =~= status_line(self.code) + header_block(
                pair_views(self.headers@.subrange(0, 0)),
            ));
        }
        let mut i: usize = 0;
        while i < self.headers.len()
            invariant
                0 <= i <= self.headers@.len(),
                s@ == status_line(self.code) + header_block(
                    pair_views(self.headers@.subrange(0, i as int)),
                ),
            decreases self.headers@.len() - i,
        {
            let ghost pre = pair_views(self.headers@.subrange(0, i as int));
            s.append(self.headers[i].0.as_str());
            s.append(": ");
            s.append(self.headers[i].1.as_str());
            s.append("\r\n");
            proof {
                let p = (self.headers@[i as int].0@, self.headers@[i as int].1@);
                lemma_header_block_push(pre, p);
                assert(pair_views(self.headers@.subrange(0, i + 1)) =~= pre.push(p));
                assert(s@ =~= status_line(self.code) + header_block(pre.push(p)));
            }
            i += 1;
        }
        proof {
            assert(self.headers@.subrange(0, self.headers@.len() as int) =~= self.headers@);
        }
        s.append("\r\n");
        s
    }

    /// Sends the status line and headers with no body, yielding the
    /// full wire bytes. Consumes the response.
    pub fn send(self) -> (out: Vec<u8>)
        ensures
            out@ == encode_utf8(
                status_line(self.code) + header_block(
                    pair_views(self.headers@) + encoding_headers(self.request.spec_headers()),
                ) + "\r\n"@,
            ),
    {
        let mut this = self;
        this.set_encoding();
        let head = this.render_head();
        slice_to_vec(head.as_str().as_bytes())
    }

    /// Sends a text body: adds `Content-Type: text/plain` and the
    /// body's byte length as `Content-Length`, then the body itself.
    /// Consumes the response.
    pub fn send_text(self, data: &str) -> (out: Vec<u8>)
        ensures
            out@ == encode_utf8(
                status_line(self.code) + header_block(
                    pair_views(self.headers@) + encoding_headers(self.request.spec_headers())
                        + seq![
                        ("Content-Type"@, "text/plain"@),
                        ("Content-Length"@, dec_digits(encode_utf8(data@).len())),
                    ],
                ) + "\r\n"@,
            ) + encode_utf8(data@),
    {
        let mut this = self;
        this.set_encoding();
        let ghost h1 = pair_views(this.headers@);
        let mut body = slice_to_vec(data.as_bytes());
        let blen = body.len();
        this.headers.push(("Content-Type".to_owned(), "text/plain".to_owned()));
        this.headers.push(("Content-Length".to_owned(), u64_to_dec(blen as u64)));
        proof {
            assert(pair_views(this.headers@) =~= h1 + seq![
                ("Content-Type"@, "text/plain"@),
                ("Content-Length"@, dec_digits(encode_utf8(data@).len())),
            ]);
        }
        let head = this.render_head();
        let mut out = slice_to_vec(head.as_str().as_bytes());
        out.append(&mut body);
        out
    }

    /// Sends a binary body: adds `Content-Type:
    /// application/octet-stream` and the byte length as
    /// `Content-Length`, then the bytes themselves. Consumes the
    /// response.
    pub fn send_binary(self, data: &[u8]) -> (out: Vec<u8>)
        ensures
            out@ == encode_utf8(
                status_line(self.code) + header_block(
                    pair_views(self.headers@) + encoding_headers(self.request.spec_headers())
                        + seq![
                        ("Content-Type"@, "application/octet-stream"@),
                        ("Content-Length"@, dec_digits(data@.len())),
                    ],
                ) + "\r\n"@,
            ) + data@,
    {
        let mut this = self;
        this.set_encoding();
        let ghost h1 = pair_views(this.headers@);
        let blen = data.len();
        this.headers.push(("Content-Type".to_owned(), "application/octet-stream".to_owned()));
        this.headers.push(("Content-Length".to_owned(), u64_to_dec(blen as u64)));
        proof {
            assert(pair_views(this.headers@) =~= h1 + seq![
                ("Content-Type"@, "application/octet-stream"@),
                ("Content-Length"@, dec_digits(data@.len())),
            ]);
        }
        let head = this.render_head();
        let mut out = slice_to_vec(head.as_str().as_bytes());
        let mut body = slice_to_vec(data);
        out.append(&mut body);
        out
    }
}

} // verus!
