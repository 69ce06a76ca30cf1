//! The outbound HTTP message: a mutable builder (status, headers, body)
//! and a serializer whose contract pins down every byte that is written.

use vstd::prelude::*;

verus! {

use vstd::utf8::encode_utf8;

/// Carriage return, in ASCII.
pub const CR: u8 = 13;

/// Line feed, in ASCII.
pub const LF: u8 = 10;

/// Colon, in ASCII.
pub const COLON: u8 = 58;

/// Space, in ASCII.
pub const SP: u8 = 32;

/// The bytes of `HTTP/1.1 ` (the protocol version token and one space), in ASCII.
pub open spec fn protocol_prefix() -> Seq<u8> {
    seq![72u8, 84u8, 84u8, 80u8, 47u8, 49u8, 46u8, 49u8, 32u8]
}

/// The bytes of `Content-Length: `, in ASCII.
pub open spec fn content_length_prefix() -> Seq<u8> {
    seq![
        67u8, 111u8, 110u8, 116u8, 101u8, 110u8, 116u8, 45u8, 76u8, 101u8, 110u8, 103u8, 116u8,
        104u8, 58u8, 32u8,
    ]
}

/// The shortest decimal rendering of `n`, as ASCII digit bytes,
/// most significant digit first.
pub open spec fn spec_decimal(n: nat) -> Seq<u8>
    decreases n,
{
    if n < 10 {
        seq![(48 + n) as u8]
    } else {
        spec_decimal(n / 10).push((48 + n % 10) as u8)
    }
}

/// The wire form of one header: `name: value` followed by CRLF,
/// the name and value encoded as UTF-8.
pub open spec fn spec_header_line(h: (String, String)) -> Seq<u8> {
    encode_utf8(h.0@) + seq![COLON, SP] + encode_utf8(h.1@) + seq![CR, LF]
}

/// The wire form of a whole header block, in insertion order.
pub open spec fn spec_header_block(hs: Seq<(String, String)>) -> Seq<u8>
    decreases hs.len(),
{
    if hs.len() == 0 {
        Seq::<u8>::empty()
    } else {
        spec_header_block(hs.drop_last()) + spec_header_line(hs.last())
    }
}

/// An outbound HTTP message under construction: status code (200 until
/// set), headers in insertion order with duplicates preserved, and a raw
/// byte body (empty until set).
pub struct Response {
    pub status_code: u16,
    pub headers: Vec<(String, String)>,
    pub body: Vec<u8>,
}

/// The exact bytes a response puts on the wire: the status line, every
/// header previously added in insertion order, exactly one well-formed
/// `Content-Length` header whose value is the byte length of the body, a
/// blank line, and then the raw body bytes.
pub open spec fn spec_serialize(r: Response) -> Seq<u8> {
    protocol_prefix() + spec_decimal(r.status_code as nat) + seq![CR, LF] + spec_header_block(
        r.headers@,
    ) + content_length_prefix() + spec_decimal(r.body@.len()) + seq![CR, LF] + seq![CR, LF]
    + r.body@
}

/// Appends every byte of `src` to `dst`, in order.
fn push_bytes(dst: &mut Vec<u8>, src: &[u8])
    ensures
        final(dst)@ == old(dst)@ + src@,
{
    let mut i: usize = 0;
    while i < src.len()
        invariant
            i <= src@.len(),
            dst@ == old(dst)@ + src@.take(i as int),
        decreases src@.len() - i,
    {
        dst.push(src[i]);
        i = i + 1;
        assert(dst@ =~= old(dst)@ + src@.take(i as int));
    }
    assert(src@.take(src@.len() as int) =~= src@);
}

/// Renders `n` in decimal as ASCII digit bytes, most significant first.
fn decimal_bytes(n: u64) -> (r: Vec<u8>)
    ensures
        r@ == spec_decimal(n as nat),
    decreases n,
{
    if n < 10 {
        let mut v: Vec<u8> = Vec::new();
        v.push(48u8 + n as u8);
        assert(v@ =~= spec_decimal(n as nat));
        v
    } else {
        let mut v = decimal_bytes(n / 10);
        v.push(48u8 + (n % 10) as u8);
        assert(v@ =~= spec_decimal(n as nat));
        v
    }
}

impl Response {
    /// A fresh response: status 200, no headers, empty body.
    pub fn new() -> (r: Response)
        ensures
            r.status_code == 200,
            r.headers@ == Seq::<(String, String)>::empty(),
            r.body@ == Seq::<u8>::empty(),
    {
        Response { status_code: 200, headers: Vec::new(), body: Vec::new() }
    }

    /// Overwrites the status code.
    pub fn set_status_code(&mut self, status_code: u16)
        ensures
            final(self).status_code == status_code,
            final(self).headers == old(self).headers,
            final(self).body == old(self).body,
    {
        self.status_code = status_code;
    }

    /// Appends one header; duplicate names are legal and preserved in order.
    pub fn add_header(&mut self, name: String, value: String)
        ensures
            final(self).status_code == old(self).status_code,
            final(self).headers@ == old(self).headers@.push((name, value)),
            final(self).body == old(self).body,
    {
        self.headers.push((name, value));
    }

    /// Overwrites the body, replacing any prior body.
    pub fn set_body(&mut self, body: Vec<u8>)
        ensures
            final(self).status_code == old(self).status_code,
            final(self).headers == old(self).headers,
            final(self).body == body,
    {
        self.body = body;
    }

    /// Serializes the response to the exact wire bytes given by
    /// `spec_serialize`.
    pub fn to_bytes(&self) -> (r: Vec<u8>)
        ensures
            r@ == spec_serialize(*self),
    {
        let mut out: Vec<u8> = Vec::new();
        out.push(72);
        out.push(84);
        out.push(84);
        out.push(80);
        out.push(47);
        out.push(49);
        out.push(46);
        out.push(49);
        out.push(32);
        assert(out@ =~= protocol_prefix());

        let code = decimal_bytes(self.status_code as u64);
        push_bytes(&mut out, code.as_slice());
        out.push(CR);
        out.push(LF);
        let ghost after_status = protocol_prefix() + spec_decimal(self.status_code as nat) + seq![
            CR,
            LF,
        ];
        assert(out@ =~= after_status);

        let mut i: usize = 0;
        while i < self.headers.len()
            invariant
                i <= self.headers@.len(),
                out@ == after_status + spec_header_block(self.headers@.take(i as int)),
            decreases self.headers@.len() - i,
        {
            let name_bytes = self.headers[i].0.as_str().as_bytes();
            push_bytes(&mut out, name_bytes);
            out.push(COLON);
            out.push(SP);
            let value_bytes = self.headers[i].1.as_str().as_bytes();
            push_bytes(&mut out, value_bytes);
            out.push(CR);
            out.push(LF);
            i = i + 1;
            proof {
                let hs = self.headers@;
                assert(hs.take(i as int).drop_last() =~= hs.take(i - 1));
                assert(hs.take(i as int).last() == hs[i - 1]);
                assert(out@ =~= after_status + spec_header_block(hs.take(i as int)));
            }
        }
        assert(self.headers@.take(self.headers@.len() as int) =~= self.headers@);
        let ghost after_headers = after_status + spec_header_block(self.headers@);

        out.push(67);
        out.push(111);
        out.push(110);
        out.push(116);
        out.push(101);
        out.push(110);
        out.push(116);
        out.push(45);
        out.push(76);
        out.push(101);
        out.push(110);
        out.push(103);
        out.push(116);
        out.push(104);
        out.push(58);
        out.push(32);
        assert(out@ =~= after_headers + content_length_prefix());

        let len_bytes = decimal_bytes(self.body.len() as u64);
        push_bytes(&mut out, len_bytes.as_slice());
        out.push(CR);
        out.push(LF);
        out.push(CR);
        out.push(LF);
        let ghost after_length = after_headers + content_length_prefix() + spec_decimal(
            self.body@.len(),
        ) + seq![CR, LF] + seq![CR, LF];
        assert(out@ =~= after_length);

        push_bytes(&mut out, self.body.as_slice());
        assert(out@ =~= spec_serialize(*self));
        out
    }
}

} // verus!
