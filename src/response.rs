//! The response and its encoding on the wire.
use vstd::prelude::*;
use vstd::utf8::encode_utf8;
use crate::kv::{KeyValues, Pair};
use crate::text::{decimal, decimal_text, lower_of, lowercase};

verus! {

/// The reason phrase of a status code; codes outside the table are `Unknown`.
pub open spec fn reason_phrase(status: u16) -> Seq<char> {
    if status == 100 {
        "Continue"@
    } else if status == 200 {
        "OK"@
    } else if status == 201 {
        "Created"@
    } else if status == 204 {
        "No Content"@
    } else if status == 400 {
        "Bad Request"@
    } else if status == 401 {
        "Unauthorized"@
    } else if status == 403 {
        "Forbidden"@
    } else if status == 404 {
        "Not Found"@
    } else if status == 405 {
        "Method Not Allowed"@
    } else if status == 500 {
        "Internal Server Error"@
    } else {
        "Unknown"@
    }
}

/// `HTTP/1.1 <status> <reason>` and a line end.
pub open spec fn status_line(status: u16) -> Seq<char> {
    "HTTP/1.1 "@ + decimal(status as nat) + " "@ + reason_phrase(status) + "\r\n"@
}

/// A header that the encoder computes itself and so drops from the stored ones.
pub open spec fn is_length_header(name: Seq<char>) -> bool {
    lower_of(name) == "content-length"@
}

/// One `Name: value` line per stored header, in order, leaving out any
/// `Content-Length`.
pub open spec fn header_text(ps: Seq<Pair>) -> Seq<char>
    decreases ps.len(),
{
    if ps.len() == 0 {
        Seq::empty()
    } else if is_length_header(ps.last().0) {
        header_text(ps.drop_last())
    } else {
        header_text(ps.drop_last()) + ps.last().0 + ": "@ + ps.last().1 + "\r\n"@
    }
}

/// The head of a response: status line, stored headers, the computed
/// `Content-Length`, and the blank line.
pub open spec fn head_text(status: u16, ps: Seq<Pair>, body_len: nat) -> Seq<char> {
    status_line(status) + header_text(ps) + "Content-Length: "@ + decimal(body_len) + "\r\n"@
        + "\r\n"@
}

/// The bytes of a response on the wire: the head in UTF-8, then the body.
pub open spec fn encode(status: u16, ps: Seq<Pair>, body: Seq<u8>) -> Seq<u8> {
    encode_utf8(head_text(status, ps, body.len())) + body
}

pub struct Response {
    pub status: u16,
    pub headers: KeyValues,
    pub body: Vec<u8>,
}

fn reason(status: u16) -> (r: &'static str)
    ensures
        r@ == reason_phrase(status),
{
    match status {
        100 => "Continue",
        200 => "OK",
        201 => "Created",
        204 => "No Content",
        400 => "Bad Request",
        401 => "Unauthorized",
        403 => "Forbidden",
        404 => "Not Found",
        405 => "Method Not Allowed",
        500 => "Internal Server Error",
        _ => "Unknown",
    }
}

impl Response {
    /// Status 200, a `Server` header and an empty body.
    pub fn new() -> (r: Response)
        ensures
            r.status == 200,
            r.headers.pairs() == seq![("Server"@, "Xpress/1.0"@)],
            r.headers@ == Map::<Seq<char>, Seq<char>>::empty().insert("Server"@, "Xpress/1.0"@),
            r.body@ == Seq::<u8>::empty(),
    {
        let mut headers = KeyValues::new();
        headers.insert(String::from_str("Server"), String::from_str("Xpress/1.0"));
        assert(headers.pairs() =~= seq![("Server"@, "Xpress/1.0"@)]);
        Response { status: 200, headers, body: Vec::new() }
    }

    pub fn status(self, code: u16) -> (r: Response)
        ensures
            r.status == code,
            r.headers == self.headers,
            r.body == self.body,
    {
        let mut r = self;
        r.status = code;
        r
    }

    /// Sets a header, replacing the value of a header of the same name.
    pub fn header(self, key: &str, value: &str) -> (r: Response)
        ensures
            r.status == self.status,
            r.body == self.body,
            r.headers@ == self.headers@.insert(key@, value@),
    {
        let mut r = self;
        r.headers.insert(String::from_str(key), String::from_str(value));
        r
    }

    /// Sets a text body; the content type becomes plain text unless one is set.
    pub fn body(self, content: &str) -> (r: Response)
        ensures
            r.status == self.status,
            r.body@ == encode_utf8(content@),
            self.headers@.contains_key("Content-Type"@) ==> r.headers == self.headers,
            !self.headers@.contains_key("Content-Type"@) ==> r.headers@ == self.headers@.insert(
                "Content-Type"@,
                "text/plain; charset=utf-8"@,
            ),
    {
        let mut r = self;
        if !r.headers.contains_key("Content-Type") {
            r.headers.insert(
                String::from_str("Content-Type"),
                String::from_str("text/plain; charset=utf-8"),
            );
        }
        r.body = content.as_bytes_vec();
        r
    }

    /// Sets an HTML body.
    pub fn html(self, content: &str) -> (r: Response)
        ensures
            r.status == self.status,
            r.body@ == encode_utf8(content@),
            r.headers@ == self.headers@.insert("Content-Type"@, "text/html; charset=utf-8"@),
    {
        let mut r = self;
        r.headers.insert(
            String::from_str("Content-Type"),
            String::from_str("text/html; charset=utf-8"),
        );
        r.body = content.as_bytes_vec();
        r
    }

    /// Sets a body already encoded as JSON.
    pub fn json_encoded(self, encoded: Vec<u8>) -> (r: Response)
        ensures
            r.status == self.status,
            r.body@ == encoded@,
            r.headers@ == self.headers@.insert("Content-Type"@, "application/json"@),
    {
        let mut r = self;
        r.headers.insert(String::from_str("Content-Type"), String::from_str("application/json"));
        r.body = encoded;
        r
    }

    /// The bytes to write on the connection.
    pub fn to_bytes(&self) -> (r: Vec<u8>)
        ensures
            r@ == encode(self.status, self.headers.pairs(), self.body@),
    {
        let ghost ps = self.headers.pairs();
        let mut head = String::from_str("HTTP/1.1 ");
        head.append(decimal_text(self.status as u64).as_str());
        head.append(" ");
        head.append(reason(self.status));
        head.append("\r\n");
        let entries = self.headers.entries();
        let length_name = String::from_str("content-length");
        let mut i: usize = 0;
        assert(ps.subrange(0, 0) =~= Seq::<Pair>::empty());
        assert(head@ =~= status_line(self.status) + header_text(ps.subrange(0, 0)));
        while i < entries.len()
            invariant
                i <= entries@.len(),
                ps == self.headers.pairs(),
                entries@.map_values(|e: (String, String)| (e.0@, e.1@)) == ps,
                length_name@ == "content-length"@,
                head@ == status_line(self.status) + header_text(ps.subrange(0, i as int)),
            decreases entries@.len() - i,
        {
            let ghost before = head@;
            let ghost done = ps.subrange(0, i as int);
            assert(ps.subrange(0, i + 1).drop_last() =~= done);
            assert(ps.subrange(0, i + 1).last() == ps[i as int]);
            assert(ps[i as int] == (entries@[i as int].0@, entries@[i as int].1@));
            let (name, value) = &entries[i];
            if lowercase(name.as_str()) != length_name {
                head.append(name.as_str());
                head.append(": ");
                head.append(value.as_str());
                head.append("\r\n");
                assert(head@ =~= status_line(self.status) + (header_text(done) + name@ + ": "@
                    + value@ + "\r\n"@));
            }
            i += 1;
        }
        assert(ps.subrange(0, i as int) =~= ps);
        head.append("Content-Length: ");
        head.append(decimal_text(self.body.len() as u64).as_str());
        head.append("\r\n");
        head.append("\r\n");
        assert(head@ =~= head_text(self.status, ps, self.body@.len()));
        let mut out = head.as_str().as_bytes_vec();
        let ghost prefix = out@;
        let mut k: usize = 0;
        while k < self.body.len()
            invariant
                k <= self.body@.len(),
                out@ == prefix + self.body@.subrange(0, k as int),
            decreases self.body@.len() - k,
        {
            out.push(self.body[k]);
            k += 1;
            assert(out@ =~= prefix + self.body@.subrange(0, k as int));
        }
        assert(self.body@.subrange(0, k as int) =~= self.body@);
        out
    }
}

impl Default for Response {
    fn default() -> (r: Response)
        ensures
            r.status == 200,
            r.headers@ == Map::<Seq<char>, Seq<char>>::empty().insert("Server"@, "Xpress/1.0"@),
            r.body@ == Seq::<u8>::empty(),
    {
        Response::new()
    }
}

} // verus!
