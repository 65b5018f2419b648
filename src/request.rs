//! The request and its parsing from the head of an HTTP/1.1 message.
use vstd::prelude::*;
use crate::error::XpressError;
use crate::kv::{pairs_map, KeyValues, Pair};
use crate::parser::{parse_query, query_map};
use crate::text::{
    keep_non_empty, lower_of, lowercase, parse_usize, parse_usize_text, split, split_once,
    split_once_text, split_text, trim, trim_text, words,
};

verus! {

/// The method and the target of a request line: its first two words.
pub open spec fn request_target(line: Seq<char>) -> Option<(Seq<char>, Seq<char>)> {
    let ws = words(line);
    if ws.len() < 2 {
        None
    } else {
        Some((ws[0], ws[1]))
    }
}

/// The path of a request target: the text before the first `?`.
pub open spec fn target_path(t: Seq<char>) -> Seq<char> {
    match split_once(t, "?"@) {
        Some((p, _)) => p,
        None => t,
    }
}

/// The query of a request target: what follows the first `?`, if anything.
pub open spec fn target_query(t: Seq<char>) -> Map<Seq<char>, Seq<char>> {
    match split_once(t, "?"@) {
        Some((_, q)) => query_map(q),
        None => Map::empty(),
    }
}

/// `e` is where the header block of `ls` ends: at the first empty line, or at
/// the end.
pub open spec fn block_end(ls: Seq<Seq<char>>, e: int) -> bool {
    &&& 0 <= e <= ls.len()
    &&& (e == ls.len() || ls[e].len() == 0)
    &&& forall|j: int| 0 <= j < e ==> #[trigger] ls[j].len() > 0
}

/// The header lines among the lines that follow the request line.
pub open spec fn header_lines(ls: Seq<Seq<char>>) -> Seq<Seq<char>> {
    ls.subrange(0, choose|e: int| block_end(ls, e))
}

/// A header line `Name: value` gives the lower-cased name and the trimmed
/// value; a line without `": "` gives nothing.
pub open spec fn header_field(line: Seq<char>) -> Option<Pair> {
    match split_once(line, ": "@) {
        Some((k, v)) => Some((lower_of(k), trim(v))),
        None => None,
    }
}

pub open spec fn header_pairs(hs: Seq<Seq<char>>) -> Seq<Pair>
    decreases hs.len(),
{
    if hs.len() == 0 {
        Seq::empty()
    } else {
        let rest = header_pairs(hs.drop_last());
        match header_field(hs.last()) {
            Some(f) => rest.push(f),
            None => rest,
        }
    }
}

/// The headers that the lines after the request line declare; a repeated name
/// keeps its last value.
pub open spec fn header_map(ls: Seq<Seq<char>>) -> Map<Seq<char>, Seq<char>> {
    pairs_map(header_pairs(header_lines(ls)))
}

/// The body length that headers declare: `content-length` read as an unsigned
/// number, if it is one.
pub open spec fn declared_length(headers: Map<Seq<char>, Seq<char>>) -> Option<usize> {
    if headers.contains_key("content-length"@) {
        parse_usize(headers["content-length"@])
    } else {
        None
    }
}

#[derive(Debug)]
pub struct Request {
    pub path: String,
    pub method: String,
    pub headers: KeyValues,
    pub params: KeyValues,
    pub query: KeyValues,
    pub body: Vec<u8>,
}

/// Relies on `std::io::Error::new`: the error for a stream that closed before
/// the declared body length was read.
#[verifier::external_body]
fn body_cut_short() -> std::io::Error {
    std::io::Error::new(std::io::ErrorKind::UnexpectedEof, "stream closed before the body was complete")
}

impl Request {
    pub fn default() -> (r: Request)
        ensures
            r.path@ == Seq::<char>::empty(),
            r.method@ == Seq::<char>::empty(),
            r.headers@ == Map::<Seq<char>, Seq<char>>::empty(),
            r.params@ == Map::<Seq<char>, Seq<char>>::empty(),
            r.query@ == Map::<Seq<char>, Seq<char>>::empty(),
            r.body@ == Seq::<u8>::empty(),
    {
        Request {
            path: String::new(),
            method: String::new(),
            headers: KeyValues::new(),
            params: KeyValues::new(),
            query: KeyValues::new(),
            body: Vec::new(),
        }
    }

    /// Parses the head of a request: the request line, then header lines up to
    /// the first empty line. The body is left empty.
    pub fn from_head(lines: &Vec<String>) -> (r: Result<Request, XpressError>)
        ensures
            lines@.len() == 0 ==> r matches Err(XpressError::ParsingError(_)),
            lines@.len() > 0 ==> match request_target(lines@[0]@) {
                None => r matches Err(XpressError::ParsingError(_)),
                Some((m, t)) => r matches Ok(req) && {
                    &&& req.method@ == m
                    &&& req.path@ == target_path(t)
                    &&& req.query@ == target_query(t)
                    &&& req.headers@ == header_map(crate::text::views(lines@).drop_first())
                    &&& req.params@ == Map::<Seq<char>, Seq<char>>::empty()
                    &&& req.body@ == Seq::<u8>::empty()
                },
            },
    {
        if lines.len() == 0 {
            return Err(XpressError::ParsingError(String::from_str("Missing request line")));
        }
        let line = lines[0].as_str();
        let ws = keep_non_empty(split_text(line, None));
        if ws.len() < 2 {
            let mut msg = String::from_str("Malformed request line: ");
            msg.append(line);
            return Err(XpressError::ParsingError(msg));
        }
        let mut req = Request::default();
        req.method = ws[0].clone();
        match split_once_text(ws[1].as_str(), "?") {
            Some((p, q)) => {
                req.path = p;
                req.query = parse_query(q.as_str());
            },
            None => {
                req.path = ws[1].clone();
            },
        }
        let ghost t = ws@[1]@;
        assert(request_target(lines@[0]@) == Some((ws@[0]@, t)));
        assert(req.path@ == target_path(t));
        assert(req.query@ == target_query(t));
        let ghost ls = crate::text::views(lines@).drop_first();
        let mut i: usize = 1;
        assert(ls.subrange(0, 0) =~= Seq::<Seq<char>>::empty());
        while i < lines.len() && !lines[i].as_str().is_empty()
            invariant
                1 <= i <= lines@.len(),
                ls == crate::text::views(lines@).drop_first(),
                request_target(lines@[0]@) == Some((req.method@, t)),
                req.path@ == target_path(t),
                req.query@ == target_query(t),
                req.params@ == Map::<Seq<char>, Seq<char>>::empty(),
                req.body@ == Seq::<u8>::empty(),
                forall|j: int| 0 <= j < i - 1 ==> #[trigger] ls[j].len() > 0,
                req.headers@ == pairs_map(header_pairs(ls.subrange(0, i - 1))),
            decreases lines@.len() - i,
        {
            let ghost done = ls.subrange(0, i - 1);
            assert(ls.subrange(0, i as int).drop_last() =~= done);
            assert(ls[i - 1] == lines@[i as int]@);
            match split_once_text(lines[i].as_str(), ": ") {
                Some((k, v)) => {
                    let ghost f = (lower_of(k@), trim(v@));
                    assert(header_pairs(ls.subrange(0, i as int)) == header_pairs(done).push(f));
                    assert(header_pairs(done).push(f).drop_last() =~= header_pairs(done));
                    req.headers.insert(lowercase(k.as_str()), trim_text(v.as_str()));
                },
                None => {
                    assert(header_pairs(ls.subrange(0, i as int)) == header_pairs(done));
                },
            }
            i += 1;
        }
        assert(block_end(ls, i - 1));
        let ghost e = choose|e: int| block_end(ls, e);
        assert(e == i - 1) by {
            if e < i - 1 {
                assert(ls[e].len() > 0);
            } else if e > i - 1 {
                assert(ls[i - 1].len() > 0);
            }
        }
        Ok(req)
    }

    /// The body length that the headers declare.
    pub fn content_length(&self) -> (r: Option<usize>)
        ensures
            r == declared_length(self.headers@),
    {
        match self.headers.get("content-length") {
            Some(v) => parse_usize_text(v.as_str()),
            None => None,
        }
    }

    /// Completes a parsed head with the bytes that followed it on the stream:
    /// the body is the declared number of bytes, and fewer than that is an I/O
    /// error. Without a declared length the body stays empty.
    pub fn attach_body(self, received: Vec<u8>) -> (r: Result<Request, XpressError>)
        ensures
            match declared_length(self.headers@) {
                None => r matches Ok(req) && req.body@ == Seq::<u8>::empty(),
                Some(n) => if received@.len() < n {
                    r matches Err(XpressError::IoError(_))
                } else {
                    r matches Ok(req) && req.body@ == received@.subrange(0, n as int)
                },
            },
            r matches Ok(req) ==> {
                &&& req.method == self.method
                &&& req.path == self.path
                &&& req.headers == self.headers
                &&& req.params == self.params
                &&& req.query == self.query
            },
    {
        let mut req = self;
        match req.content_length() {
            None => {
                req.body = Vec::new();
                Ok(req)
            },
            Some(n) => {
                if received.len() < n {
                    Err(XpressError::IoError(body_cut_short()))
                } else {
                    let mut body = received;
                    body.truncate(n);
                    req.body = body;
                    Ok(req)
                }
            },
        }
    }

    /// The body to decode as JSON; an empty body is refused.
    pub fn json_body(&self) -> (r: Result<&Vec<u8>, XpressError>)
        ensures
            self.body@.len() == 0 ==> (r matches Err(XpressError::Custom(m)) && m@
                == "Empty request body"@),
            self.body@.len() > 0 ==> (r matches Ok(b) && b@ == self.body@),
    {
        if self.body.len() == 0 {
            return Err(XpressError::Custom(String::from_str("Empty request body")));
        }
        Ok(&self.body)
    }
}

} // verus!
