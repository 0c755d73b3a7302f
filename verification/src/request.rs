//! Parsed requests: the request line, a case-insensitive header map,
//! route parameters, and the body. Header names are lowercased on
//! insertion and on lookup, so lookup is case-insensitive.

use vstd::prelude::*;
use vstd::slice::slice_to_vec;
use vstd::string::*;
use vstd::utf8::encode_utf8;

use crate::text::lines_of;
use crate::text::lower_of;
use crate::text::map_views;
use crate::text::spec_lines;
use crate::text::split_at_sep;
use crate::text::split_str;
use crate::text::str_eq;
use crate::text::trim_all;
use crate::text::trim_of;

verus! {

/// A string-keyed map of strings: entries are appended, and for a
/// repeated key the latest entry wins, as repeated insertion into a
/// hash map would leave it.
#[derive(Clone)]
pub struct StrMap {
    entries: Vec<(String, String)>,
}

/// The map that a list of entries denotes: each entry inserted in
/// order, a later entry overriding an earlier one with the same key.
pub open spec fn assoc_view(entries: Seq<(String, String)>) -> Map<Seq<char>, Seq<char>>
    decreases entries.len(),
{
    if entries.len() == 0 {
        Map::empty()
    } else {
        assoc_view(entries.drop_last()).insert(entries.last().0@, entries.last().1@)
    }
}

impl View for StrMap {
    type V = Map<Seq<char>, Seq<char>>;

    closed spec fn view(&self) -> Map<Seq<char>, Seq<char>> {
        assoc_view(self.entries@)
    }
}

impl StrMap {
    /// An empty map.
    pub fn new() -> (r: StrMap)
        ensures
            r@ == Map::<Seq<char>, Seq<char>>::empty(),
    {
        StrMap { entries: Vec::new() }
    }

    /// Binds `key` to `value`, overriding any earlier binding.
    pub fn insert(&mut self, key: String, value: String)
        ensures
            final(self)@ == old(self)@.insert(key@, value@),
    {
        let ghost e0 = self.entries@;
        let ghost kv = key@;
        let ghost vv = value@;
        self.entries.push((key, value));
        proof {
            assert(self.entries@.drop_last() =~= e0);
            assert(self.entries@.last().0@ == kv);
            assert(self.entries@.last().1@ == vv);
        }
    }

    /// Looks `key` up, yielding the value of its latest binding.
    pub fn get(&self, key: &str) -> (r: Option<String>)
        ensures
            r.is_some() == self@.contains_key(key@),
            r matches Some(v) ==> self@.contains_key(key@) && v@ == self@[key@],
    {
        let mut i = self.entries.len();
        proof {
            assert(self.entries@.take(self.entries@.len() as int) =~= self.entries@);
        }
        while i > 0
            invariant
                0 <= i <= self.entries@.len(),
                self@.contains_key(key@) == assoc_view(
                    self.entries@.take(i as int),
                ).contains_key(key@),
                self@.contains_key(key@) ==> self@[key@] == assoc_view(
                    self.entries@.take(i as int),
                )[key@],
            decreases i,
        {
            proof {
                let pre = self.entries@.take(i as int);
                assert(pre.drop_last() =~= self.entries@.take(i - 1));
                assert(pre.last() == self.entries@[i - 1]);
            }
            if str_eq(self.entries[i - 1].0.as_str(), key) {
                return Some(self.entries[i - 1].1.clone());
            }
            i -= 1;
        }
        proof {
            assert(self.entries@.take(0) =~= Seq::<(String, String)>::empty());
        }
        None
    }
}

/// Why a raw request could not be parsed.
#[derive(Clone, Copy, PartialEq, Eq, Debug, Structural)]
pub enum ParseError {
    /// The request line has fewer than three space-separated tokens.
    MalformedRequestLine,
}

/// One parsed request. `params` is empty until routing fills it.
#[derive(Clone)]
pub struct Request {
    pub method: String,
    pub path: String,
    pub protocol: String,
    pub headers: StrMap,
    pub params: StrMap,
    pub body: Option<Vec<u8>>,
    pub static_dir: Option<String>,
}

/// The header map that the lines from `i` on denote, on top of `acc`:
/// lines up to the first empty line, each split at `": "`; a line
/// that does not split into exactly a name and a value is skipped.
pub open spec fn header_fold(
    ls: Seq<Seq<char>>,
    i: int,
    acc: Map<Seq<char>, Seq<char>>,
) -> Map<Seq<char>, Seq<char>>
    decreases ls.len() - i,
{
    if i < 0 || i >= ls.len() || ls[i].len() == 0 {
        acc
    } else {
        let parts = split_at_sep(ls[i], seq![':', ' ']);
        let acc2 = if parts.len() == 2 {
            acc.insert(lower_of(parts[0]), parts[1])
        } else {
            acc
        };
        header_fold(ls, i + 1, acc2)
    }
}

impl Request {
    /// A fresh request with the given parts, no parameters and no
    /// static directory.
    pub fn new(
        method: String,
        path: String,
        protocol: String,
        headers: StrMap,
        body: Option<Vec<u8>>,
    ) -> (r: Request)
        ensures
            r.method == method,
            r.path == path,
            r.protocol == protocol,
            r.spec_headers() == headers@,
            r.params@ == Map::<Seq<char>, Seq<char>>::empty(),
            r.body == body,
            r.static_dir is None,
    {
        Request {
            method,
            path,
            protocol,
            headers,
            params: StrMap::new(),
            body,
            static_dir: None,
        }
    }

    /// The header map, keyed by lowercased names.
    pub open spec fn spec_headers(&self) -> Map<Seq<char>, Seq<char>> {
        self.headers@
    }

    /// The value of a header, looked up case-insensitively.
    pub fn get_header(&self, key: &str) -> (r: Option<String>)
        ensures
            r.is_some() == self.spec_headers().contains_key(lower_of(key@)),
            r matches Some(v) ==> v@ == self.spec_headers()[lower_of(key@)],
    {
        let lk = key.to_lowercase();
        self.headers.get(lk.as_str())
    }

    /// The value of a header, split at commas, each piece trimmed.
    pub fn get_header_valus(&self, key: &str) -> (r: Option<Vec<String>>)
        ensures
            r.is_some() == self.spec_headers().contains_key(lower_of(key@)),
            r matches Some(vs) ==> map_views(vs@) == trim_all(
                split_at_sep(self.spec_headers()[lower_of(key@)], seq![',']),
            ),
    {
        let lk = key.to_lowercase();
        match self.headers.get(lk.as_str()) {
            Some(val) => {
                let comma = ",";
                proof {
                    reveal_strlit(",");
                    assert(comma@ =~= seq![',']);
                }
                let parts = split_str(val.as_str(), comma);
                let ghost pv = split_at_sep(val@, seq![',']);
                let mut out: Vec<String> = Vec::new();
                let mut i: usize = 0;
                proof {
                    assert(map_views(out@) =~= trim_all(pv.subrange(0, 0)));
                    assert(pv.len() == parts@.len());
                }
                while i < parts.len()
                    invariant
                        0 <= i <= parts@.len(),
                        pv == split_at_sep(val@, seq![',']),
                        map_views(parts@) == pv,
                        pv.len() == parts@.len(),
                        map_views(out@) == trim_all(pv.subrange(0, i as int)),
                    decreases parts@.len() - i,
                {
                    let piece = trim_of(parts[i].as_str());
                    proof {
                        assert(parts@[i as int]@ == pv[i as int]);
                        assert(map_views(out@).len() == i);
                        assert forall|j: int| 0 <= j < i implies out@[j]@ == crate::text::trim_spec(
                            pv[j],
                        ) by {
                            assert(map_views(out@)[j] == trim_all(pv.subrange(0, i as int))[j]);
                        }
                        assert(map_views(out@.push(piece)) =~= trim_all(pv.subrange(0, i + 1)));
                    }
                    out.push(piece);
                    i += 1;
                }
                proof {
                    assert(pv.subrange(0, pv.len() as int) =~= pv);
                }
                Some(out)
            },
            None => None,
        }
    }
}

/// The raw buffer cannot be parsed: it has no lines at all, or its
/// first line has fewer than three space-separated tokens.
pub open spec fn malformed_buf(buf: Seq<char>) -> bool {
    spec_lines(buf).len() == 0 || split_at_sep(spec_lines(buf)[0], seq![' ']).len() < 3
}

/// The method token of a parseable buffer's request line.
pub open spec fn buf_method(buf: Seq<char>) -> Seq<char> {
    split_at_sep(spec_lines(buf)[0], seq![' '])[0]
}

/// The path token of a parseable buffer's request line.
pub open spec fn buf_path(buf: Seq<char>) -> Seq<char> {
    split_at_sep(spec_lines(buf)[0], seq![' '])[1]
}

/// `req` carries exactly what parsing `buf` yields: the three
/// request-line tokens, the folded header map, and the last line as
/// the body. Parameters and the static directory are not part of
/// this: routing and configuration set them later.
pub open spec fn parsed_core(buf: Seq<char>, req: Request) -> bool {
    let ls = spec_lines(buf);
    let toks = split_at_sep(ls[0], seq![' ']);
    &&& req.method@ == toks[0]
    &&& req.path@ == toks[1]
    &&& req.protocol@ == toks[2]
    &&& req.spec_headers() == header_fold(ls, 1, Map::empty())
    &&& req.body matches Some(b) && b@ == encode_utf8(ls.last())
}

/// Parses one raw request: the first line must hold at least three
/// space-separated tokens (method, path, protocol); later lines up to
/// the first empty line are headers; the last line of the buffer is
/// taken as the whole body.
pub fn parse_request(buf: &str) -> (r: Result<Request, ParseError>)
    ensures
        (r is Err) == malformed_buf(buf@),
        r matches Ok(req) ==> parsed_core(buf@, req) && req.params@ == Map::<
            Seq<char>,
            Seq<char>,
        >::empty() && req.static_dir is None,
{
    let ls = lines_of(buf);
    let ghost lsv = spec_lines(buf@);
    proof {
        assert(lsv.len() == ls@.len());
    }
    if ls.len() == 0 {
        return Err(ParseError::MalformedRequestLine);
    }
    let sp = " ";
    proof {
        reveal_strlit(" ");
        assert(sp@ =~= seq![' ']);
        assert(ls@[0]@ == lsv[0]);
    }
    let toks = split_str(ls[0].as_str(), sp);
    proof {
        assert(split_at_sep(lsv[0], seq![' ']).len() == toks@.len());
    }
    if toks.len() < 3 {
        return Err(ParseError::MalformedRequestLine);
    }
    let colon_sp = ": ";
    proof {
        reveal_strlit(": ");
        assert(colon_sp@ =~= seq![':', ' ']);
    }
    let mut headers = StrMap::new();
    let mut i: usize = 1;
    while i < ls.len() && !ls[i].as_str().is_empty()
        invariant
            1 <= i <= ls@.len(),
            map_views(ls@) == lsv,
            lsv.len() == ls@.len(),
            colon_sp@ == seq![':', ' '],
            header_fold(lsv, 1, Map::empty()) == header_fold(lsv, i as int, headers@),
        decreases ls@.len() - i,
    {
        proof {
            assert(ls@[i as int]@ == lsv[i as int]);
        }
        let ghost h0 = headers@;
        let parts = split_str(ls[i].as_str(), colon_sp);
        proof {
            assert(split_at_sep(lsv[i as int], seq![':', ' ']).len() == parts@.len());
        }
        if parts.len() == 2 {
            let lname = parts[0].as_str().to_lowercase();
            let value = parts[1].clone();
            proof {
                assert(parts@[0]@ == split_at_sep(lsv[i as int], seq![':', ' '])[0]);
                assert(parts@[1]@ == split_at_sep(lsv[i as int], seq![':', ' '])[1]);
            }
            headers.insert(lname, value);
        }
        proof {
            assert(lsv[i as int].len() != 0);
            assert(header_fold(lsv, i as int, h0) == header_fold(lsv, i + 1, headers@));
        }
        i += 1;
    }
    proof {
        if i < ls@.len() {
            assert(ls@[i as int]@ == lsv[i as int]);
        }
        assert(header_fold(lsv, i as int, headers@) == headers@);
    }
    let method = toks[0].clone();
    let path = toks[1].clone();
    let protocol = toks[2].clone();
    proof {
        assert(toks@[0]@ == split_at_sep(lsv[0], seq![' '])[0]);
        assert(toks@[1]@ == split_at_sep(lsv[0], seq![' '])[1]);
        assert(toks@[2]@ == split_at_sep(lsv[0], seq![' '])[2]);
        assert(ls@[ls@.len() - 1]@ == lsv.last());
    }
    let last_line = &ls[ls.len() - 1];
    let body = slice_to_vec(last_line.as_str().as_bytes());
    Ok(Request::new(method, path, protocol, headers, Some(body)))
}

} // verus!
