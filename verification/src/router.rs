//! The router: an ordered list of (method, compiled pattern) routes.
//! Dispatch filters by exact method, tries patterns in registration
//! order, and hands back the index of the first route that matches,
//! after filling the request's parameters from the match; the caller
//! invokes the handler registered under that index, or answers 404
//! when nothing matched.

use vstd::prelude::*;
use vstd::string::*;
use vstd::utf8::encode_utf8;

use crate::pattern::matcher_caps;
use crate::pattern::matcher_match;
use crate::pattern::matcher_matches;
use crate::pattern::matcher_ok;
use crate::pattern::parse_path;
use crate::pattern::CompiledMatcher;
use crate::request::buf_method;
use crate::request::buf_path;
use crate::request::header_fold;
use crate::request::malformed_buf;
use crate::request::parse_request;
use crate::request::parsed_core;
use crate::request::Request;
use crate::request::StrMap;
use crate::response::encoding_headers;
use crate::response::header_block;
use crate::response::status_line;
use crate::response::Response;
use crate::text::spec_lines;
use crate::text::pair_views;
use crate::text::str_eq;

verus! {

/// One registered route: a method and the compiled form of the
/// pattern it was registered under.
#[derive(Clone)]
pub struct Route {
    pub method: String,
    pub matcher: CompiledMatcher,
}

/// `r` is a route for `method` compiled from the pattern `pat`.
pub open spec fn route_ok(r: Route, method: Seq<char>, pat: Seq<char>) -> bool {
    r.method@ == method && matcher_ok(r.matcher, pat)
}

/// Route `j` of `app` serves this method and path.
pub open spec fn route_hits(app: Application, j: int, method: Seq<char>, path: Seq<char>) -> bool {
    0 <= j < app.handlers@.len() && app.handlers@[j].method@ == method && matcher_matches(
        app.handlers@[j].matcher,
        path,
    )
}

/// The parameter map that a capture list denotes, each pair inserted
/// in order.
pub open spec fn params_of(caps: Seq<(Seq<char>, Seq<char>)>) -> Map<Seq<char>, Seq<char>>
    decreases caps.len(),
{
    if caps.len() == 0 {
        Map::empty()
    } else {
        params_of(caps.drop_last()).insert(caps.last().0, caps.last().1)
    }
}

/// The server configuration: listening port, body-size limit, the
/// ordered route list, and at most one static directory.
#[derive(Clone)]
pub struct Application {
    pub port: u16,
    pub body_limit: usize,
    pub handlers: Vec<Route>,
    pub static_dir: Option<String>,
}

impl Application {
    /// A fresh application on `port` with no routes and the default
    /// body limit of 100 KiB.
    pub fn new(port: u16) -> (r: Application)
        ensures
            r.port == port,
            r.body_limit == 102400,
            r.handlers@ == Seq::<Route>::empty(),
            r.static_dir is None,
    {
        Application { port, body_limit: 100 * 1024, handlers: Vec::new(), static_dir: None }
    }

    /// Registers a GET route; its handler is addressed by the index
    /// this route gets in registration order.
    pub fn get(&mut self, path: &str)
        ensures
            final(self).handlers@.len() == old(self).handlers@.len() + 1,
            final(self).handlers@.drop_last() == old(self).handlers@,
            route_ok(final(self).handlers@.last(), "GET"@, path@),
            final(self).port == old(self).port,
            final(self).body_limit == old(self).body_limit,
            final(self).static_dir == old(self).static_dir,
    {
        let m = parse_path(path);
        self.handlers.push(Route { method: "GET".to_owned(), matcher: m });
        proof {
            assert(self.handlers@.drop_last() =~= old(self).handlers@);
        }
    }

    /// Registers a POST route, as `get` does.
    pub fn post(&mut self, path: &str)
        ensures
            final(self).handlers@.len() == old(self).handlers@.len() + 1,
            final(self).handlers@.drop_last() == old(self).handlers@,
            route_ok(final(self).handlers@.last(), "POST"@, path@),
            final(self).port == old(self).port,
            final(self).body_limit == old(self).body_limit,
            final(self).static_dir == old(self).static_dir,
    {
        let m = parse_path(path);
        self.handlers.push(Route { method: "POST".to_owned(), matcher: m });
        proof {
            assert(self.handlers@.drop_last() =~= old(self).handlers@);
        }
    }

    /// Mounts a static directory: one GET route per file name, under
    /// `path/<name>`. Only one static directory is allowed; a second
    /// attempt changes nothing and reports failure.
    pub fn static_files(&mut self, path: &str, dir: &str, names: &Vec<String>) -> (ok: bool)
        ensures
            old(self).static_dir is Some ==> !ok && *final(self) == *old(self),
            old(self).static_dir is None ==> ok && {
                &&& final(self).static_dir matches Some(d) && d@ == dir@
                &&& final(self).handlers@.len() == old(self).handlers@.len() + names@.len()
                &&& final(self).handlers@.subrange(0, old(self).handlers@.len() as int) == old(
                    self,
                ).handlers@
                &&& forall|i: int|
                    0 <= i < names@.len() ==> route_ok(
                        #[trigger] final(self).handlers@[old(self).handlers@.len() + i],
                        "GET"@,
                        path@ + "/"@ + names@[i]@,
                    )
            },
            final(self).port == old(self).port,
            final(self).body_limit == old(self).body_limit,
    {
        if self.static_dir.is_some() {
            return false;
        }
        self.static_dir = Some(dir.to_owned());
        let ghost base = self.handlers@.len();
        let mut i: usize = 0;
        while i < names.len()
            invariant
                0 <= i <= names@.len(),
                self.handlers@.len() == base + i,
                base == old(self).handlers@.len(),
                self.handlers@.subrange(0, base as int) == old(self).handlers@,
                forall|j: int|
                    0 <= j < i ==> route_ok(
                        #[trigger] self.handlers@[base + j],
                        "GET"@,
                        path@ + "/"@ + names@[j]@,
                    ),
                self.static_dir matches Some(d) && d@ == dir@,
                self.port == old(self).port,
                self.body_limit == old(self).body_limit,
            decreases names@.len() - i,
        {
            let mut pat = String::new();
            pat.append(path);
            pat.append("/");
            pat.append(names[i].as_str());
            proof {
                assert(pat@ == path@ + "/"@ + names@[i as int]@);
            }
            let ghost h0 = self.handlers@;
            self.get(pat.as_str());
            proof {
                assert(self.handlers@.drop_last() == h0);
                assert(self.handlers@.subrange(0, base as int) =~= h0.subrange(0, base as int));
                assert forall|j: int| 0 <= j < i + 1 implies route_ok(
                    #[trigger] self.handlers@[base + j],
                    "GET"@,
                    path@ + "/"@ + names@[j]@,
                ) by {
                    if j < i {
                        assert(self.handlers@[base + j] == h0[base + j]);
                    } else {
                        assert(self.handlers@[base + j] == self.handlers@.last());
                    }
                }
            }
            i += 1;
        }
        proof {
            assert(self.handlers@.subrange(0, base as int) =~= old(self).handlers@);
        }
        true
    }

    /// Finds the first route whose method equals the request's method
    /// and whose pattern matches the request's path; fills the
    /// request's parameters from that match and yields the route's
    /// index, or `None` when no route serves the request.
    pub fn dispatch(&self, request: &mut Request) -> (r: Option<usize>)
        ensures
            r matches Some(idx) ==> {
                &&& route_hits(*self, idx as int, old(request).method@, old(request).path@)
                &&& forall|j: int|
                    0 <= j < idx ==> !route_hits(
                        *self,
                        j,
                        old(request).method@,
                        old(request).path@,
                    )
                &&& final(request).params@ == params_of(
                    matcher_caps(self.handlers@[idx as int].matcher, old(request).path@),
                )
                &&& final(request).method == old(request).method
                &&& final(request).path == old(request).path
                &&& final(request).protocol == old(request).protocol
                &&& final(request).headers == old(request).headers
                &&& final(request).body == old(request).body
                &&& final(request).static_dir == old(request).static_dir
            },
            r is None ==> (forall|j: int|
                !route_hits(*self, j, old(request).method@, old(request).path@)) && *final(request)
                == *old(request),
    {
        let mut i: usize = 0;
        while i < self.handlers.len()
            invariant
                0 <= i <= self.handlers@.len(),
                forall|j: int|
                    0 <= j < i ==> !route_hits(*self, j, request.method@, request.path@),
                *request == *old(request),
            decreases self.handlers@.len() - i,
        {
            let h = &self.handlers[i];
            if str_eq(h.method.as_str(), request.method.as_str()) {
                if let Some(caps) = matcher_match(&h.matcher, request.path.as_str()) {
                    let ghost cv = pair_views(caps@);
                    let mut params = StrMap::new();
                    let mut k: usize = 0;
                    proof {
                        assert(params_of(cv.take(0)) =~= Map::<Seq<char>, Seq<char>>::empty());
                        assert(params@ =~= params_of(cv.take(0)));
                    }
                    while k < caps.len()
                        invariant
                            0 <= k <= caps@.len(),
                            cv == pair_views(caps@),
                            cv.len() == caps@.len(),
                            params@ == params_of(cv.take(k as int)),
                        decreases caps@.len() - k,
                    {
                        let name = caps[k].0.clone();
                        let value = caps[k].1.clone();
                        proof {
                            assert(cv[k as int] == (caps@[k as int].0@, caps@[k as int].1@));
                            assert(cv.take(k + 1).drop_last() =~= cv.take(k as int));
                            assert(cv.take(k + 1).last() == cv[k as int]);
                        }
                        params.insert(name, value);
                        k += 1;
                    }
                    proof {
                        assert(cv.take(cv.len() as int) =~= cv);
                    }
                    request.params = params;
                    return Some(i);
                }
            }
            i += 1;
        }
        None
    }
}


/// What one connection's buffer routes to.
pub enum Routed {
    /// The handler registered under this index is to answer, with
    /// the request as routing filled it in.
    Matched(usize, Request),
    /// No route serves the request: the complete 404 answer.
    NotFound(Vec<u8>),
    /// The buffer could not be parsed; the connection is closed
    /// without an answer.
    Malformed,
}

impl Application {
    /// The compute step for one connection, its bytes already read:
    /// parse the request, stamp the static directory on it, and
    /// dispatch; an unrouted request becomes a framed 404 answer.
    pub fn route(&self, buf: &str) -> (r: Routed)
        ensures
            (r is Malformed) == malformed_buf(buf@),
            r matches Routed::Matched(idx, req) ==> {
                &&& parsed_core(buf@, req)
                &&& (req.static_dir matches Some(d) ==> self.static_dir matches Some(e)
                    && d@ == e@)
                &&& (req.static_dir is None <==> self.static_dir is None)
                &&& route_hits(*self, idx as int, buf_method(buf@), buf_path(buf@))
                &&& forall|j: int|
                    0 <= j < idx ==> !route_hits(*self, j, buf_method(buf@), buf_path(buf@))
                &&& req.params@ == params_of(
                    matcher_caps(self.handlers@[idx as int].matcher, buf_path(buf@)),
                )
            },
            r matches Routed::NotFound(bytes) ==> {
                &&& !malformed_buf(buf@)
                &&& forall|j: int| !route_hits(*self, j, buf_method(buf@), buf_path(buf@))
                &&& bytes@ == encode_utf8(
                    status_line(404) + header_block(
                        encoding_headers(header_fold(spec_lines(buf@), 1, Map::empty())),
                    ) + "\r\n"@,
                )
            },
    {
        let mut request = match parse_request(buf) {
            Ok(req) => req,
            Err(_) => {
                return Routed::Malformed;
            },
        };
        request.static_dir = match &self.static_dir {
            Some(d) => Some(d.clone()),
            None => None,
        };
        match self.dispatch(&mut request) {
            Some(idx) => Routed::Matched(idx, request),
            None => {
                let ghost greq = request;
                let mut response = Response::new(200, request);
                response.code(404);
                let bytes = response.send();
                proof {
                    assert(greq.method@ == buf_method(buf@));
                    assert(greq.path@ == buf_path(buf@));
                    assert(forall|j: int|
                        !route_hits(*self, j, buf_method(buf@), buf_path(buf@)));
                    assert(greq.spec_headers() == header_fold(spec_lines(buf@), 1, Map::empty()));
                    assert(pair_views(Seq::<(String, String)>::empty())
                        =~= Seq::<(Seq<char>, Seq<char>)>::empty());
                    assert(pair_views(Seq::<(String, String)>::empty()) + encoding_headers(
                        header_fold(spec_lines(buf@), 1, Map::empty()),
                    ) =~= encoding_headers(header_fold(spec_lines(buf@), 1, Map::empty())));
                }
                Routed::NotFound(bytes)
            },
        }
    }
}

/// A method with no registered route hits nothing: dispatching any
/// path under it answers not-found.
pub proof fn lemma_unregistered_method(
    app: Application,
    method: Seq<char>,
    path: Seq<char>,
)
    requires
        forall|j: int| 0 <= j < app.handlers@.len() ==> app.handlers@[j].method@ != method,
    ensures
        forall|j: int| !route_hits(app, j, method, path),
{
    assert forall|j: int| !route_hits(app, j, method, path) by {
        if route_hits(app, j, method, path) {
            assert(app.handlers@[j].method@ == method);
        }
    }
}

} // verus!
