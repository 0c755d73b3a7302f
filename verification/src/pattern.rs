//! Route patterns: `/`-separated segments, where a segment written
//! `:name` captures one or more characters (slashes included) and any
//! other segment matches literally. A compiled pattern anchors both
//! ends of the path. Captures are greedy: of the ways a path can
//! match, the earliest capture takes the longest text, as a
//! backtracking regular-expression engine would choose.

use vstd::prelude::*;
use vstd::string::*;

use crate::text::is_sep_at;
use crate::text::map_views;
use crate::text::pair_views;
use crate::text::matches_at;
use crate::text::split_at_sep;
use crate::text::split_str;
use crate::text::str_eq;

verus! {

/// One compiled segment of a route pattern.
#[derive(Clone)]
pub enum PatSeg {
    /// Matches `/` followed by exactly this text.
    Lit(String),
    /// Matches `/` followed by one or more characters, captured under
    /// this name.
    Capture(String),
}

/// A compiled route pattern. `root` marks the pattern `/`, which
/// matches the root path alone; otherwise the segments must cover the
/// whole path.
#[derive(Clone)]
pub struct CompiledMatcher {
    pub segs: Vec<PatSeg>,
    pub root: bool,
}

/// `caps` is a valid assignment of captured text for a match of the
/// whole of `path` against `segs`: the named captures in order, each
/// paired with the nonempty text it took.
pub open spec fn caps_ok(
    segs: Seq<PatSeg>,
    path: Seq<char>,
    caps: Seq<(Seq<char>, Seq<char>)>,
) -> bool
    decreases segs.len(),
{
    if segs.len() == 0 {
        path.len() == 0 && caps.len() == 0
    } else {
        match segs[0] {
            PatSeg::Lit(l) => path.len() > l@.len() && path[0] == '/' && path.subrange(
                1,
                1 + l@.len() as int,
            ) == l@ && caps_ok(segs.skip(1), path.skip(1 + l@.len() as int), caps),
            PatSeg::Capture(name) => caps.len() >= 1 && caps[0].0 == name@ && 1
                <= caps[0].1.len() && 1 + caps[0].1.len() <= path.len() && path[0] == '/'
                && caps[0].1 == path.subrange(1, 1 + caps[0].1.len() as int) && caps_ok(
                segs.skip(1),
                path.skip(1 + caps[0].1.len() as int),
                caps.skip(1),
            ),
        }
    }
}

/// The path `path` matches the segment list `segs`: some assignment
/// of text to the captures covers the whole path.
pub open spec fn seg_matches(segs: Seq<PatSeg>, path: Seq<char>) -> bool {
    exists|caps: Seq<(Seq<char>, Seq<char>)>| caps_ok(segs, path, caps)
}

/// Some match of `path` against `segs` gives the leading capture
/// exactly `k` characters.
#[verifier::opaque]
pub open spec fn cap_len_ok(segs: Seq<PatSeg>, path: Seq<char>, k: int) -> bool {
    exists|caps: Seq<(Seq<char>, Seq<char>)>| caps_ok(segs, path, caps) && caps[0].1.len() == k
}

/// `k` is the longest length the leading capture can take.
#[verifier::opaque]
pub open spec fn best_cap_len(segs: Seq<PatSeg>, path: Seq<char>, k: int) -> bool {
    cap_len_ok(segs, path, k) && (forall|j: int| #[trigger] cap_len_ok(segs, path, j) ==> j <= k)
}

/// The longest length the leading capture can take (meaningful only
/// when the path matches and the leading segment is a capture).
pub open spec fn greedy_k(segs: Seq<PatSeg>, path: Seq<char>) -> int {
    choose|k: int| best_cap_len(segs, path, k)
}

/// The capture assignment a greedy matcher extracts (meaningful only
/// when `seg_matches` holds).
pub open spec fn greedy_caps(segs: Seq<PatSeg>, path: Seq<char>) -> Seq<(Seq<char>, Seq<char>)>
    decreases segs.len(),
{
    if segs.len() == 0 {
        Seq::empty()
    } else {
        match segs[0] {
            PatSeg::Lit(l) => greedy_caps(segs.skip(1), path.skip(1 + l@.len() as int)),
            PatSeg::Capture(name) => {
                let k = greedy_k(segs, path);
                seq![(name@, path.subrange(1, 1 + k))] + greedy_caps(segs.skip(1), path.skip(1 + k))
            },
        }
    }
}

proof fn lemma_greedy_k_is(segs: Seq<PatSeg>, path: Seq<char>, k: int)
    requires
        best_cap_len(segs, path, k),
    ensures
        greedy_k(segs, path) == k,
{
    let k0 = greedy_k(segs, path);
    assert(exists|kk: int| best_cap_len(segs, path, kk));
    assert(best_cap_len(segs, path, k0));
    assert(k0 == k) by {
        reveal(best_cap_len);
    }
}

/// Matches the suffix of `path` starting at `pos` against the
/// segments of `segs` starting at `i`; on a match, returns the
/// captured parameters in order, extracted greedily.
pub fn match_from(segs: &Vec<PatSeg>, i: usize, path: &str, pos: usize) -> (r: Option<
    Vec<(String, String)>,
>)
    requires
        i <= segs@.len(),
        pos <= path@.len(),
    ensures
        r.is_some() == seg_matches(segs@.skip(i as int), path@.skip(pos as int)),
        r matches Some(v) ==> caps_ok(
            segs@.skip(i as int),
            path@.skip(pos as int),
            pair_views(v@),
        ) && pair_views(v@) == greedy_caps(segs@.skip(i as int), path@.skip(pos as int)),
    decreases segs@.len() - i,
{
    let ghost gsegs = segs@.skip(i as int);
    let ghost gpath = path@.skip(pos as int);
    let n = path.unicode_len();
    if i == segs.len() {
        if pos == n {
            let r: Vec<(String, String)> = Vec::new();
            proof {
                assert(gsegs.len() == 0);
                assert(gpath.len() == 0);
                assert(pair_views(r@) =~= Seq::<(Seq<char>, Seq<char>)>::empty());
                assert(caps_ok(gsegs, gpath, pair_views(r@)));
            }
            Some(r)
        } else {
            proof {
                assert(gpath.len() == path@.len() - pos);
                assert(forall|caps: Seq<(Seq<char>, Seq<char>)>| !caps_ok(gsegs, gpath, caps));
            }
            None
        }
    } else {
        proof {
            assert(gsegs[0] == segs@[i as int]);
            assert(gsegs.skip(1) =~= segs@.skip(i + 1));
        }
        match &segs[i] {
            PatSeg::Lit(l) => {
                let llen = l.as_str().unicode_len();
                if pos < n && path.get_char(pos) == '/' && llen <= n - pos - 1 && matches_at(
                    path,
                    pos + 1,
                    l.as_str(),
                ) {
                    proof {
                        assert(gpath[0] == path@[pos as int]);
                        assert(gpath.subrange(1, 1 + llen as int) =~= path@.subrange(
                            pos + 1,
                            pos + 1 + llen,
                        ));
                        assert(gpath.skip(1 + llen as int) =~= path@.skip(pos + 1 + llen));
                        assert(gpath.len() > llen);
                    }
                    let r = match_from(segs, i + 1, path, pos + 1 + llen);
                    proof {
                        match &r {
                            Some(v) => {
                                assert(caps_ok(gsegs, gpath, pair_views(v@)));
                                assert(seg_matches(gsegs, gpath));
                                assert(pair_views(v@) == greedy_caps(gsegs, gpath));
                            },
                            None => {
                                assert forall|caps: Seq<(Seq<char>, Seq<char>)>| !caps_ok(
                                    gsegs,
                                    gpath,
                                    caps,
                                ) by {
                                    if caps_ok(gsegs, gpath, caps) {
                                        assert(caps_ok(
                                            segs@.skip(i + 1),
                                            path@.skip(pos + 1 + llen),
                                            caps,
                                        ));
                                        assert(seg_matches(
                                            segs@.skip(i + 1),
                                            path@.skip(pos + 1 + llen),
                                        ));
                                    }
                                }
                                assert(!seg_matches(gsegs, gpath));
                            },
                        }
                    }
                    r
                } else {
                    proof {
                        if pos < n && llen <= n - pos - 1 {
                            assert(gpath.subrange(1, 1 + llen as int) =~= path@.subrange(
                                pos + 1,
                                pos + 1 + llen,
                            ));
                            if gpath[0] == '/' && gpath.subrange(1, 1 + llen as int) == l@ {
                                assert(is_sep_at(path@, l@, pos + 1));
                            }
                        }
                        if pos < n {
                            assert(gpath[0] == path@[pos as int]);
                        }
                        assert forall|caps: Seq<(Seq<char>, Seq<char>)>| !caps_ok(
                            gsegs,
                            gpath,
                            caps,
                        ) by {
                            if caps_ok(gsegs, gpath, caps) {
                                assert(gpath.len() > llen && gpath[0] == '/' && gpath.subrange(
                                    1,
                                    1 + llen as int,
                                ) == l@);
                            }
                        }
                        assert(!seg_matches(gsegs, gpath));
                    }
                    None
                }
            },
            PatSeg::Capture(name) => {
                if pos < n && path.get_char(pos) == '/' {
                    let avail = n - pos - 1;
                    let mut k = avail;
                    proof {
                        assert(gpath.len() == n - pos);
                        assert forall|caps: Seq<(Seq<char>, Seq<char>)>| #[trigger] caps_ok(
                            gsegs,
                            gpath,
                            caps,
                        ) implies caps[0].1.len() <= k by {
                            if caps_ok(gsegs, gpath, caps) {
                                assert(1 + caps[0].1.len() <= gpath.len());
                            }
                        }
                    }
                    while k >= 1
                        invariant
                            i < segs@.len(),
                            segs@.len() <= usize::MAX,
                            pos < n,
                            n == path@.len(),
                            avail == n - pos - 1,
                            0 <= k <= avail,
                            gsegs == segs@.skip(i as int),
                            gpath == path@.skip(pos as int),
                            gsegs[0] == segs@[i as int],
                            segs@[i as int] == PatSeg::Capture(*name),
                            gsegs.skip(1) == segs@.skip(i + 1),
                            gpath.len() == n - pos,
                            gpath[0] == '/',
                            forall|caps: Seq<(Seq<char>, Seq<char>)>|
                                #[trigger] caps_ok(gsegs, gpath, caps) ==> caps[0].1.len() <= k,
                        decreases k,
                    {
                        let rest = match_from(segs, i + 1, path, pos + 1 + k);
                        proof {
                            assert(gpath.skip(1 + k as int) =~= path@.skip(pos + 1 + k));
                        }
                        if let Some(tail_caps) = rest {
                            let value = path.substring_char(pos + 1, pos + 1 + k).to_owned();
                            let mut out: Vec<(String, String)> = Vec::new();
                            out.push((name.clone(), value));
                            let mut tc = tail_caps;
                            let ghost tcv = tc@;
                            let ghost out0 = out@;
                            out.append(&mut tc);
                            proof {
                                assert(out@ =~= out0 + tcv);
                                assert(gpath.subrange(1, 1 + k as int) =~= path@.subrange(
                                    pos + 1,
                                    pos + 1 + k,
                                ));
                                let full = pair_views(out@);
                                assert(full =~= seq![(name@, gpath.subrange(1, 1 + k as int))]
                                    + pair_views(tcv));
                                assert(full.skip(1) =~= pair_views(tcv));
                                assert(caps_ok(
                                    gsegs.skip(1),
                                    gpath.skip(1 + k as int),
                                    pair_views(tcv),
                                ));
                                assert(caps_ok(gsegs, gpath, full));
                                assert(seg_matches(gsegs, gpath));
                                assert(cap_len_ok(gsegs, gpath, k as int)) by {
                                    reveal(cap_len_ok);
                                }
                                assert forall|j: int| #[trigger] cap_len_ok(
                                    gsegs,
                                    gpath,
                                    j,
                                ) implies j <= k by {
                                    reveal(cap_len_ok);
                                    let caps = choose|caps: Seq<(Seq<char>, Seq<char>)>|
                                        caps_ok(gsegs, gpath, caps) && caps[0].1.len() == j;
                                    assert(caps_ok(gsegs, gpath, caps));
                                }
                                assert(best_cap_len(gsegs, gpath, k as int)) by {
                                    reveal(best_cap_len);
                                }
                                lemma_greedy_k_is(gsegs, gpath, k as int);
                                assert(pair_views(tcv) == greedy_caps(
                                    gsegs.skip(1),
                                    gpath.skip(1 + k as int),
                                ));
                                assert(full == greedy_caps(gsegs, gpath));
                            }
                            return Some(out);
                        }
                        proof {
                            assert(!seg_matches(segs@.skip(i + 1), path@.skip(pos + 1 + k)));
                            assert forall|caps: Seq<(Seq<char>, Seq<char>)>| #[trigger] caps_ok(
                                gsegs,
                                gpath,
                                caps,
                            ) implies caps[0].1.len() <= k - 1 by {
                                if caps_ok(gsegs, gpath, caps) && caps[0].1.len() == k {
                                    assert(caps_ok(
                                        gsegs.skip(1),
                                        gpath.skip(1 + k as int),
                                        caps.skip(1),
                                    ));
                                    assert(caps_ok(
                                        segs@.skip(i + 1),
                                        path@.skip(pos + 1 + k),
                                        caps.skip(1),
                                    ));
                                    assert(seg_matches(segs@.skip(i + 1), path@.skip(pos + 1 + k)));
                                }
                            }
                        }
                        k -= 1;
                    }
                    proof {
                        assert forall|caps: Seq<(Seq<char>, Seq<char>)>| !caps_ok(
                            gsegs,
                            gpath,
                            caps,
                        ) by {
                            if caps_ok(gsegs, gpath, caps) {
                                assert(caps[0].1.len() <= 0);
                                assert(1 <= caps[0].1.len());
                            }
                        }
                        assert(!seg_matches(gsegs, gpath));
                    }
                    None
                } else {
                    proof {
                        if pos < n {
                            assert(gpath[0] == path@[pos as int]);
                        }
                        assert(gpath.len() == n - pos);
                        assert forall|caps: Seq<(Seq<char>, Seq<char>)>| !caps_ok(
                            gsegs,
                            gpath,
                            caps,
                        ) by {
                            if caps_ok(gsegs, gpath, caps) {
                                assert(1 + caps[0].1.len() <= gpath.len());
                                assert(gpath[0] == '/');
                            }
                        }
                        assert(!seg_matches(gsegs, gpath));
                    }
                    None
                }
            },
        }
    }
}


/// `seg` is what the pattern segment `part` compiles to: a capture
/// named by the rest of the segment when it starts with `:`, a
/// literal otherwise.
pub open spec fn seg_of_part(seg: PatSeg, part: Seq<char>) -> bool {
    if part.len() > 0 && part[0] == ':' {
        match seg {
            PatSeg::Capture(n) => n@ == part.skip(1),
            PatSeg::Lit(_) => false,
        }
    } else {
        match seg {
            PatSeg::Lit(l) => l@ == part,
            PatSeg::Capture(_) => false,
        }
    }
}

/// The nonempty parts, in order.
pub open spec fn drop_empty(parts: Seq<Seq<char>>) -> Seq<Seq<char>>
    decreases parts.len(),
{
    if parts.len() == 0 {
        Seq::empty()
    } else if parts[0].len() == 0 {
        drop_empty(parts.skip(1))
    } else {
        seq![parts[0]] + drop_empty(parts.skip(1))
    }
}

/// The segments of a pattern: its nonempty `/`-separated parts.
pub open spec fn pattern_parts(pat: Seq<char>) -> Seq<Seq<char>> {
    drop_empty(split_at_sep(pat, seq!['/']))
}

/// `m` is the compiled form of the pattern `pat`: the root marker for
/// the pattern `/`, and otherwise one compiled segment per nonempty
/// pattern part.
pub open spec fn matcher_ok(m: CompiledMatcher, pat: Seq<char>) -> bool {
    &&& (m.root <==> pat == seq!['/'])
    &&& (!m.root ==> m.segs@.len() == pattern_parts(pat).len() && (forall|i: int|
        0 <= i < m.segs@.len() ==> seg_of_part(#[trigger] m.segs@[i], pattern_parts(pat)[i])))
}

/// Compiles a route pattern: empty segments are discarded, a segment
/// starting with `:` becomes a named capture, and any other segment a
/// literal; the pattern `/` matches the root path alone.
pub fn parse_path(pat: &str) -> (m: CompiledMatcher)
    ensures
        matcher_ok(m, pat@),
{
    let slash = "/";
    proof {
        reveal_strlit("/");
        assert(slash@ =~= seq!['/']);
    }
    if str_eq(pat, slash) {
        CompiledMatcher { segs: Vec::new(), root: true }
    } else {
        let parts = split_str(pat, slash);
        let ghost pv = split_at_sep(pat@, seq!['/']);
        let mut segs: Vec<PatSeg> = Vec::new();
        let mut i = parts.len();
        proof {
            assert(pv.len() == parts@.len());
            assert(pv.skip(parts@.len() as int) =~= Seq::<Seq<char>>::empty());
        }
        while i > 0
            invariant
                pv == split_at_sep(pat@, seq!['/']),
                map_views(parts@) == pv,
                pv.len() == parts@.len(),
                0 <= i <= parts@.len(),
                segs@.len() == drop_empty(pv.skip(i as int)).len(),
                forall|j: int|
                    0 <= j < segs@.len() ==> seg_of_part(
                        #[trigger] segs@[j],
                        drop_empty(pv.skip(i as int))[j],
                    ),
            decreases i,
        {
            i -= 1;
            let ghost done = drop_empty(pv.skip(i + 1));
            proof {
                assert(pv.skip(i as int)[0] == pv[i as int]);
                assert(pv.skip(i as int).skip(1) =~= pv.skip(i + 1));
                assert(parts@[i as int]@ == pv[i as int]);
            }
            let part = &parts[i];
            let plen = part.as_str().unicode_len();
            if plen > 0 {
                let ghost segs0 = segs@;
                if part.as_str().get_char(0) == ':' {
                    let name = part.as_str().substring_char(1, plen).to_owned();
                    proof {
                        assert(name@ =~= pv[i as int].skip(1));
                        assert(drop_empty(pv.skip(i as int)) =~= seq![pv[i as int]] + done);
                    }
                    segs.insert(0, PatSeg::Capture(name));
                } else {
                    proof {
                        assert(drop_empty(pv.skip(i as int)) =~= seq![pv[i as int]] + done);
                    }
                    segs.insert(0, PatSeg::Lit(part.clone()));
                }
                proof {
                    let cur = drop_empty(pv.skip(i as int));
                    assert(segs0.subrange(0, segs0.len() as int) =~= segs0);
                    assert(segs@.len() == cur.len());
                    assert(seg_of_part(segs@[0], pv[i as int]));
                    assert forall|j: int| 0 <= j < segs@.len() implies seg_of_part(
                        #[trigger] segs@[j],
                        cur[j],
                    ) by {
                        if j == 0 {
                            assert(cur[0] == pv[i as int]);
                        } else {
                            assert(segs@[j] == segs0[j - 1]);
                            assert(cur[j] == done[j - 1]);
                        }
                    }
                }
            } else {
                proof {
                    assert(drop_empty(pv.skip(i as int)) =~= done);
                }
            }
        }
        proof {
            assert(pv.skip(0) =~= pv);
            assert(pat@ != seq!['/']);
        }
        CompiledMatcher { segs, root: false }
    }
}

/// The compiled matcher `m` matches the whole of `path`.
pub open spec fn matcher_matches(m: CompiledMatcher, path: Seq<char>) -> bool {
    if m.root {
        path == seq!['/']
    } else {
        seg_matches(m.segs@, path)
    }
}

/// The parameters `m` extracts from a matching `path`.
pub open spec fn matcher_caps(m: CompiledMatcher, path: Seq<char>) -> Seq<(Seq<char>, Seq<char>)> {
    if m.root {
        Seq::empty()
    } else {
        greedy_caps(m.segs@, path)
    }
}

/// Tests `path` against the compiled pattern `m`; on a match, returns
/// the captured parameters in order.
pub fn matcher_match(m: &CompiledMatcher, path: &str) -> (r: Option<Vec<(String, String)>>)
    ensures
        r.is_some() == matcher_matches(*m, path@),
        r matches Some(v) ==> pair_views(v@) == matcher_caps(*m, path@),
{
    if m.root {
        let n = path.unicode_len();
        if n == 1 && path.get_char(0) == '/' {
            proof {
                assert(path@ =~= seq!['/']);
            }
            let r: Vec<(String, String)> = Vec::new();
            proof {
                assert(pair_views(r@) =~= Seq::<(Seq<char>, Seq<char>)>::empty());
            }
            Some(r)
        } else {
            proof {
                if path@ == seq!['/'] {
                    assert(path@.len() == 1);
                    assert(path@[0] == '/');
                }
            }
            None
        }
    } else {
        proof {
            assert(m.segs@.skip(0) =~= m.segs@);
            assert(path@.skip(0) =~= path@);
        }
        match_from(&m.segs, 0, path, 0)
    }
}


/// The literal path a list of pattern parts spells: `/part` for each
/// part in order.
pub open spec fn canon_parts(parts: Seq<Seq<char>>) -> Seq<char>
    decreases parts.len(),
{
    if parts.len() == 0 {
        Seq::empty()
    } else {
        seq!['/'] + parts[0] + canon_parts(parts.skip(1))
    }
}

/// The normalized path of a pattern: `/` for the root pattern, and
/// otherwise its nonempty segments each behind one slash.
pub open spec fn normalized_pattern(pat: Seq<char>) -> Seq<char> {
    if pat == seq!['/'] {
        seq!['/']
    } else {
        canon_parts(pattern_parts(pat))
    }
}

/// No part is a capture segment.
pub open spec fn literal_parts(parts: Seq<Seq<char>>) -> bool {
    forall|i: int|
        0 <= i < parts.len() ==> !((#[trigger] parts[i]).len() > 0 && parts[i][0] == ':')
}

proof fn lemma_literal_exact(segs: Seq<PatSeg>, parts: Seq<Seq<char>>, path: Seq<char>)
    requires
        segs.len() == parts.len(),
        forall|i: int| 0 <= i < segs.len() ==> seg_of_part(#[trigger] segs[i], parts[i]),
        literal_parts(parts),
    ensures
        seg_matches(segs, path) <==> path == canon_parts(parts),
    decreases segs.len(),
{
    if segs.len() == 0 {
        if path.len() == 0 {
            assert(caps_ok(segs, path, Seq::empty()));
            assert(seg_matches(segs, path));
            assert(path =~= canon_parts(parts));
        } else {
            assert(forall|caps: Seq<(Seq<char>, Seq<char>)>| !caps_ok(segs, path, caps));
            assert(canon_parts(parts).len() == 0);
        }
    } else {
        assert(seg_of_part(segs[0], parts[0]));
        assert(!(parts[0].len() > 0 && parts[0][0] == ':'));
        assert(segs[0] is Lit);
        let l = segs[0]->Lit_0;
        assert(l@ == parts[0]);
        let tailsegs = segs.skip(1);
        let tailparts = parts.skip(1);
        assert forall|i: int| 0 <= i < tailsegs.len() implies seg_of_part(
            #[trigger] tailsegs[i],
            tailparts[i],
        ) by {
            assert(tailsegs[i] == segs[i + 1]);
            assert(tailparts[i] == parts[i + 1]);
            assert(seg_of_part(segs[i + 1], parts[i + 1]));
        }
        assert(literal_parts(tailparts)) by {
            assert forall|i: int|
                0 <= i < tailparts.len() implies !((#[trigger] tailparts[i]).len() > 0
                && tailparts[i][0] == ':') by {
                assert(tailparts[i] == parts[i + 1]);
            }
        }
        let llen = l@.len() as int;
        let canon = canon_parts(parts);
        assert(canon == seq!['/'] + parts[0] + canon_parts(tailparts));
        if seg_matches(segs, path) {
            let caps = choose|caps: Seq<(Seq<char>, Seq<char>)>| caps_ok(segs, path, caps);
            assert(caps_ok(segs, path, caps));
            assert(path.len() > llen && path[0] == '/' && path.subrange(1, 1 + llen) == l@);
            assert(caps_ok(tailsegs, path.skip(1 + llen), caps));
            assert(seg_matches(tailsegs, path.skip(1 + llen)));
            lemma_literal_exact(tailsegs, tailparts, path.skip(1 + llen));
            assert(path.skip(1 + llen) == canon_parts(tailparts));
            assert(path =~= seq!['/'] + parts[0] + canon_parts(tailparts));
        }
        if path == canon {
            assert(path.len() == 1 + parts[0].len() + canon_parts(tailparts).len());
            assert(path[0] == '/');
            assert(path.subrange(1, 1 + llen) =~= parts[0]);
            assert(path.skip(1 + llen) =~= canon_parts(tailparts));
            lemma_literal_exact(tailsegs, tailparts, path.skip(1 + llen));
            assert(seg_matches(tailsegs, path.skip(1 + llen)));
            let tailpath = path.skip(1 + llen);
            let caps2 = choose|caps2: Seq<(Seq<char>, Seq<char>)>|
                caps_ok(tailsegs, tailpath, caps2);
            assert(caps_ok(tailsegs, tailpath, caps2));
            assert(caps_ok(segs, path, caps2));
            assert(seg_matches(segs, path));
        }
    }
}

/// A matcher compiled from a pattern without capture segments
/// matches exactly one path: the pattern's own normalized form.
pub proof fn lemma_literal_pattern_exact(m: CompiledMatcher, pat: Seq<char>, path: Seq<char>)
    requires
        matcher_ok(m, pat),
        literal_parts(pattern_parts(pat)),
    ensures
        matcher_matches(m, path) <==> path == normalized_pattern(pat),
{
    if m.root {
    } else {
        lemma_literal_exact(m.segs@, pattern_parts(pat), path);
    }
}

} // verus!
