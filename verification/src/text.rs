//! Character-level text utilities: splitting on a separator, line
//! splitting, trimming and decimal rendering, each against an exact
//! sequence-level specification.

use vstd::prelude::*;
use vstd::string::*;

verus! {

/// The separator `sep` occurs in `s` starting at position `i`.
pub open spec fn is_sep_at(s: Seq<char>, sep: Seq<char>, i: int) -> bool {
    0 <= i && i + sep.len() <= s.len() && s.subrange(i, i + sep.len() as int) == sep
}

/// The parts of `s` between non-overlapping occurrences of `sep`,
/// scanned left to right, as `str::split` produces them. The result
/// always has at least one part; splitting the empty string yields one
/// empty part.
pub open spec fn split_at_sep(s: Seq<char>, sep: Seq<char>) -> Seq<Seq<char>>
    decreases s.len(),
    when sep.len() >= 1
{
    if s.len() < sep.len() {
        seq![s]
    } else if s.subrange(0, sep.len() as int) == sep {
        seq![Seq::<char>::empty()] + split_at_sep(s.skip(sep.len() as int), sep)
    } else {
        let rest = split_at_sep(s.skip(1), sep);
        seq![seq![s[0]] + rest[0]] + rest.skip(1)
    }
}

pub proof fn lemma_split_nonempty(s: Seq<char>, sep: Seq<char>)
    requires
        sep.len() >= 1,
    ensures
        split_at_sep(s, sep).len() >= 1,
    decreases s.len(),
{
    if s.len() < sep.len() {
    } else if s.subrange(0, sep.len() as int) == sep {
    } else {
        lemma_split_nonempty(s.skip(1), sep);
    }
}

/// When the first occurrence of the separator is at `i`, the split is
/// the prefix before `i` followed by the split of what comes after the
/// separator.
pub proof fn lemma_split_first_sep(s: Seq<char>, sep: Seq<char>, i: int)
    requires
        sep.len() >= 1,
        is_sep_at(s, sep, i),
        forall|j: int| 0 <= j < i ==> !is_sep_at(s, sep, j),
    ensures
        split_at_sep(s, sep) == seq![s.subrange(0, i)] + split_at_sep(
            s.skip(i + sep.len() as int),
            sep,
        ),
    decreases i,
{
    lemma_split_nonempty(s, sep);
    if i == 0 {
        assert(s.subrange(0, sep.len() as int) == sep);
        assert(s.subrange(0, 0) =~= Seq::<char>::empty());
        assert(seq![s.subrange(0, i)] + split_at_sep(s.skip(i + sep.len() as int), sep)
            =~= seq![Seq::<char>::empty()] + split_at_sep(s.skip(sep.len() as int), sep));
    } else {
        assert(!is_sep_at(s, sep, 0));
        assert(s.len() >= i + sep.len());
        assert(s.subrange(0, sep.len() as int) != sep);
        let tail = s.skip(1);
        assert(tail.subrange(i - 1, i - 1 + sep.len() as int) =~= s.subrange(
            i,
            i + sep.len() as int,
        ));
        assert(is_sep_at(tail, sep, i - 1));
        assert forall|j: int| 0 <= j < i - 1 implies !is_sep_at(tail, sep, j) by {
            if 0 <= j < i - 1 && is_sep_at(tail, sep, j) {
                assert(s.subrange(j + 1, j + 1 + sep.len() as int) =~= tail.subrange(
                    j,
                    j + sep.len() as int,
                ));
                assert(is_sep_at(s, sep, j + 1));
            }
        }
        lemma_split_first_sep(tail, sep, i - 1);
        let rest = split_at_sep(tail, sep);
        lemma_split_nonempty(tail, sep);
        assert(rest[0] == tail.subrange(0, i - 1));
        assert(seq![s[0]] + tail.subrange(0, i - 1) =~= s.subrange(0, i));
        assert(tail.skip(i - 1 + sep.len() as int) =~= s.skip(i + sep.len() as int));
        assert(rest.skip(1) =~= split_at_sep(s.skip(i + sep.len() as int), sep));
        assert(split_at_sep(s, sep) =~= seq![s.subrange(0, i)] + split_at_sep(
            s.skip(i + sep.len() as int),
            sep,
        ));
    }
}

/// When the separator occurs nowhere in `s`, the split is `s` alone.
pub proof fn lemma_split_no_sep(s: Seq<char>, sep: Seq<char>)
    requires
        sep.len() >= 1,
        forall|j: int| !is_sep_at(s, sep, j),
    ensures
        split_at_sep(s, sep) == seq![s],
    decreases s.len(),
{
    if s.len() < sep.len() {
    } else {
        assert(!is_sep_at(s, sep, 0));
        assert(s.subrange(0, sep.len() as int) != sep);
        let tail = s.skip(1);
        assert forall|j: int| !is_sep_at(tail, sep, j) by {
            if is_sep_at(tail, sep, j) {
                assert(s.subrange(j + 1, j + 1 + sep.len() as int) =~= tail.subrange(
                    j,
                    j + sep.len() as int,
                ));
                assert(is_sep_at(s, sep, j + 1));
            }
        }
        lemma_split_no_sep(tail, sep);
        assert(seq![s[0]] + tail =~= s);
        assert(split_at_sep(s, sep) =~= seq![s]);
    }
}

/// The views of a vector of strings.
pub open spec fn map_views(v: Seq<String>) -> Seq<Seq<char>> {
    v.map_values(|x: String| x@)
}

/// The views of a vector of pairs of strings.
pub open spec fn pair_views(v: Seq<(String, String)>) -> Seq<(Seq<char>, Seq<char>)> {
    v.map_values(|p: (String, String)| (p.0@, p.1@))
}

/// Whether the characters of `t` stand in `s` starting at position `i`.
pub fn matches_at(s: &str, i: usize, t: &str) -> (r: bool)
    ensures
        r == is_sep_at(s@, t@, i as int),
{
    let n = s.unicode_len();
    let m = t.unicode_len();
    if i > n || m > n - i {
        return false;
    }
    let mut j: usize = 0;
    while j < m
        invariant
            0 <= j <= m,
            m == t@.len(),
            n == s@.len(),
            i + m <= n,
            forall|k: int| 0 <= k < j ==> s@[i + k] == t@[k],
        decreases m - j,
    {
        if s.get_char(i + j) != t.get_char(j) {
            return false;
        }
        j += 1;
    }
    proof {
        assert(s@.subrange(i as int, i as int + t@.len() as int) =~= t@);
    }
    true
}

/// Character-for-character equality of two strings.
pub fn str_eq(a: &str, b: &str) -> (r: bool)
    ensures
        r == (a@ == b@),
{
    let n = a.unicode_len();
    if n != b.unicode_len() {
        proof {
            assert(a@.len() != b@.len());
        }
        return false;
    }
    let r = matches_at(a, 0, b);
    proof {
        if r {
            assert(a@.subrange(0, b@.len() as int) =~= a@);
        } else {
            if a@ == b@ {
                assert(a@.subrange(0, b@.len() as int) =~= b@);
            }
        }
    }
    r
}

/// Splits `s` at each non-overlapping occurrence of `sep`, left to
/// right, as `str::split` does.
pub fn split_str(s: &str, sep: &str) -> (r: Vec<String>)
    requires
        sep@.len() >= 1,
    ensures
        map_views(r@) == split_at_sep(s@, sep@),
{
    let n = s.unicode_len();
    let sl = sep.unicode_len();
    let mut r: Vec<String> = Vec::new();
    let mut start: usize = 0;
    let mut i: usize = 0;
    proof {
        assert(s@.skip(0) =~= s@);
        assert(map_views(Seq::<String>::empty()) + split_at_sep(s@, sep@) =~= split_at_sep(
            s@,
            sep@,
        ));
    }
    while sl <= n && i <= n - sl
        invariant
            sl == sep@.len(),
            n == s@.len(),
            1 <= sl,
            0 <= start <= i <= n,
            split_at_sep(s@, sep@) == map_views(r@) + split_at_sep(s@.skip(start as int), sep@),
            forall|j: int| 0 <= j < i - start ==> !is_sep_at(s@.skip(start as int), sep@, j),
        decreases n - i,
    {
        if matches_at(s, i, sep) {
            let part = s.substring_char(start, i).to_owned();
            proof {
                let suffix = s@.skip(start as int);
                assert(suffix.subrange(i - start, i - start + sep@.len() as int) =~= s@.subrange(
                    i as int,
                    i as int + sep@.len() as int,
                ));
                assert(is_sep_at(suffix, sep@, i - start));
                lemma_split_first_sep(suffix, sep@, i - start);
                assert(suffix.subrange(0, i - start) =~= s@.subrange(start as int, i as int));
                assert(suffix.skip(i - start + sep@.len() as int) =~= s@.skip(
                    i + sl,
                ));
                assert(map_views(r@.push(part)) =~= map_views(r@).push(part@));
                assert(map_views(r@) + split_at_sep(suffix, sep@) =~= map_views(r@.push(part))
                    + split_at_sep(s@.skip(i + sl), sep@));
            }
            r.push(part);
            start = i + sl;
            i = start;
        } else {
            proof {
                let suffix = s@.skip(start as int);
                if is_sep_at(suffix, sep@, i - start) {
                    assert(s@.subrange(i as int, i as int + sep@.len() as int) =~= suffix.subrange(
                        i - start,
                        i - start + sep@.len() as int,
                    ));
                    assert(is_sep_at(s@, sep@, i as int));
                }
            }
            i += 1;
        }
    }
    let last = s.substring_char(start, n).to_owned();
    proof {
        let suffix = s@.skip(start as int);
        assert forall|j: int| !is_sep_at(suffix, sep@, j) by {
            if is_sep_at(suffix, sep@, j) {
                if j < i - start {
                    assert(!is_sep_at(suffix, sep@, j));
                } else {
                    assert(j + sep@.len() <= suffix.len());
                    assert(start + j + sep@.len() <= n);
                    assert(false);
                }
            }
        }
        lemma_split_no_sep(suffix, sep@);
        assert(suffix =~= s@.subrange(start as int, n as int));
        assert(map_views(r@.push(last)) =~= map_views(r@).push(last@));
        assert(map_views(r@) + split_at_sep(suffix, sep@) =~= map_views(r@.push(last)));
    }
    r.push(last);
    r
}

/// A line with one trailing carriage return removed.
pub open spec fn strip_cr(l: Seq<char>) -> Seq<char> {
    if l.len() > 0 && l[l.len() - 1] == '\r' {
        l.drop_last()
    } else {
        l
    }
}

/// Each line stripped of one trailing carriage return.
pub open spec fn strip_all(p: Seq<Seq<char>>) -> Seq<Seq<char>> {
    p.map_values(|l: Seq<char>| strip_cr(l))
}

/// The lines of `s` as `str::lines` yields them: split at `'\n'`, a
/// carriage return before each newline removed, and no final empty
/// line when `s` ends with a newline.
pub open spec fn spec_lines(s: Seq<char>) -> Seq<Seq<char>> {
    let p = split_at_sep(s, seq!['\n']);
    if p[p.len() - 1].len() == 0 {
        strip_all(p.drop_last())
    } else {
        strip_all(p.drop_last()).push(p[p.len() - 1])
    }
}

fn strip_cr_exec(l: &String) -> (r: String)
    ensures
        r@ == strip_cr(l@),
{
    let n = l.as_str().unicode_len();
    if n > 0 && l.as_str().get_char(n - 1) == '\r' {
        let r = l.as_str().substring_char(0, n - 1).to_owned();
        proof {
            assert(l@.subrange(0, n - 1) =~= l@.drop_last());
        }
        r
    } else {
        l.clone()
    }
}

/// The lines of `s`, as `str::lines` yields them.
pub fn lines_of(s: &str) -> (r: Vec<String>)
    ensures
        map_views(r@) == spec_lines(s@),
{
    let newline = "\n";
    proof {
        reveal_strlit("\n");
        assert(newline@ =~= seq!['\n']);
    }
    let parts = split_str(s, newline);
    proof {
        lemma_split_nonempty(s@, seq!['\n']);
    }
    let k = parts.len() - 1;
    let mut r: Vec<String> = Vec::new();
    let mut i: usize = 0;
    proof {
        let p = split_at_sep(s@, seq!['\n']);
        assert(map_views(r@) =~= strip_all(p.subrange(0, 0)));
    }
    while i < k
        invariant
            k == parts.len() - 1,
            parts.len() >= 1,
            0 <= i <= k,
            map_views(parts@) == split_at_sep(s@, seq!['\n']),
            map_views(r@) == strip_all(split_at_sep(s@, seq!['\n']).subrange(0, i as int)),
        decreases k - i,
    {
        let stripped = strip_cr_exec(&parts[i]);
        proof {
            let p = split_at_sep(s@, seq!['\n']);
            assert(p.len() == parts@.len());
            assert(parts@[i as int]@ == p[i as int]);
            assert(map_views(r@).len() == i);
            assert forall|j: int| 0 <= j < i implies r@[j]@ == strip_cr(p[j]) by {
                assert(map_views(r@)[j] == strip_all(p.subrange(0, i as int))[j]);
            }
            assert(map_views(r@.push(stripped)) =~= strip_all(p.subrange(0, i + 1)));
        }
        r.push(stripped);
        i += 1;
    }
    proof {
        let p = split_at_sep(s@, seq!['\n']);
        assert(p.len() == parts@.len());
        assert(p.subrange(0, k as int) =~= p.drop_last());
    }
    if !parts[k].as_str().is_empty() {
        let lastpart = parts[k].clone();
        proof {
            let p = split_at_sep(s@, seq!['\n']);
            assert(p.len() == parts@.len());
            assert(parts@[k as int]@ == p[p.len() - 1]);
            assert(map_views(r@.push(lastpart)) =~= map_views(r@).push(p[p.len() - 1]));
        }
        r.push(lastpart);
    }
    r
}

/// Whether a character counts as white space.
/// Relies on `char::is_whitespace`: whether a character is Unicode
/// white space is a fixed property of the character alone.
pub uninterp spec fn is_space_char(c: char) -> bool;

pub assume_specification[ char::is_whitespace ](c: char) -> (r: bool)
    ensures
        r == is_space_char(c),
;

/// `s` with its white-space prefix removed.
pub open spec fn trim_start_spec(s: Seq<char>) -> Seq<char>
    decreases s.len(),
{
    if s.len() > 0 && is_space_char(s[0]) {
        trim_start_spec(s.skip(1))
    } else {
        s
    }
}

/// `s` with its white-space suffix removed.
pub open spec fn trim_end_spec(s: Seq<char>) -> Seq<char>
    decreases s.len(),
{
    if s.len() > 0 && is_space_char(s[s.len() - 1]) {
        trim_end_spec(s.drop_last())
    } else {
        s
    }
}

/// `s` with white space removed from both ends, as `str::trim` leaves it.
pub open spec fn trim_spec(s: Seq<char>) -> Seq<char> {
    trim_end_spec(trim_start_spec(s))
}

/// Each piece trimmed.
pub open spec fn trim_all(ps: Seq<Seq<char>>) -> Seq<Seq<char>> {
    ps.map_values(|p: Seq<char>| trim_spec(p))
}

/// Removes white space from both ends of `s`.
pub fn trim_of(s: &str) -> (r: String)
    ensures
        r@ == trim_spec(s@),
{
    let n = s.unicode_len();
    let mut lo: usize = 0;
    proof {
        assert(s@.skip(0) =~= s@);
    }
    while lo < n && s.get_char(lo).is_whitespace()
        invariant
            n == s@.len(),
            0 <= lo <= n,
            trim_start_spec(s@) == trim_start_spec(s@.skip(lo as int)),
        decreases n - lo,
    {
        proof {
            assert(s@.skip(lo as int)[0] == s@[lo as int]);
            assert(s@.skip(lo as int).skip(1) =~= s@.skip(lo + 1));
        }
        lo += 1;
    }
    proof {
        assert(trim_start_spec(s@.skip(lo as int)) == s@.skip(lo as int));
        assert(s@.skip(lo as int) =~= s@.subrange(lo as int, n as int));
    }
    let mut hi: usize = n;
    while hi > lo && s.get_char(hi - 1).is_whitespace()
        invariant
            n == s@.len(),
            0 <= lo <= hi <= n,
            trim_start_spec(s@) == s@.subrange(lo as int, n as int),
            trim_end_spec(s@.subrange(lo as int, n as int)) == trim_end_spec(
                s@.subrange(lo as int, hi as int),
            ),
        decreases hi,
    {
        proof {
            let cur = s@.subrange(lo as int, hi as int);
            assert(cur[cur.len() - 1] == s@[hi - 1]);
            assert(cur.drop_last() =~= s@.subrange(lo as int, hi - 1));
        }
        hi -= 1;
    }
    proof {
        assert(trim_end_spec(s@.subrange(lo as int, hi as int)) == s@.subrange(
            lo as int,
            hi as int,
        ));
    }
    s.substring_char(lo, hi).to_owned()
}

/// The lowercase form of a string of characters.
/// Relies on `str::to_lowercase`: the lowercase form depends on the
/// characters alone.
pub uninterp spec fn lower_of(s: Seq<char>) -> Seq<char>;

pub assume_specification[ str::to_lowercase ](s: &str) -> (r: String)
    ensures
        r@ == lower_of(s@),
;

/// The character for a single decimal digit.
pub open spec fn digit_char(d: nat) -> char {
    if d == 0 {
        '0'
    } else if d == 1 {
        '1'
    } else if d == 2 {
        '2'
    } else if d == 3 {
        '3'
    } else if d == 4 {
        '4'
    } else if d == 5 {
        '5'
    } else if d == 6 {
        '6'
    } else if d == 7 {
        '7'
    } else if d == 8 {
        '8'
    } else {
        '9'
    }
}

/// The decimal rendering of `n`, most significant digit first, with no
/// leading zeros (a single `'0'` for zero).
pub open spec fn dec_digits(n: nat) -> Seq<char>
    decreases n,
{
    if n < 10 {
        seq![digit_char(n)]
    } else {
        dec_digits(n / 10).push(digit_char(n % 10))
    }
}

fn dec_digit_exec(d: u64) -> (c: char)
    requires
        d < 10,
    ensures
        c == digit_char(d as nat),
{
    if d == 0 {
        '0'
    } else if d == 1 {
        '1'
    } else if d == 2 {
        '2'
    } else if d == 3 {
        '3'
    } else if d == 4 {
        '4'
    } else if d == 5 {
        '5'
    } else if d == 6 {
        '6'
    } else if d == 7 {
        '7'
    } else if d == 8 {
        '8'
    } else {
        '9'
    }
}

fn dec_vec(n: u64) -> (r: Vec<char>)
    ensures
        r@ == dec_digits(n as nat),
    decreases n,
{
    if n < 10 {
        let mut v: Vec<char> = Vec::new();
        v.push(dec_digit_exec(n));
        proof {
            assert(v@ =~= dec_digits(n as nat));
        }
        v
    } else {
        let mut v = dec_vec(n / 10);
        v.push(dec_digit_exec(n % 10));
        v
    }
}

/// Collects a vector of characters into the string of those characters.
/// Relies on `String`'s `FromIterator` over `char`: collecting
/// characters yields the string of exactly those characters, in order.
#[verifier::external_body]
pub(crate) fn chars_to_string(v: &Vec<char>) -> (r: String)
    ensures
        r@ == v@,
{
    v.iter().collect()
}

/// Renders `n` in decimal.
pub fn u64_to_dec(n: u64) -> (r: String)
    ensures
        r@ == dec_digits(n as nat),
{
    let v = dec_vec(n);
    chars_to_string(&v)
}

} // verus!
