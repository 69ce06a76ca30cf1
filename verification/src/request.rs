//! The inbound HTTP message: parsing the request line and the header
//! lines out of the text one connection carried, with an explicit error
//! channel instead of an unrecoverable fault.
//!
//! The wire shape is given by spec functions over `Seq<char>`:
//! `spec_lines` cuts the input into lines up to the first blank line,
//! `spec_request_line` splits the first line on whitespace into method and
//! path, and `spec_header_kv` splits every later line on its first colon.
//! `Request::new` is proved to return exactly `spec_parse_request` of its
//! input.

use vstd::prelude::*;

verus! {

use vstd::string::StrSliceExecFns;

/// Parsing failures, one per malformed shape the header block can take.
#[derive(Clone, Copy, PartialEq, Eq, Structural, Debug)]
pub enum ParseError {
    /// No line was read before the blank line or end of input.
    MissingRequestLine,
    /// The request line holds fewer than two tokens.
    MalformedRequestLine,
    /// A header line has no colon.
    MalformedHeader,
}

/// A parsed inbound message: method, path, and headers in arrival order
/// with duplicate names preserved and names kept verbatim.
pub struct Request {
    pub method: String,
    pub path: String,
    pub headers: Vec<(String, String)>,
}

/// The mathematical shape of a parsed request.
pub struct RequestModel {
    pub method: Seq<char>,
    pub path: Seq<char>,
    pub headers: Seq<(Seq<char>, Seq<char>)>,
}

impl View for Request {
    type V = RequestModel;

    open spec fn view(&self) -> RequestModel {
        RequestModel {
            method: self.method@,
            path: self.path@,
            headers: self.headers.deep_view(),
        }
    }
}

/// Whitespace, for token splitting and value trimming.
pub open spec fn is_space_char(c: char) -> bool {
    c == ' ' || c == '\t'
}

/// Holds of whitespace characters.
pub open spec fn space_p() -> spec_fn(char) -> bool {
    |c: char| is_space_char(c)
}

/// Holds of non-whitespace characters.
pub open spec fn non_space_p() -> spec_fn(char) -> bool {
    |c: char| !is_space_char(c)
}

/// Holds exactly of the character `t`.
pub open spec fn char_p(t: char) -> spec_fn(char) -> bool {
    |c: char| c == t
}

/// The index of the first character of `s` satisfying `p`, or `s.len()`
/// if there is none.
pub open spec fn first_where(s: Seq<char>, p: spec_fn(char) -> bool) -> nat
    decreases s.len(),
{
    if s.len() == 0 {
        0
    } else if p(s[0]) {
        0
    } else {
        1 + first_where(s.drop_first(), p)
    }
}

proof fn lemma_first_where(s: Seq<char>, p: spec_fn(char) -> bool)
    ensures
        first_where(s, p) <= s.len(),
        forall|j: int| 0 <= j < first_where(s, p) ==> !p(s[j]),
        first_where(s, p) < s.len() ==> p(s[first_where(s, p) as int]),
    decreases s.len(),
{
    if s.len() > 0 && !p(s[0]) {
        let d = s.drop_first();
        lemma_first_where(d, p);
        assert forall|j: int| 0 <= j < first_where(s, p) implies !p(s[j]) by {
            if j > 0 {
                assert(d[j - 1] == s[j]);
                assert(!p(d[j - 1]));
            }
        }
        if first_where(s, p) < s.len() {
            assert(d[first_where(d, p) as int] == s[first_where(s, p) as int]);
        }
    }
}

proof fn lemma_first_where_is(s: Seq<char>, p: spec_fn(char) -> bool, i: int)
    requires
        0 <= i <= s.len(),
        forall|j: int| 0 <= j < i ==> !p(s[j]),
        i < s.len() ==> p(s[i]),
    ensures
        first_where(s, p) == i,
{
    lemma_first_where(s, p);
    let f = first_where(s, p) as int;
    if f < i {
        assert(!p(s[f]));
        assert(false);
    }
    if f > i {
        assert(!p(s[i]));
        assert(false);
    }
}

/// The length of `s` once trailing whitespace is removed.
pub open spec fn trim_end_len(s: Seq<char>) -> int
    decreases s.len(),
{
    if s.len() == 0 {
        0
    } else if is_space_char(s.last()) {
        trim_end_len(s.drop_last())
    } else {
        s.len() as int
    }
}

proof fn lemma_trim_end_len(s: Seq<char>)
    ensures
        0 <= trim_end_len(s) <= s.len(),
        forall|j: int| trim_end_len(s) <= j < s.len() ==> is_space_char(s[j]),
        trim_end_len(s) > 0 ==> !is_space_char(s[trim_end_len(s) - 1]),
    decreases s.len(),
{
    if s.len() > 0 && is_space_char(s.last()) {
        lemma_trim_end_len(s.drop_last());
        assert(forall|j: int| 0 <= j < s.drop_last().len() ==> s.drop_last()[j] == s[j]);
    }
}

proof fn lemma_trim_end_len_is(s: Seq<char>, i: int)
    requires
        0 <= i <= s.len(),
        forall|j: int| i <= j < s.len() ==> is_space_char(s[j]),
        i > 0 ==> !is_space_char(s[i - 1]),
    ensures
        trim_end_len(s) == i,
{
    lemma_trim_end_len(s);
    let t = trim_end_len(s);
    if t < i {
        assert(is_space_char(s[i - 1]));
        assert(false);
    }
    if t > i {
        assert(is_space_char(s[t - 1]));
        assert(false);
    }
}

/// `s` with leading and trailing whitespace removed.
pub open spec fn spec_trim(s: Seq<char>) -> Seq<char> {
    let t = s.take(trim_end_len(s));
    t.skip(first_where(t, non_space_p()) as int)
}

/// `l` with one trailing carriage return removed, if it carries one.
pub open spec fn strip_cr(l: Seq<char>) -> Seq<char> {
    if l.len() > 0 && l.last() == '\r' {
        l.drop_last()
    } else {
        l
    }
}

/// The lines of `s`, split on line feeds with one trailing carriage
/// return per line removed, up to (and not including) the first empty
/// line or the end of the input.
pub open spec fn spec_lines(s: Seq<char>) -> Seq<Seq<char>>
    decreases s.len(),
{
    if s.len() == 0 {
        Seq::<Seq<char>>::empty()
    } else {
        let n = first_where(s, char_p('\n')) as int;
        if n >= s.len() {
            let line = strip_cr(s);
            if line.len() == 0 {
                Seq::<Seq<char>>::empty()
            } else {
                seq![line]
            }
        } else {
            let line = strip_cr(s.take(n));
            if line.len() == 0 {
                Seq::<Seq<char>>::empty()
            } else {
                seq![line] + spec_lines(s.skip(n + 1))
            }
        }
    }
}

/// Method and path of a request line: the first two whitespace-separated
/// tokens, or nothing if the line holds fewer than two tokens.
pub open spec fn spec_request_line(l: Seq<char>) -> Option<(Seq<char>, Seq<char>)> {
    let r0 = l.skip(first_where(l, non_space_p()) as int);
    let method = r0.take(first_where(r0, space_p()) as int);
    let r1 = r0.skip(first_where(r0, space_p()) as int);
    let r2 = r1.skip(first_where(r1, non_space_p()) as int);
    let path = r2.take(first_where(r2, space_p()) as int);
    if method.len() == 0 || path.len() == 0 {
        None
    } else {
        Some((method, path))
    }
}

/// Name and value of a header line: split on the first colon, the value
/// trimmed of leading and trailing whitespace; nothing if there is no
/// colon.
pub open spec fn spec_header_kv(l: Seq<char>) -> Option<(Seq<char>, Seq<char>)> {
    let c = first_where(l, char_p(':')) as int;
    if c >= l.len() {
        None
    } else {
        Some((l.take(c), spec_trim(l.skip(c + 1))))
    }
}

/// The whole parse: lines, then the request line, then every header
/// line, with the error naming the first malformed shape.
pub open spec fn spec_parse_request(s: Seq<char>) -> Result<RequestModel, ParseError> {
    let lines = spec_lines(s);
    if lines.len() == 0 {
        Err(ParseError::MissingRequestLine)
    } else {
        match spec_request_line(lines[0]) {
            Option::None => Err(ParseError::MalformedRequestLine),
            Option::Some(mp) => {
                if forall|i: int|
                    1 <= i < lines.len() ==> (#[trigger] spec_header_kv(lines[i])) is Some {
                    Ok(
                        RequestModel {
                            method: mp.0,
                            path: mp.1,
                            headers: Seq::new(
                                (lines.len() - 1) as nat,
                                |i: int| spec_header_kv(lines[i + 1])->Some_0,
                            ),
                        },
                    )
                } else {
                    Err(ParseError::MalformedHeader)
                }
            },
        }
    }
}

/// Whether `c` counts as whitespace for token splitting and trimming.
fn is_space_exec(c: char) -> (r: bool)
    ensures
        r == is_space_char(c),
{
    c == ' ' || c == '\t'
}

/// The index of the first non-whitespace character at or after `from`,
/// or the end of the string.
fn find_non_space(s: &str, from: usize) -> (r: usize)
    requires
        from <= s@.len(),
    ensures
        from <= r <= s@.len(),
        r - from == first_where(s@.skip(from as int), non_space_p()),
        forall|j: int| from <= j < r ==> is_space_char(s@[j]),
        r < s@.len() ==> !is_space_char(s@[r as int]),
{
    let n = s.unicode_len();
    let mut i = from;
    while i < n && is_space_exec(s.get_char(i))
        invariant
            from <= i <= n,
            n == s@.len(),
            forall|j: int| from <= j < i ==> is_space_char(s@[j]),
        decreases n - i,
    {
        i = i + 1;
    }
    proof {
        let t = s@.skip(from as int);
        let p = non_space_p();
        assert forall|j: int| 0 <= j < i - from implies !p(t[j]) by {
            assert(t[j] == s@[from + j]);
        }
        lemma_first_where_is(t, p, i - from);
    }
    i
}

/// The index of the first whitespace character at or after `from`, or
/// the end of the string.
fn find_space(s: &str, from: usize) -> (r: usize)
    requires
        from <= s@.len(),
    ensures
        from <= r <= s@.len(),
        r - from == first_where(s@.skip(from as int), space_p()),
        forall|j: int| from <= j < r ==> !is_space_char(s@[j]),
        r < s@.len() ==> is_space_char(s@[r as int]),
{
    let n = s.unicode_len();
    let mut i = from;
    while i < n && !is_space_exec(s.get_char(i))
        invariant
            from <= i <= n,
            n == s@.len(),
            forall|j: int| from <= j < i ==> !is_space_char(s@[j]),
        decreases n - i,
    {
        i = i + 1;
    }
    proof {
        let t = s@.skip(from as int);
        let p = space_p();
        assert forall|j: int| 0 <= j < i - from implies !p(t[j]) by {
            assert(t[j] == s@[from + j]);
        }
        lemma_first_where_is(t, p, i - from);
    }
    i
}

/// The index of the first occurrence of `t` at or after `from`, or the
/// end of the string.
fn find_char(s: &str, from: usize, t: char) -> (r: usize)
    requires
        from <= s@.len(),
    ensures
        from <= r <= s@.len(),
        r - from == first_where(s@.skip(from as int), char_p(t)),
        forall|j: int| from <= j < r ==> s@[j] != t,
        r < s@.len() ==> s@[r as int] == t,
{
    let n = s.unicode_len();
    let mut i = from;
    while i < n && s.get_char(i) != t
        invariant
            from <= i <= n,
            n == s@.len(),
            forall|j: int| from <= j < i ==> s@[j] != t,
        decreases n - i,
    {
        i = i + 1;
    }
    proof {
        let u = s@.skip(from as int);
        let p = char_p(t);
        assert forall|j: int| 0 <= j < i - from implies !p(u[j]) by {
            assert(u[j] == s@[from + j]);
        }
        lemma_first_where_is(u, p, i - from);
    }
    i
}

/// Splits a request line into its method and path tokens, or reports
/// that it holds fewer than two tokens.
#[verifier::rlimit(30)]
fn parse_request_line(line: &str) -> (r: Option<(String, String)>)
    ensures
        match r {
            Option::Some(mp) => spec_request_line(line@) == Some::<(Seq<char>, Seq<char>)>(
                (mp.0@, mp.1@),
            ),
            Option::None => spec_request_line(line@) is None,
        },
{
    let a = find_non_space(line, 0);
    let b = find_space(line, a);
    let c = find_non_space(line, b);
    let d = find_space(line, c);
    proof {
        let l = line@;
        assert(l.skip(0) =~= l);
        assert(first_where(l, non_space_p()) == a);
        let r0 = l.skip(a as int);
        assert(first_where(r0, space_p()) == b - a);
        assert(r0.skip(b - a) =~= l.skip(b as int));
        let r1 = l.skip(b as int);
        assert(first_where(r1, non_space_p()) == c - b);
        assert(r1.skip(c - b) =~= l.skip(c as int));
        let r2 = l.skip(c as int);
        assert(first_where(r2, space_p()) == d - c);
        assert(r0.take(b - a) =~= l.subrange(a as int, b as int));
        assert(r2.take(d - c) =~= l.subrange(c as int, d as int));
    }
    if b == a || d == c {
        None
    } else {
        let method = line.substring_char(a, b).to_owned();
        let path = line.substring_char(c, d).to_owned();
        Some((method, path))
    }
}

/// Splits a header line on its first colon into a name and a trimmed
/// value, or reports that it has no colon.
fn parse_header_line(line: &str) -> (r: Option<(String, String)>)
    ensures
        match r {
            Option::Some(kv) => spec_header_kv(line@) == Some::<(Seq<char>, Seq<char>)>(
                (kv.0@, kv.1@),
            ),
            Option::None => spec_header_kv(line@) is None,
        },
{
    let n = line.unicode_len();
    let c = find_char(line, 0, ':');
    proof {
        assert(line@.skip(0) =~= line@);
    }
    if c == n {
        None
    } else {
        let name = line.substring_char(0, c).to_owned();
        let mut e = n;
        while e > c + 1 && is_space_exec(line.get_char(e - 1))
            invariant
                c + 1 <= e <= n,
                c < n,
                n == line@.len(),
                forall|j: int| e <= j < n ==> is_space_char(line@[j]),
            decreases e,
        {
            e = e - 1;
        }
        let mut b = c + 1;
        while b < e && is_space_exec(line.get_char(b))
            invariant
                c + 1 <= b <= e <= n,
                n == line@.len(),
                forall|j: int| c + 1 <= j < b ==> is_space_char(line@[j]),
                forall|j: int| e <= j < n ==> is_space_char(line@[j]),
                e > c + 1 ==> !is_space_char(line@[e - 1]),
            decreases e - b,
        {
            b = b + 1;
        }
        let value = line.substring_char(b, e).to_owned();
        proof {
            let l = line@;
            let t = l.skip(c + 1);
            assert forall|j: int| e - c - 1 <= j < t.len() implies is_space_char(t[j]) by {
                assert(t[j] == l[c + 1 + j]);
            }
            if e > c + 1 {
                assert(t[e - c - 2] == l[e - 1]);
            }
            lemma_trim_end_len_is(t, e - c - 1);
            let tt = t.take(e - c - 1);
            let p = non_space_p();
            assert forall|j: int| 0 <= j < b - c - 1 implies !p(tt[j]) by {
                assert(tt[j] == l[c + 1 + j]);
            }
            if b < e {
                assert(tt[b - c - 1] == l[b as int]);
            }
            lemma_first_where_is(tt, p, b - c - 1);
            assert(spec_trim(t) =~= l.subrange(b as int, e as int));
            assert(l.take(c as int) =~= l.subrange(0, c as int));
        }
        Some((name, value))
    }
}

/// Cuts the input into lines as `spec_lines` does: split on line feeds,
/// strip one trailing carriage return, stop at the first empty line.
fn split_lines(s: &str) -> (r: Vec<String>)
    ensures
        r.deep_view() == spec_lines(s@),
{
    let n = s.unicode_len();
    let mut out: Vec<String> = Vec::new();
    let mut pos: usize = 0;
    proof {
        assert(s@.skip(0) =~= s@);
        assert(out.deep_view() =~= Seq::<Seq<char>>::empty());
        assert(out.deep_view() + spec_lines(s@.skip(0)) =~= spec_lines(s@));
    }
    loop
        invariant
            pos <= n,
            n == s@.len(),
            spec_lines(s@) == out.deep_view() + spec_lines(s@.skip(pos as int)),
        decreases n - pos,
    {
        if pos == n {
            proof {
                assert(spec_lines(s@.skip(pos as int)) =~= Seq::<Seq<char>>::empty());
                assert(out.deep_view() =~= out.deep_view() + spec_lines(s@.skip(pos as int)));
            }
            return out;
        }
        let j = find_char(s, pos, '\n');
        let line_end = if j > pos && s.get_char(j - 1) == '\r' {
            j - 1
        } else {
            j
        };
        proof {
            let t = s@.skip(pos as int);
            let nl = first_where(t, char_p('\n')) as int;
            assert(nl == j - pos);
            if j < n {
                assert(t.take(nl) =~= s@.subrange(pos as int, j as int));
                assert(strip_cr(t.take(nl)) =~= s@.subrange(pos as int, line_end as int));
            } else {
                assert(t =~= s@.subrange(pos as int, j as int));
                assert(strip_cr(t) =~= s@.subrange(pos as int, line_end as int));
            }
        }
        if line_end == pos {
            proof {
                assert(spec_lines(s@.skip(pos as int)) =~= Seq::<Seq<char>>::empty());
                assert(out.deep_view() =~= out.deep_view() + spec_lines(s@.skip(pos as int)));
            }
            return out;
        }
        let line = s.substring_char(pos, line_end).to_owned();
        let ghost prev = out.deep_view();
        out.push(line);
        let ghost old_pos = pos as int;
        if j < n {
            pos = j + 1;
        } else {
            pos = n;
        }
        proof {
            let t = s@.skip(old_pos);
            let nl = first_where(t, char_p('\n')) as int;
            assert(nl == j - old_pos);
            if j < n {
                assert(t.skip(nl + 1) =~= s@.skip(pos as int));
                assert(spec_lines(t) == seq![strip_cr(t.take(nl as int))] + spec_lines(
                    t.skip(nl + 1),
                ));
                assert(spec_lines(t) =~= seq![line@] + spec_lines(s@.skip(pos as int)));
            } else {
                assert(spec_lines(s@.skip(pos as int)) =~= Seq::<Seq<char>>::empty());
                assert(spec_lines(t) == seq![strip_cr(t)]);
                assert(spec_lines(t) =~= seq![line@] + spec_lines(s@.skip(pos as int)));
            }
            assert(out.deep_view() =~= prev.push(line@));
            assert(prev.push(line@) + spec_lines(s@.skip(pos as int)) =~= prev + (seq![line@]
                + spec_lines(s@.skip(pos as int))));
        }
    }
}

impl Request {
    /// Parses one connection's header block. Returns the request exactly
    /// as `spec_parse_request` describes it, or the error naming the
    /// first malformed shape.
    pub fn new(text: &str) -> (r: Result<Request, ParseError>)
        ensures
            match r {
                Result::Ok(req) => spec_parse_request(text@) == Ok::<RequestModel, ParseError>(
                    req@,
                ),
                Result::Err(e) => spec_parse_request(text@) == Err::<RequestModel, ParseError>(e),
            },
    {
        let lines = split_lines(text);
        let ghost sl = spec_lines(text@);
        if lines.len() == 0 {
            assert(sl.len() == 0);
            return Err(ParseError::MissingRequestLine);
        }
        assert(lines@[0]@ == sl[0]);
        match parse_request_line(lines[0].as_str()) {
            Option::None => Err(ParseError::MalformedRequestLine),
            Option::Some(mp) => {
                let (method, path) = mp;
                let mut headers: Vec<(String, String)> = Vec::new();
                let mut i: usize = 1;
                while i < lines.len()
                    invariant
                        1 <= i <= lines@.len(),
                        sl == spec_lines(text@),
                        lines.deep_view() == sl,
                        sl.len() == lines@.len(),
                        spec_request_line(sl[0]) == Some::<(Seq<char>, Seq<char>)>(
                            (method@, path@),
                        ),
                        forall|k: int| 1 <= k < i ==> (#[trigger] spec_header_kv(sl[k])) is Some,
                        headers.deep_view() == Seq::new(
                            (i - 1) as nat,
                            |k: int| spec_header_kv(sl[k + 1])->Some_0,
                        ),
                    decreases lines@.len() - i,
                {
                    assert(lines@[i as int]@ == sl[i as int]);
                    let ghost prev = headers.deep_view();
                    match parse_header_line(lines[i].as_str()) {
                        Option::None => {
                            proof {
                                assert(!(spec_header_kv(sl[i as int]) is Some));
                                assert(spec_request_line(sl[0]) is Some);
                                assert(!(forall|k: int|
                                    1 <= k < sl.len() ==> (#[trigger] spec_header_kv(
                                        sl[k],
                                    )) is Some));
                                assert(spec_parse_request(text@) == Err::<
                                    RequestModel,
                                    ParseError,
                                >(ParseError::MalformedHeader));
                            }
                            return Err(ParseError::MalformedHeader);
                        },
                        Option::Some(kv) => {
                            proof {
                                assert(spec_header_kv(sl[i as int])->Some_0 == (kv.0@, kv.1@));
                            }
                            headers.push(kv);
                            proof {
                                assert(headers.deep_view() =~= prev.push((kv.0@, kv.1@)));
                                assert(headers.deep_view() =~= Seq::new(
                                    i as nat,
                                    |k: int| spec_header_kv(sl[k + 1])->Some_0,
                                ));
                            }
                        },
                    }
                    i = i + 1;
                }
                let req = Request { method, path, headers };
                proof {
                    assert(req@.headers =~= Seq::new(
                        (sl.len() - 1) as nat,
                        |k: int| spec_header_kv(sl[k + 1])->Some_0,
                    ));
                }
                Ok(req)
            },
        }
    }
}

} // verus!
