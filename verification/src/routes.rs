//! Route-table parsing: a tabular text format turned into `Request` records.
//!
//! The first line is a header and is skipped. Data lines are tokenized on
//! whitespace; 3- and 4-field lines yield a route, 5-field lines are reserved
//! and ignored, any other width is skipped. A malformed `controller#action`
//! field or an unrecognized verb aborts the whole parse.

use vstd::prelude::*;
use vstd::string::*;

use crate::text::str_eq;

verus! {

#[derive(Debug, PartialEq, Eq, Clone, Copy)]
pub enum RequestMethod {
    GET,
    POST,
    DELETE,
    PUT,
    PATCH,
    OPTIONS,
}

#[derive(Debug, PartialEq, Eq)]
pub struct Request {
    pub method: RequestMethod,
    pub prefix: String,
    pub uri: String,
    pub controller: String,
    pub action: String,
}

pub ghost struct RouteView {
    pub method: RequestMethod,
    pub prefix: Seq<char>,
    pub uri: Seq<char>,
    pub controller: Seq<char>,
    pub action: Seq<char>,
}

impl View for Request {
    type V = RouteView;

    open spec fn view(&self) -> RouteView {
        RouteView {
            method: self.method,
            prefix: self.prefix@,
            uri: self.uri@,
            controller: self.controller@,
            action: self.action@,
        }
    }
}

pub open spec fn routes_views(rs: Seq<Request>) -> Seq<RouteView> {
    rs.map_values(|r: Request| r@)
}

/// The verb a token names, if any.
pub open spec fn verb_of(s: Seq<char>) -> Option<RequestMethod> {
    if s == "GET"@ {
        Option::Some(RequestMethod::GET)
    } else if s == "POST"@ {
        Option::Some(RequestMethod::POST)
    } else if s == "DELETE"@ {
        Option::Some(RequestMethod::DELETE)
    } else if s == "PUT"@ {
        Option::Some(RequestMethod::PUT)
    } else if s == "PATCH"@ {
        Option::Some(RequestMethod::PATCH)
    } else if s == "OPTIONS"@ {
        Option::Some(RequestMethod::OPTIONS)
    } else {
        Option::None
    }
}

pub open spec fn verb_name(m: RequestMethod) -> Seq<char> {
    match m {
        RequestMethod::GET => "GET"@,
        RequestMethod::POST => "POST"@,
        RequestMethod::DELETE => "DELETE"@,
        RequestMethod::PUT => "PUT"@,
        RequestMethod::PATCH => "PATCH"@,
        RequestMethod::OPTIONS => "OPTIONS"@,
    }
}

pub open spec fn unknown_verb_msg(s: Seq<char>) -> Seq<char> {
    "unknown Request method '"@ + s + "'"@
}

pub open spec fn no_action_msg(s: Seq<char>) -> Seq<char> {
    "could not find action on the controller "@ + s
}

impl RequestMethod {
    /// Parse a verb token; every other token is rejected with a message
    /// naming it.
    pub fn from_str(s: &str) -> (r: Result<RequestMethod, String>)
        ensures
            match r {
                Ok(m) => verb_of(s@) == Option::Some(m),
                Err(e) => verb_of(s@) is None && e@ == unknown_verb_msg(s@),
            },
    {
        if str_eq(s, "GET") {
            Ok(RequestMethod::GET)
        } else if str_eq(s, "POST") {
            Ok(RequestMethod::POST)
        } else if str_eq(s, "DELETE") {
            Ok(RequestMethod::DELETE)
        } else if str_eq(s, "PUT") {
            Ok(RequestMethod::PUT)
        } else if str_eq(s, "PATCH") {
            Ok(RequestMethod::PATCH)
        } else if str_eq(s, "OPTIONS") {
            Ok(RequestMethod::OPTIONS)
        } else {
            Err(String::from_str("unknown Request method '").concat(s).concat("'"))
        }
    }
}

impl Request {
    /// The one-line rendering of a route: its verb and its URI.
    pub fn summary(&self) -> (r: String)
        ensures
            r@ == verb_name(self@.method) + " "@ + self@.uri,
    {
        let mut r = match self.method {
            RequestMethod::GET => String::from_str("GET"),
            RequestMethod::POST => String::from_str("POST"),
            RequestMethod::DELETE => String::from_str("DELETE"),
            RequestMethod::PUT => String::from_str("PUT"),
            RequestMethod::PATCH => String::from_str("PATCH"),
            RequestMethod::OPTIONS => String::from_str("OPTIONS"),
        };
        r.append(" ");
        r.append(self.uri.as_str());
        r
    }
}

/// The White_Space characters: the ASCII whitespace, next line, no-break
/// space, ogham space mark, the en-quad..hair-space run, line and paragraph
/// separators, narrow no-break space, medium mathematical space, and the
/// ideographic space.
pub open spec fn is_space(c: char) -> bool {
    c == ' ' || c == '\t' || c == '\n' || c == '\r' || c == '\u{000B}' || c == '\u{000C}'
        || c == '\u{0085}' || c == '\u{00A0}' || c == '\u{1680}' || ('\u{2000}' <= c && c
        <= '\u{200A}') || c == '\u{2028}' || c == '\u{2029}' || c == '\u{202F}' || c
        == '\u{205F}' || c == '\u{3000}'
}

fn char_is_space(c: char) -> (b: bool)
    ensures
        b == is_space(c),
{
    c == ' ' || c == '\t' || c == '\n' || c == '\r' || c == '\u{000B}' || c == '\u{000C}'
        || c == '\u{0085}' || c == '\u{00A0}' || c == '\u{1680}' || ('\u{2000}' <= c && c
        <= '\u{200A}') || c == '\u{2028}' || c == '\u{2029}' || c == '\u{202F}' || c
        == '\u{205F}' || c == '\u{3000}'
}

/// Index of the first occurrence of the character, if any.
pub open spec fn find_char(s: Seq<char>, c: char) -> Option<int>
    decreases s.len(),
{
    if s.len() == 0 {
        Option::None
    } else if s[0] == c {
        Option::Some(0)
    } else {
        match find_char(s.drop_first(), c) {
            Option::Some(i) => Option::Some(i + 1),
            Option::None => Option::None,
        }
    }
}

pub open spec fn has_char(s: Seq<char>, c: char) -> bool {
    exists|i: int| 0 <= i < s.len() && s[i] == c
}

proof fn lemma_find_char_at(s: Seq<char>, c: char, k: int)
    requires
        0 <= k < s.len(),
        s[k] == c,
        forall|m: int| 0 <= m < k ==> s[m] != c,
    ensures
        find_char(s, c) == Option::Some(k),
    decreases k,
{
    if k == 0 {
    } else {
        assert(s[0] != c);
        assert(s.drop_first()[k - 1] == c);
        assert(forall|m: int| 0 <= m < k - 1 ==> s.drop_first()[m] != c);
        lemma_find_char_at(s.drop_first(), c, k - 1);
    }
}

proof fn lemma_find_char_none(s: Seq<char>, c: char)
    requires
        forall|m: int| 0 <= m < s.len() ==> s[m] != c,
    ensures
        find_char(s, c) is None,
    decreases s.len(),
{
    if s.len() > 0 {
        assert(forall|m: int| 0 <= m < s.drop_first().len() ==> s.drop_first()[m] != c);
        lemma_find_char_none(s.drop_first(), c);
    }
}

proof fn lemma_find_char_some(s: Seq<char>, c: char)
    ensures
        match find_char(s, c) {
            Option::Some(i) => 0 <= i < s.len() && s[i] == c,
            Option::None => true,
        },
    decreases s.len(),
{
    if s.len() > 0 && s[0] != c {
        lemma_find_char_some(s.drop_first(), c);
    }
}

/// A line with its single trailing carriage return removed.
pub open spec fn strip_cr(s: Seq<char>) -> Seq<char> {
    if s.len() > 0 && s.last() == '\r' {
        s.drop_last()
    } else {
        s
    }
}

/// The lines of the text: segments between newlines, each without a trailing
/// carriage return; a trailing newline opens no empty final line.
pub open spec fn lines_of(s: Seq<char>) -> Seq<Seq<char>>
    decreases s.len(),
    via lines_of_dec
{
    if s.len() == 0 {
        Seq::empty()
    } else {
        match find_char(s, '\n') {
            Option::Some(i) => seq![strip_cr(s.take(i))] + lines_of(s.skip(i + 1)),
            Option::None => seq![strip_cr(s)],
        }
    }
}

#[via_fn]
proof fn lines_of_dec(s: Seq<char>) {
    lemma_find_char_some(s, '\n');
}

/// The leading run of non-whitespace characters.
pub open spec fn head_token(s: Seq<char>) -> Seq<char>
    decreases s.len(),
{
    if s.len() == 0 || is_space(s[0]) {
        Seq::empty()
    } else {
        seq![s[0]] + head_token(s.drop_first())
    }
}

proof fn lemma_head_token_len(s: Seq<char>)
    ensures
        head_token(s).len() <= s.len(),
        s.len() > 0 && !is_space(s[0]) ==> head_token(s).len() >= 1,
    decreases s.len(),
{
    if s.len() > 0 && !is_space(s[0]) {
        lemma_head_token_len(s.drop_first());
    }
}

/// The whitespace-separated tokens of a line.
pub open spec fn tokens_of(s: Seq<char>) -> Seq<Seq<char>>
    decreases s.len(),
    via tokens_of_dec
{
    if s.len() == 0 {
        Seq::empty()
    } else if is_space(s[0]) {
        tokens_of(s.drop_first())
    } else {
        seq![head_token(s)] + tokens_of(s.skip(head_token(s).len() as int))
    }
}

#[via_fn]
proof fn tokens_of_dec(s: Seq<char>) {
    if s.len() > 0 && !is_space(s[0]) {
        lemma_head_token_len(s);
    }
}

/// Shape of the leading token: it runs up to the first whitespace.
proof fn lemma_head_token_shape(s: Seq<char>, k: int)
    requires
        0 <= k <= s.len(),
        forall|m: int| 0 <= m < k ==> !is_space(s[m]),
        k < s.len() ==> is_space(s[k]),
    ensures
        head_token(s) == s.take(k),
    decreases k,
{
    if k == 0 {
        assert(s.take(0) =~= Seq::<char>::empty());
        if s.len() > 0 {
            assert(is_space(s[0]));
        }
    } else {
        let t = s.drop_first();
        assert(forall|m: int| 0 <= m < k - 1 ==> t[m] == s[m + 1] && !is_space(t[m]));
        if k - 1 < t.len() {
            assert(t[k - 1] == s[k]);
        }
        lemma_head_token_shape(t, k - 1);
        assert(head_token(s) == seq![s[0]] + t.take(k - 1));
        assert(seq![s[0]] + t.take(k - 1) =~= s.take(k));
    }
}

/// The pattern the route URIs may carry; every occurrence is removed.
pub open spec fn strip_format(s: Seq<char>) -> Seq<char>
    decreases s.len(),
{
    if s.len() >= 10 && s.take(10) == "(.:format)"@ {
        strip_format(s.skip(10))
    } else if s.len() == 0 {
        s
    } else {
        seq![s[0]] + strip_format(s.drop_first())
    }
}

/// The controller and the action of a `controller#action` field: defined
/// exactly when the field holds a single `#`.
pub open spec fn hash_split(s: Seq<char>) -> Option<(Seq<char>, Seq<char>)> {
    match find_char(s, '#') {
        Option::Some(h) => if has_char(s.skip(h + 1), '#') {
            Option::None
        } else {
            Option::Some((s.take(h), s.skip(h + 1)))
        },
        Option::None => Option::None,
    }
}

/// What one tokenized data line contributes: a route, nothing, or a fatal
/// error.
pub open spec fn route_of_fields(fields: Seq<Seq<char>>) -> Result<
    Option<RouteView>,
    Seq<char>,
> {
    if fields.len() == 5 {
        Ok(Option::None)
    } else if fields.len() == 4 {
        match verb_of(fields[0]) {
            Option::Some(m) => match hash_split(fields[2]) {
                Option::Some(ca) => Ok(
                    Option::Some(
                        RouteView {
                            method: m,
                            prefix: Seq::empty(),
                            uri: strip_format(fields[1]),
                            controller: ca.0,
                            action: ca.1,
                        },
                    ),
                ),
                Option::None => Err(no_action_msg(fields[2])),
            },
            Option::None => match hash_split(fields[3]) {
                Option::Some(ca) => match verb_of(fields[1]) {
                    Option::Some(m) => Ok(
                        Option::Some(
                            RouteView {
                                method: m,
                                prefix: fields[0],
                                uri: strip_format(fields[2]),
                                controller: ca.0,
                                action: ca.1,
                            },
                        ),
                    ),
                    Option::None => Err(unknown_verb_msg(fields[1])),
                },
                Option::None => Err(no_action_msg(fields[3])),
            },
        }
    } else if fields.len() == 3 {
        match hash_split(fields[2]) {
            Option::Some(ca) => match verb_of(fields[0]) {
                Option::Some(m) => Ok(
                    Option::Some(
                        RouteView {
                            method: m,
                            prefix: Seq::empty(),
                            uri: strip_format(fields[1]),
                            controller: ca.0,
                            action: ca.1,
                        },
                    ),
                ),
                Option::None => Err(unknown_verb_msg(fields[0])),
            },
            Option::None => Err(no_action_msg(fields[2])),
        }
    } else {
        Ok(Option::None)
    }
}

/// The routes of the data lines, in order; the first fatal line aborts the
/// whole parse.
pub open spec fn data_lines_routes(ls: Seq<Seq<char>>) -> Result<Seq<RouteView>, Seq<char>>
    decreases ls.len(),
{
    if ls.len() == 0 {
        Ok(Seq::empty())
    } else {
        match route_of_fields(tokens_of(ls[0])) {
            Err(e) => Err(e),
            Ok(opt) => match data_lines_routes(ls.drop_first()) {
                Err(e) => Err(e),
                Ok(rest) => Ok(
                    match opt {
                        Option::Some(r) => seq![r] + rest,
                        Option::None => rest,
                    },
                ),
            },
        }
    }
}

/// The whole parse: empty input is rejected, the header line is skipped,
/// and the data lines are parsed in order.
pub open spec fn parse_routes_spec(input: Seq<char>) -> Result<Seq<RouteView>, Seq<char>> {
    if input.len() == 0 {
        Err("input is empty"@)
    } else if lines_of(input).len() == 0 {
        Ok(Seq::empty())
    } else {
        data_lines_routes(lines_of(input).drop_first())
    }
}

/// Split the text into lines, dropping one trailing carriage return each.
fn split_lines(input: &str) -> (r: Vec<String>)
    ensures
        r.deep_view() == lines_of(input@),
{
    let n = input.unicode_len();
    let mut out: Vec<String> = Vec::new();
    let mut i: usize = 0;
    proof {
        assert(input@.skip(0) =~= input@);
    }
    while i < n
        invariant
            0 <= i <= n,
            n == input@.len(),
            out.deep_view() + lines_of(input@.skip(i as int)) == lines_of(input@),
        decreases n - i,
    {
        let ghost dv0 = out.deep_view();
        let mut j: usize = i;
        while j < n && input.get_char(j) != '\n'
            invariant
                i <= j <= n,
                n == input@.len(),
                forall|m: int| i <= m < j ==> input@[m] != '\n',
            decreases n - j,
        {
            j = j + 1;
        }
        let has_nl = j < n;
        let end = if j > i && input.get_char(j - 1) == '\r' {
            j - 1
        } else {
            j
        };
        let seg = input.substring_char(i, end).to_owned();
        out.push(seg);
        proof {
            let rest = input@.skip(i as int);
            assert(forall|m: int| 0 <= m < j - i ==> rest[m] == input@[m + i] && rest[m] != '\n');
            if has_nl {
                assert(rest[j - i] == input@[j as int]);
                lemma_find_char_at(rest, '\n', j - i);
                assert(rest.take(j - i) =~= input@.subrange(i as int, j as int));
                assert(rest.skip(j - i + 1) =~= input@.skip(j + 1));
            } else {
                lemma_find_char_none(rest, '\n');
                assert(rest =~= input@.subrange(i as int, j as int));
            }
            let line = input@.subrange(i as int, j as int);
            assert(seg@ == input@.subrange(i as int, end as int));
            if end < j {
                assert(line.last() == input@[j - 1] && input@[j - 1] == '\r');
                assert(line.drop_last() =~= input@.subrange(i as int, end as int));
                assert(strip_cr(line) == seg@);
            } else {
                if line.len() > 0 {
                    assert(line.last() == input@[j - 1]);
                }
                assert(strip_cr(line) == line);
                assert(line =~= seg@);
            }
            assert(out.deep_view() =~= dv0.push(seg@));
            if has_nl {
                assert(lines_of(rest) == seq![seg@] + lines_of(input@.skip(j + 1)));
                assert(dv0.push(seg@) + lines_of(input@.skip(j + 1)) =~= dv0 + lines_of(rest));
            } else {
                assert(lines_of(rest) == seq![seg@]);
                assert(input@.skip(n as int) =~= Seq::<char>::empty());
                assert(lines_of(input@.skip(n as int)) == Seq::<Seq<char>>::empty());
                assert(dv0.push(seg@) + lines_of(input@.skip(n as int)) =~= dv0 + lines_of(rest));
            }
        }
        i = if has_nl {
            j + 1
        } else {
            n
        };
    }
    proof {
        assert(input@.skip(n as int) =~= Seq::<char>::empty());
        assert(lines_of(input@.skip(n as int)) == Seq::<Seq<char>>::empty());
        assert(out.deep_view() + Seq::<Seq<char>>::empty() =~= out.deep_view());
    }
    out
}

/// Tokenize a line on whitespace, dropping empty tokens.
fn tokenize(line: &str) -> (r: Vec<String>)
    ensures
        r.deep_view() == tokens_of(line@),
{
    let n = line.unicode_len();
    let mut out: Vec<String> = Vec::new();
    let mut i: usize = 0;
    proof {
        assert(line@.skip(0) =~= line@);
    }
    while i < n
        invariant
            0 <= i <= n,
            n == line@.len(),
            out.deep_view() + tokens_of(line@.skip(i as int)) == tokens_of(line@),
        decreases n - i,
    {
        let c = line.get_char(i);
        if char_is_space(c) {
            proof {
                let rest = line@.skip(i as int);
                assert(rest[0] == line@[i as int]);
                assert(rest.drop_first() =~= line@.skip(i + 1));
                assert(tokens_of(rest) == tokens_of(line@.skip(i + 1)));
            }
            i = i + 1;
        } else {
            let ghost dv0 = out.deep_view();
            let mut j: usize = i;
            while j < n && !char_is_space(line.get_char(j))
                invariant
                    i <= j <= n,
                    n == line@.len(),
                    forall|m: int| i <= m < j ==> !is_space(line@[m]),
                decreases n - j,
            {
                j = j + 1;
            }
            let tok = line.substring_char(i, j).to_owned();
            out.push(tok);
            proof {
                let rest = line@.skip(i as int);
                assert(forall|m: int|
                    0 <= m < j - i ==> rest[m] == line@[m + i] && !is_space(rest[m]));
                if j < n {
                    assert(rest[j - i] == line@[j as int]);
                    assert(is_space(rest[j - i]));
                }
                lemma_head_token_shape(rest, j - i);
                assert(rest.take(j - i) =~= line@.subrange(i as int, j as int));
                assert(head_token(rest) == tok@);
                assert(tok@.len() == j - i);
                assert(rest.skip(j - i) =~= line@.skip(j as int));
                assert(tokens_of(rest) == seq![tok@] + tokens_of(line@.skip(j as int)));
                assert(out.deep_view() =~= dv0.push(tok@));
                assert(dv0.push(tok@) + tokens_of(line@.skip(j as int)) =~= dv0 + tokens_of(rest));
            }
            i = j;
        }
    }
    proof {
        assert(line@.skip(n as int) =~= Seq::<char>::empty());
        assert(tokens_of(line@.skip(n as int)) == Seq::<Seq<char>>::empty());
        assert(out.deep_view() + Seq::<Seq<char>>::empty() =~= out.deep_view());
    }
    out
}

/// Remove every occurrence of the route-pattern suffix from a URI field.
fn strip_format_exec(s: &str) -> (r: String)
    ensures
        r@ == strip_format(s@),
{
    let n = s.unicode_len();
    let mut out = String::new();
    let mut i: usize = 0;
    proof {
        assert(s@.skip(0) =~= s@);
    }
    while i < n
        invariant
            0 <= i <= n,
            n == s@.len(),
            out@ + strip_format(s@.skip(i as int)) == strip_format(s@),
        decreases n - i,
    {
        let ghost rest = s@.skip(i as int);
        let mut matched = false;
        if n - i >= 10 {
            let piece = s.substring_char(i, i + 10);
            if str_eq(piece, "(.:format)") {
                matched = true;
            }
            proof {
                assert(piece@ =~= rest.take(10));
            }
        }
        if matched {
            proof {
                assert(rest.skip(10) =~= s@.skip(i + 10));
                assert(strip_format(rest) == strip_format(s@.skip(i + 10)));
            }
            i = i + 10;
        } else {
            let c = s.get_char(i);
            crate::text::push_char(&mut out, c);
            proof {
                if rest.len() >= 10 {
                    assert(rest.take(10) != "(.:format)"@);
                }
                assert(rest[0] == s@[i as int]);
                assert(rest.drop_first() =~= s@.skip(i + 1));
                assert(strip_format(rest) == seq![s@[i as int]] + strip_format(s@.skip(i + 1)));
                assert(out@ + strip_format(s@.skip(i + 1)) =~= out@.drop_last() + strip_format(
                    rest,
                ));
            }
            i = i + 1;
        }
    }
    proof {
        assert(s@.skip(n as int) =~= Seq::<char>::empty());
        assert(strip_format(s@.skip(n as int)) =~= Seq::<char>::empty());
        assert(out@ + Seq::<char>::empty() =~= out@);
    }
    out
}

/// Split a `controller#action` field at its single `#`; any other shape is
/// rejected.
fn split_hash(s: &str) -> (r: Option<(String, String)>)
    ensures
        match r {
            Option::Some(ca) => hash_split(s@) == Option::Some((ca.0@, ca.1@)),
            Option::None => hash_split(s@) is None,
        },
{
    let n = s.unicode_len();
    let mut h: usize = 0;
    while h < n && s.get_char(h) != '#'
        invariant
            0 <= h <= n,
            n == s@.len(),
            forall|m: int| 0 <= m < h ==> s@[m] != '#',
        decreases n - h,
    {
        h = h + 1;
    }
    if h == n {
        proof {
            lemma_find_char_none(s@, '#');
        }
        return Option::None;
    }
    let mut j: usize = h + 1;
    while j < n && s.get_char(j) != '#'
        invariant
            h + 1 <= j <= n,
            n == s@.len(),
            forall|m: int| h + 1 <= m < j ==> s@[m] != '#',
        decreases n - j,
    {
        j = j + 1;
    }
    proof {
        lemma_find_char_at(s@, '#', h as int);
    }
    if j < n {
        proof {
            let tail = s@.skip(h + 1);
            assert(tail[j - h - 1] == s@[j as int]);
            assert(has_char(tail, '#'));
        }
        return Option::None;
    }
    proof {
        let tail = s@.skip(h + 1);
        assert(forall|m: int| 0 <= m < tail.len() ==> tail[m] == s@[m + h + 1] && tail[m] != '#');
        assert(!has_char(tail, '#'));
    }
    let c = s.substring_char(0, h).to_owned();
    let a = s.substring_char(h + 1, n).to_owned();
    proof {
        assert(c@ =~= s@.take(h as int));
        assert(a@ =~= s@.skip(h + 1));
    }
    Option::Some((c, a))
}

/// Parse the routes table. The result carries every route of every data
/// line in order, or the message of the first fatal line.
pub fn parse_routes(input: &str) -> (r: Result<Vec<Request>, String>)
    ensures
        match r {
            Ok(v) => parse_routes_spec(input@) == Ok::<Seq<RouteView>, Seq<char>>(
                routes_views(v@),
            ),
            Err(e) => parse_routes_spec(input@) == Err::<Seq<RouteView>, Seq<char>>(e@),
        },
{
    if input.unicode_len() == 0 {
        return Err(String::from_str("input is empty"));
    }
    let lines = split_lines(input);
    let ghost dv = lines.deep_view();
    proof {
        assert(dv.len() == lines@.len());
        assert(lines_of(input@).len() >= 1);
        assert(dv.drop_first() =~= dv.skip(1));
    }
    let mut routes: Vec<Request> = Vec::new();
    let mut i: usize = 1;
    while i < lines.len()
        invariant
            1 <= i <= lines@.len(),
            dv == lines.deep_view(),
            dv.len() == lines@.len(),
            dv.len() >= 1,
            parse_routes_spec(input@) == (match data_lines_routes(dv.skip(1)) {
                Err(e) => Err::<Seq<RouteView>, Seq<char>>(e),
                Ok(rs) => Ok::<Seq<RouteView>, Seq<char>>(rs),
            }),
            match data_lines_routes(dv.skip(i as int)) {
                Err(e) => data_lines_routes(dv.skip(1)) == Err::<Seq<RouteView>, Seq<char>>(e),
                Ok(rest) => data_lines_routes(dv.skip(1)) == Ok::<Seq<RouteView>, Seq<char>>(
                    routes_views(routes@) + rest,
                ),
            },
        decreases lines@.len() - i,
    {
        let ghost seg = dv.skip(i as int);
        proof {
            assert(seg[0] == dv[i as int]);
            assert(seg.drop_first() =~= dv.skip(i + 1));
        }
        let fields = tokenize(lines[i].as_str());
        let ghost fv = tokens_of(dv[i as int]);
        proof {
            assert(fields.deep_view() == fv);
            assert(fields@.len() == fv.len());
        }
        let ghost routes0 = routes@;
        if fields.len() == 5 {
            // reserved five-field shape: no route
        } else if fields.len() == 4 {
            match RequestMethod::from_str(fields[0].as_str()) {
                Ok(m) => {
                    match split_hash(fields[2].as_str()) {
                        Option::Some(ca) => {
                            let uri = strip_format_exec(fields[1].as_str());
                            let req = Request {
                                method: m,
                                prefix: String::new(),
                                uri,
                                controller: ca.0,
                                action: ca.1,
                            };
                            routes.push(req);
                        },
                        Option::None => {
                            let msg = String::from_str(
                                "could not find action on the controller ",
                            ).concat(fields[2].as_str());
                            proof {
                                assert(route_of_fields(fv) == Err::<Option<RouteView>, Seq<char>>(
                                    no_action_msg(fv[2]),
                                ));
                            }
                            return Err(msg);
                        },
                    }
                },
                Err(_) => {
                    match split_hash(fields[3].as_str()) {
                        Option::Some(ca) => {
                            match RequestMethod::from_str(fields[1].as_str()) {
                                Ok(m) => {
                                    let uri = strip_format_exec(fields[2].as_str());
                                    let req = Request {
                                        method: m,
                                        prefix: fields[0].clone(),
                                        uri,
                                        controller: ca.0,
                                        action: ca.1,
                                    };
                                    routes.push(req);
                                },
                                Err(e) => {
                                    proof {
                                        assert(route_of_fields(fv) == Err::<
                                            Option<RouteView>,
                                            Seq<char>,
                                        >(unknown_verb_msg(fv[1])));
                                    }
                                    return Err(e);
                                },
                            }
                        },
                        Option::None => {
                            let msg = String::from_str(
                                "could not find action on the controller ",
                            ).concat(fields[3].as_str());
                            proof {
                                assert(route_of_fields(fv) == Err::<Option<RouteView>, Seq<char>>(
                                    no_action_msg(fv[3]),
                                ));
                            }
                            return Err(msg);
                        },
                    }
                },
            }
        } else if fields.len() == 3 {
            match split_hash(fields[2].as_str()) {
                Option::Some(ca) => {
                    match RequestMethod::from_str(fields[0].as_str()) {
                        Ok(m) => {
                            let uri = strip_format_exec(fields[1].as_str());
                            let req = Request {
                                method: m,
                                prefix: String::new(),
                                uri,
                                controller: ca.0,
                                action: ca.1,
                            };
                            routes.push(req);
                        },
                        Err(e) => {
                            proof {
                                assert(route_of_fields(fv) == Err::<Option<RouteView>, Seq<char>>(
                                    unknown_verb_msg(fv[0]),
                                ));
                            }
                            return Err(e);
                        },
                    }
                },
                Option::None => {
                    let msg = String::from_str("could not find action on the controller ").concat(
                        fields[2].as_str(),
                    );
                    proof {
                        assert(route_of_fields(fv) == Err::<Option<RouteView>, Seq<char>>(
                            no_action_msg(fv[2]),
                        ));
                    }
                    return Err(msg);
                },
            }
        } else {
            // any other width: the line is skipped
        }
        proof {
            match route_of_fields(fv) {
                Ok(opt) => {
                    match opt {
                        Option::Some(rv) => {
                            assert(routes@ == routes0.push(routes@[routes@.len() - 1]));
                            assert(routes@[routes@.len() - 1]@ == rv);
                            assert(routes_views(routes@) =~= routes_views(routes0).push(rv));
                            match data_lines_routes(dv.skip(i + 1)) {
                                Ok(rest) => {
                                    assert(data_lines_routes(seg) == Ok::<
                                        Seq<RouteView>,
                                        Seq<char>,
                                    >(seq![rv] + rest));
                                    assert(routes_views(routes0) + (seq![rv] + rest)
                                        =~= routes_views(routes@) + rest);
                                },
                                Err(_) => {},
                            }
                        },
                        Option::None => {
                            assert(routes@ == routes0);
                        },
                    }
                },
                Err(_) => {
                    assert(false);
                },
            }
        }
        i = i + 1;
    }
    proof {
        assert(dv.skip(dv.len() as int) =~= Seq::<Seq<char>>::empty());
        assert(data_lines_routes(dv.skip(dv.len() as int)) == Ok::<Seq<RouteView>, Seq<char>>(
            Seq::empty(),
        ));
        assert(routes_views(routes@) + Seq::<RouteView>::empty() =~= routes_views(routes@));
    }
    Ok(routes)
}

/// A table whose text holds only its header line parses to the empty route
/// list, never to an error.
pub proof fn lemma_header_only_table(input: Seq<char>)
    requires
        input.len() > 0,
        lines_of(input).len() <= 1,
    ensures
        parse_routes_spec(input) == Ok::<Seq<RouteView>, Seq<char>>(Seq::<RouteView>::empty()),
{
    if lines_of(input).len() == 1 {
        assert(lines_of(input).drop_first() =~= Seq::<Seq<char>>::empty());
    }
}

/// A four-field data line whose first token is a verb resolves exactly as
/// the three-field line made of its first three tokens: the trailing field
/// is ignored and the prefix is empty either way.
pub proof fn lemma_prefixless_four_field(fields: Seq<Seq<char>>)
    requires
        fields.len() == 4,
        verb_of(fields[0]) is Some,
    ensures
        route_of_fields(fields) == route_of_fields(fields.take(3)),
{
    let t = fields.take(3);
    assert(t.len() == 3);
    assert(t[0] == fields[0]);
    assert(t[1] == fields[1]);
    assert(t[2] == fields[2]);
}

/// A five-field data line never produces a route and never fails, whatever
/// its fields hold.
pub proof fn lemma_five_field_line(fields: Seq<Seq<char>>)
    requires
        fields.len() == 5,
    ensures
        route_of_fields(fields) == Ok::<Option<RouteView>, Seq<char>>(Option::None),
{
}

/// One fatal data line aborts the whole parse: no partial route list comes
/// back.
pub proof fn lemma_bad_line_aborts(ls: Seq<Seq<char>>, k: int)
    requires
        0 <= k < ls.len(),
        route_of_fields(tokens_of(ls[k])) is Err,
    ensures
        data_lines_routes(ls) is Err,
    decreases k,
{
    if k == 0 {
    } else {
        match route_of_fields(tokens_of(ls[0])) {
            Err(_) => {},
            Ok(_) => {
                assert(ls.drop_first()[k - 1] == ls[k]);
                lemma_bad_line_aborts(ls.drop_first(), k - 1);
            },
        }
    }
}

} // verus!
