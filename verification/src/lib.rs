//! Cross-reference extracted source files against a parsed route table:
//! derive each controller's canonical route path, match it against the
//! table, and report every matched route/method pair and every controller
//! that no route covers.

use vstd::prelude::*;
use vstd::string::*;

pub mod ast;
pub mod params;
pub mod parser_parser;
pub mod routes;
pub mod ruby_parser;
pub mod text;

use crate::routes::{verb_name, Request};
use crate::ruby_parser::{Controller, Method, Module, RubyFile};
use crate::text::{join_strings, joined, push_char, str_eq};

verus! {

/// Lowercase an ASCII letter; any other character, non-ASCII letters
/// included, is returned unchanged. The case mapping of the whole name
/// derivation is deliberately restricted to ASCII.
pub open spec fn lower_char(c: char) -> char {
    if 'A' <= c && c <= 'Z' {
        ((c as u8) + 32) as char
    } else {
        c
    }
}

/// An ASCII uppercase letter; non-ASCII uppercase letters do not count.
pub open spec fn is_upper(c: char) -> bool {
    'A' <= c && c <= 'Z'
}

/// Lowercase every ASCII letter of a character sequence.
pub open spec fn lower_seq(s: Seq<char>) -> Seq<char> {
    s.map_values(|c: char| lower_char(c))
}

/// Exec counterpart of `lower_char`.
pub fn ascii_lower(c: char) -> (r: char)
    ensures
        r == lower_char(c),
{
    if 'A' <= c && c <= 'Z' {
        (((c as u8) + 32) as char)
    } else {
        c
    }
}

/// Lowercase a string, ASCII letter by ASCII letter.
fn to_lower(s: &str) -> (r: String)
    ensures
        r@ == lower_seq(s@),
{
    let n = s.unicode_len();
    let mut out = String::new();
    let mut i: usize = 0;
    while i < n
        invariant
            0 <= i <= n,
            n == s@.len(),
            out@.len() == i,
            forall|m: int| 0 <= m < i ==> out@[m] == lower_char(s@[m]),
        decreases n - i,
    {
        let c = ascii_lower(s.get_char(i));
        push_char(&mut out, c);
        i = i + 1;
    }
    proof {
        assert forall|m: int| 0 <= m < n implies out@[m] == lower_seq(s@)[m] by {
            assert(lower_seq(s@)[m] == lower_char(s@[m]));
        }
        assert(out@ =~= lower_seq(s@));
    }
    out
}

/// The camel-to-snake rendering of everything after the first character:
/// an internal uppercase letter becomes an underscore and its lowercase.
pub open spec fn snake_rest(s: Seq<char>) -> Seq<char>
    decreases s.len(),
{
    if s.len() == 0 {
        Seq::empty()
    } else {
        (if is_upper(s[0]) {
            seq!['_', lower_char(s[0])]
        } else {
            seq![s[0]]
        }) + snake_rest(s.drop_first())
    }
}

/// Camel case to snake case: the first character is lowercased bare, each
/// later uppercase letter gets an underscore before its lowercase.
pub open spec fn snake_of(s: Seq<char>) -> Seq<char> {
    if s.len() == 0 {
        Seq::empty()
    } else {
        seq![lower_char(s[0])] + snake_rest(s.skip(1))
    }
}

/// A class-name segment with one trailing `Controller` suffix removed.
pub open spec fn strip_ctrl(s: Seq<char>) -> Seq<char> {
    if s.len() >= 10 && s.skip(s.len() - 10) == "Controller"@ {
        s.take(s.len() - 10)
    } else {
        s
    }
}

/// Index of the first `::` separator, if any.
pub open spec fn find_dc(s: Seq<char>) -> Option<int>
    decreases s.len(),
{
    if s.len() < 2 {
        Option::None
    } else if s[0] == ':' && s[1] == ':' {
        Option::Some(0)
    } else {
        match find_dc(s.drop_first()) {
            Option::Some(i) => Option::Some(i + 1),
            Option::None => Option::None,
        }
    }
}

proof fn lemma_find_dc_some(s: Seq<char>)
    ensures
        (match find_dc(s) {
            Option::Some(i) => 0 <= i <= s.len() - 2 && s[i] == ':' && s[i + 1] == ':',
            Option::None => true,
        }),
    decreases s.len(),
{
    if s.len() >= 2 && !(s[0] == ':' && s[1] == ':') {
        lemma_find_dc_some(s.drop_first());
    }
}

proof fn lemma_find_dc_at(s: Seq<char>, k: int)
    requires
        0 <= k <= s.len() - 2,
        s[k] == ':' && s[k + 1] == ':',
        forall|m: int| 0 <= m < k ==> !((#[trigger] s[m]) == ':' && s[m + 1] == ':'),
    ensures
        find_dc(s) == Option::Some(k),
    decreases k,
{
    if k == 0 {
    } else {
        assert(!(s[0] == ':' && s[1] == ':'));
        let t = s.drop_first();
        assert(t[k - 1] == ':' && t[k] == ':');
        assert(forall|m: int| 0 <= m < k - 1 ==> (#[trigger] t[m]) == s[m + 1] && t[m + 1] == s[m + 2]);
        lemma_find_dc_at(t, k - 1);
    }
}

proof fn lemma_find_dc_none(s: Seq<char>)
    requires
        forall|m: int| 0 <= m <= s.len() - 2 ==> !((#[trigger] s[m]) == ':' && s[m + 1] == ':'),
    ensures
        find_dc(s) is None,
    decreases s.len(),
{
    if s.len() >= 2 {
        let t = s.drop_first();
        assert(forall|m: int| 0 <= m <= t.len() - 2 ==> (#[trigger] t[m]) == s[m + 1] && t[m + 1] == s[m + 2]);
        lemma_find_dc_none(t);
    }
}

/// The segments of an identifier split at each `::`.
pub open spec fn split_dc(s: Seq<char>) -> Seq<Seq<char>>
    decreases s.len(),
    via split_dc_dec
{
    match find_dc(s) {
        Option::Some(i) => seq![s.take(i)] + split_dc(s.skip(i + 2)),
        Option::None => seq![s],
    }
}

#[via_fn]
proof fn split_dc_dec(s: Seq<char>) {
    lemma_find_dc_some(s);
}

/// The canonical route-table path of a module/controller pair: the module
/// name lowercased, a namespace segment lowercased literally, and the class
/// name (less a trailing `Controller`) converted to snake case. Casing is
/// ASCII-only throughout: a non-ASCII letter passes through unchanged.
pub open spec fn derived_path(module: Seq<char>, controller: Seq<char>) -> Seq<char> {
    let base = lower_seq(module) + (if module.len() > 0 {
        "/"@
    } else {
        Seq::<char>::empty()
    });
    let segs = split_dc(controller);
    if segs.len() == 2 {
        base + lower_seq(segs[0]) + "/"@ + snake_of(strip_ctrl(segs[1]))
    } else {
        base + snake_of(strip_ctrl(segs[0]))
    }
}

/// Strip one trailing `Controller` suffix from a class-name segment.
fn strip_controller_suffix(s: &str) -> (r: String)
    ensures
        r@ == strip_ctrl(s@),
{
    let n = s.unicode_len();
    if n >= 10 {
        let tail = s.substring_char(n - 10, n);
        if str_eq(tail, "Controller") {
            let kept = s.substring_char(0, n - 10).to_owned();
            proof {
                assert(tail@ =~= s@.skip(n - 10));
                assert(kept@ =~= s@.take(n - 10));
            }
            return kept;
        }
        proof {
            assert(tail@ =~= s@.skip(n - 10));
        }
    }
    s.to_owned()
}

/// Camel case to snake case over a whole segment.
fn snake_case(s: &str) -> (r: String)
    ensures
        r@ == snake_of(s@),
{
    let n = s.unicode_len();
    let mut out = String::new();
    if n == 0 {
        proof {
            assert(out@ =~= snake_of(s@));
        }
        return out;
    }
    push_char(&mut out, ascii_lower(s.get_char(0)));
    let mut i: usize = 1;
    proof {
        assert(out@ =~= seq![lower_char(s@[0])]);
        assert(out@ + snake_rest(s@.skip(1)) == snake_of(s@));
    }
    while i < n
        invariant
            1 <= i <= n,
            n == s@.len(),
            out@ + snake_rest(s@.skip(i as int)) == snake_of(s@),
        decreases n - i,
    {
        let ghost rest = s@.skip(i as int);
        proof {
            assert(rest[0] == s@[i as int]);
            assert(rest.drop_first() =~= s@.skip(i + 1));
        }
        let c = s.get_char(i);
        let ghost out0 = out@;
        if 'A' <= c && c <= 'Z' {
            push_char(&mut out, '_');
            push_char(&mut out, ascii_lower(c));
            proof {
                assert(out@ =~= out0 + seq!['_', lower_char(s@[i as int])]);
                assert(out@ + snake_rest(s@.skip(i + 1)) =~= out0 + snake_rest(rest));
            }
        } else {
            push_char(&mut out, c);
            proof {
                assert(out@ =~= out0 + seq![s@[i as int]]);
                assert(out@ + snake_rest(s@.skip(i + 1)) =~= out0 + snake_rest(rest));
            }
        }
        i = i + 1;
    }
    proof {
        assert(s@.skip(n as int) =~= Seq::<char>::empty());
        assert(snake_rest(Seq::<char>::empty()) == Seq::<char>::empty());
        assert(out@ + Seq::<char>::empty() =~= out@);
    }
    out
}

/// Split an identifier at each `::`.
fn split_double_colon(s: &str) -> (r: Vec<String>)
    ensures
        r.deep_view() == split_dc(s@),
{
    let n = s.unicode_len();
    let mut out: Vec<String> = Vec::new();
    let mut i: usize = 0;
    proof {
        assert(s@.skip(0) =~= s@);
    }
    loop
        invariant
            0 <= i <= n,
            n == s@.len(),
            out.deep_view() + split_dc(s@.skip(i as int)) == split_dc(s@),
        decreases n - i,
    {
        let ghost dv0 = out.deep_view();
        let ghost rest = s@.skip(i as int);
        let mut j: usize = i;
        while n - j > 1 && !(s.get_char(j) == ':' && s.get_char(j + 1) == ':')
            invariant
                i <= j,
                j <= n,
                i == j || j < n,
                n == s@.len(),
                forall|m: int| i <= m < j ==> !((#[trigger] s@[m]) == ':' && s@[m + 1] == ':'),
            decreases n - j,
        {
            j = j + 1;
        }
        let found = n - j > 1 && s.get_char(j) == ':' && s.get_char(j + 1) == ':';
        proof {
            assert forall|m: int|
                0 <= m < j - i implies !((#[trigger] rest[m]) == ':' && rest[m + 1] == ':') by {
                assert(rest[m] == s@[m + i]);
                assert(rest[m + 1] == s@[m + i + 1]);
                assert(!(s@[m + i] == ':' && s@[m + i + 1] == ':'));
            }
            if found {
                assert(rest[j - i] == s@[j as int] && rest[j - i + 1] == s@[j + 1]);
                lemma_find_dc_at(rest, j - i);
            } else {
                assert forall|m: int|
                    0 <= m <= rest.len() - 2 implies !((#[trigger] rest[m]) == ':' && rest[m + 1]
                    == ':') by {
                    assert(rest[m] == s@[m + i]);
                    assert(rest[m + 1] == s@[m + i + 1]);
                    assert(m + i < j);
                    assert(!(s@[m + i] == ':' && s@[m + i + 1] == ':'));
                }
                lemma_find_dc_none(rest);
            }
        }
        if found {
            let seg = s.substring_char(i, j).to_owned();
            out.push(seg);
            proof {
                assert(rest.take(j - i) =~= s@.subrange(i as int, j as int));
                assert(rest.skip(j - i + 2) =~= s@.skip(j + 2));
                assert(split_dc(rest) == seq![s@.subrange(i as int, j as int)] + split_dc(
                    s@.skip(j + 2),
                ));
                assert(out.deep_view() =~= dv0.push(s@.subrange(i as int, j as int)));
                assert(out.deep_view() + split_dc(s@.skip(j + 2)) =~= dv0 + split_dc(rest));
            }
            i = j + 2;
        } else {
            let seg = s.substring_char(i, n).to_owned();
            out.push(seg);
            proof {
                assert(rest =~= s@.subrange(i as int, n as int));
                assert(split_dc(rest) == seq![rest]);
                assert(out.deep_view() =~= dv0.push(rest));
                assert(out.deep_view() =~= dv0 + split_dc(rest));
                assert(out.deep_view() =~= split_dc(s@));
            }
            return out;
        }
    }
}

/// Derive the canonical route-table path for a module/controller pair.
pub fn get_name(module: &str, controller: &str) -> (r: String)
    ensures
        r@ == derived_path(module@, controller@),
{
    let mut name = to_lower(module);
    if module.unicode_len() > 0 {
        name.append("/");
    }
    let segs = split_double_colon(controller);
    proof {
        assert(segs@.len() == split_dc(controller@).len());
        assert(segs.deep_view()[0] == split_dc(controller@)[0]);
        assert(segs@[0]@ == split_dc(controller@)[0]);
        if segs@.len() == 2 {
            assert(segs.deep_view()[1] == split_dc(controller@)[1]);
            assert(segs@[1]@ == split_dc(controller@)[1]);
        }
    }
    if segs.len() == 2 {
        let ns = to_lower(segs[0].as_str());
        name.append(ns.as_str());
        name.append("/");
        let stripped = strip_controller_suffix(segs[1].as_str());
        let snake = snake_case(stripped.as_str());
        name.append(snake.as_str());
    } else {
        let stripped = strip_controller_suffix(segs[0].as_str());
        let snake = snake_case(stripped.as_str());
        name.append(snake.as_str());
    }
    name
}

/// Lexicographic order on character sequences, by code point.
pub open spec fn lex_le(a: Seq<char>, b: Seq<char>) -> bool
    decreases a.len(),
{
    if a.len() == 0 {
        true
    } else if b.len() == 0 {
        false
    } else if (a[0] as int) < (b[0] as int) {
        true
    } else if (a[0] as int) > (b[0] as int) {
        false
    } else {
        lex_le(a.drop_first(), b.drop_first())
    }
}

/// One key inserted into a list before the first key it precedes.
pub open spec fn insert_sorted(x: Seq<char>, s: Seq<Seq<char>>) -> Seq<Seq<char>>
    decreases s.len(),
{
    if s.len() == 0 {
        seq![x]
    } else if lex_le(x, s[0]) {
        seq![x] + s
    } else {
        seq![s[0]] + insert_sorted(x, s.drop_first())
    }
}

/// The keys rearranged into ascending lexicographic order.
pub open spec fn sort_keys(s: Seq<Seq<char>>) -> Seq<Seq<char>>
    decreases s.len(),
{
    if s.len() == 0 {
        Seq::empty()
    } else {
        insert_sorted(s.last(), sort_keys(s.drop_last()))
    }
}

/// Lexicographic comparison of two strings, by code point.
fn str_le(a: &str, b: &str) -> (r: bool)
    ensures
        r == lex_le(a@, b@),
{
    let an = a.unicode_len();
    let bn = b.unicode_len();
    let mut i: usize = 0;
    proof {
        assert(a@.skip(0) =~= a@);
        assert(b@.skip(0) =~= b@);
    }
    while i < an && i < bn
        invariant
            0 <= i <= an,
            i <= bn,
            an == a@.len(),
            bn == b@.len(),
            lex_le(a@, b@) == lex_le(a@.skip(i as int), b@.skip(i as int)),
        decreases an - i,
    {
        let ca = a.get_char(i);
        let cb = b.get_char(i);
        proof {
            assert(a@.skip(i as int)[0] == a@[i as int]);
            assert(b@.skip(i as int)[0] == b@[i as int]);
            assert(a@.skip(i as int).drop_first() =~= a@.skip(i + 1));
            assert(b@.skip(i as int).drop_first() =~= b@.skip(i + 1));
        }
        if ca != cb {
            return (ca as u32) < (cb as u32);
        }
        i = i + 1;
    }
    proof {
        if i >= an {
            assert(a@.skip(i as int).len() == 0);
        } else {
            assert(a@.skip(i as int).len() > 0);
            assert(b@.skip(i as int).len() == 0);
        }
    }
    i >= an
}

/// Insert one key into an ascending key list, keeping it ascending.
fn insert_string_sorted(v: &Vec<String>, x: String) -> (r: Vec<String>)
    ensures
        r.deep_view() == insert_sorted(x@, v.deep_view()),
{
    let ghost dv = v.deep_view();
    let ghost xv = x@;
    let mut out: Vec<String> = Vec::new();
    let mut j: usize = 0;
    proof {
        assert(dv.skip(0) =~= dv);
        assert(out.deep_view() + insert_sorted(xv, dv) =~= insert_sorted(xv, dv));
    }
    while j < v.len() && !str_le(x.as_str(), v[j].as_str())
        invariant
            0 <= j <= v@.len(),
            dv == v.deep_view(),
            dv.len() == v@.len(),
            x@ == xv,
            out.deep_view() + insert_sorted(xv, dv.skip(j as int)) == insert_sorted(xv, dv),
        decreases v@.len() - j,
    {
        let ghost rest = dv.skip(j as int);
        let ghost dv0 = out.deep_view();
        proof {
            assert(rest[0] == dv[j as int]);
            assert(dv[j as int] == v@[j as int]@);
            assert(rest.drop_first() =~= dv.skip(j + 1));
        }
        out.push(v[j].clone());
        proof {
            assert(out.deep_view() =~= dv0.push(dv[j as int]));
            assert(out.deep_view() + insert_sorted(xv, dv.skip(j + 1)) =~= dv0 + insert_sorted(
                xv,
                rest,
            ));
        }
        j = j + 1;
    }
    let ghost dv1 = out.deep_view();
    out.push(x);
    proof {
        let rest = dv.skip(j as int);
        if j < dv.len() {
            assert(rest[0] == dv[j as int]);
            assert(dv[j as int] == v@[j as int]@);
            assert(insert_sorted(xv, rest) == seq![xv] + rest);
        } else {
            assert(rest.len() == 0);
            assert(insert_sorted(xv, rest) == seq![xv]);
            assert(seq![xv] + rest =~= seq![xv]);
        }
        assert(out.deep_view() =~= dv1.push(xv));
        assert(out.deep_view() + dv.skip(j as int) =~= dv1 + insert_sorted(xv, dv.skip(j as int)));
    }
    while j < v.len()
        invariant
            0 <= j <= v@.len(),
            dv == v.deep_view(),
            dv.len() == v@.len(),
            out.deep_view() + dv.skip(j as int) == insert_sorted(xv, dv),
        decreases v@.len() - j,
    {
        let ghost rest = dv.skip(j as int);
        let ghost dv0 = out.deep_view();
        proof {
            assert(rest[0] == dv[j as int]);
            assert(dv[j as int] == v@[j as int]@);
            assert(rest =~= seq![dv[j as int]] + dv.skip(j + 1));
        }
        out.push(v[j].clone());
        proof {
            assert(out.deep_view() =~= dv0.push(dv[j as int]));
            assert(out.deep_view() + dv.skip(j + 1) =~= dv0 + rest);
        }
        j = j + 1;
    }
    proof {
        assert(dv.skip(dv.len() as int) =~= Seq::<Seq<char>>::empty());
        assert(out.deep_view() + Seq::<Seq<char>>::empty() =~= out.deep_view());
    }
    out
}

/// Sort a key list into ascending lexicographic order.
pub fn sort_strings(v: &Vec<String>) -> (r: Vec<String>)
    ensures
        r.deep_view() == sort_keys(v.deep_view()),
{
    let ghost dv = v.deep_view();
    let mut out: Vec<String> = Vec::new();
    let mut i: usize = 0;
    proof {
        assert(dv.take(0) =~= Seq::<Seq<char>>::empty());
        assert(out.deep_view() =~= Seq::<Seq<char>>::empty());
    }
    while i < v.len()
        invariant
            0 <= i <= v@.len(),
            dv == v.deep_view(),
            dv.len() == v@.len(),
            out.deep_view() == sort_keys(dv.take(i as int)),
        decreases v@.len() - i,
    {
        let nxt = v[i].clone();
        proof {
            assert(nxt@ == dv[i as int]);
            assert(dv.take(i + 1).drop_last() =~= dv.take(i as int));
            assert(dv.take(i + 1).last() == dv[i as int]);
        }
        out = insert_string_sorted(&out, nxt);
        i = i + 1;
    }
    proof {
        assert(dv.take(dv.len() as int) =~= dv);
    }
    out
}

/// The one-line rendering of a method: its name, then its parameter keys
/// in ascending order and its outbound renderings where present; a private
/// method renders as its name and the word `private`.
pub open spec fn method_summary(m: Method) -> Seq<char> {
    if m.private {
        m.name@ + " private"@
    } else {
        m.name@ + " "@ + (if m.params@.len() > 0 {
            "params: "@ + joined(sort_keys(m.params.deep_view()), ","@) + " "@
        } else {
            Seq::<char>::empty()
        }) + (if m.responses@.len() > 0 {
            "responses: "@ + joined(m.responses.deep_view(), ","@) + " "@
        } else {
            Seq::<char>::empty()
        })
    }
}

/// Render one method summary line.
pub fn method_summary_line(m: &Method) -> (r: String)
    ensures
        r@ == method_summary(*m),
{
    if m.private {
        return m.name.clone().concat(" private");
    }
    let mut line = m.name.clone().concat(" ");
    if m.params.len() > 0 {
        line.append("params: ");
        let sorted = sort_strings(&m.params);
        let j = join_strings(&sorted, ",");
        line.append(j.as_str());
        line.append(" ");
    }
    if m.responses.len() > 0 {
        line.append("responses: ");
        let j = join_strings(&m.responses, ",");
        line.append(j.as_str());
        line.append(" ");
    }
    line
}

pub open spec fn route_summary(r: Request) -> Seq<char> {
    verb_name(r@.method) + " "@ + r.uri@
}

/// The match lines one route contributes: one line per method whose name
/// equals the route's action.
pub open spec fn route_lines(r: Request, ms: Seq<Method>) -> Seq<Seq<char>>
    decreases ms.len(),
{
    if ms.len() == 0 {
        Seq::empty()
    } else {
        (if ms[0].name@ == r.action@ {
            seq![route_summary(r) + " "@ + method_summary(ms[0])]
        } else {
            Seq::<Seq<char>>::empty()
        }) + route_lines(r, ms.drop_first())
    }
}

/// Every match line of a derived path against the route table: for each
/// route whose controller equals the path, one line per method whose name
/// equals the route's action, in table order.
pub open spec fn match_lines(name: Seq<char>, rs: Seq<Request>, ms: Seq<Method>) -> Seq<Seq<char>>
    decreases rs.len(),
{
    if rs.len() == 0 {
        Seq::empty()
    } else {
        (if rs[0].controller@ == name {
            route_lines(rs[0], ms)
        } else {
            Seq::<Seq<char>>::empty()
        }) + match_lines(name, rs.drop_first(), ms)
    }
}

/// Append the match lines of one route.
fn append_route_lines(out: &mut Vec<String>, r: &Request, methods: &Vec<Method>)
    ensures
        final(out).deep_view() == old(out).deep_view() + route_lines(*r, methods@),
{
    let mut j: usize = 0;
    proof {
        assert(methods@.skip(0) =~= methods@);
        assert(out.deep_view() + route_lines(*r, methods@) =~= old(out).deep_view() + route_lines(
            *r,
            methods@,
        ));
    }
    while j < methods.len()
        invariant
            0 <= j <= methods@.len(),
            out.deep_view() + route_lines(*r, methods@.skip(j as int)) == old(out).deep_view()
                + route_lines(*r, methods@),
        decreases methods@.len() - j,
    {
        let ghost rest = methods@.skip(j as int);
        let ghost dv0 = out.deep_view();
        proof {
            assert(rest[0] == methods@[j as int]);
            assert(rest.drop_first() =~= methods@.skip(j + 1));
        }
        if str_eq(methods[j].name.as_str(), r.action.as_str()) {
            let mut line = r.summary();
            line.append(" ");
            let ms = method_summary_line(&methods[j]);
            line.append(ms.as_str());
            out.push(line);
            proof {
                assert(out.deep_view() =~= dv0.push(
                    route_summary(*r) + " "@ + method_summary(methods@[j as int]),
                ));
                assert(out.deep_view() + route_lines(*r, methods@.skip(j + 1)) =~= dv0
                    + route_lines(*r, rest));
            }
        } else {
            proof {
                assert(out.deep_view() + route_lines(*r, methods@.skip(j + 1)) =~= dv0
                    + route_lines(*r, rest));
            }
        }
        j = j + 1;
    }
    proof {
        assert(methods@.skip(methods@.len() as int) =~= Seq::<Method>::empty());
        assert(route_lines(*r, Seq::<Method>::empty()) == Seq::<Seq<char>>::empty());
        assert(out.deep_view() + Seq::<Seq<char>>::empty() =~= out.deep_view());
    }
}

/// Search the route table for a derived path: every matched route/method
/// pair becomes one line; a path with no match at all is the error case.
pub fn search_in_routes(name: &str, routes: &Vec<Request>, methods: &Vec<Method>) -> (r: Result<
    Vec<String>,
    String,
>)
    ensures
        (match r {
            Ok(v) => v.deep_view() == match_lines(name@, routes@, methods@) && v@.len() > 0,
            Err(e) => match_lines(name@, routes@, methods@).len() == 0 && e@
                == "unable to find method on controller"@,
        }),
{
    let mut out: Vec<String> = Vec::new();
    let mut i: usize = 0;
    proof {
        assert(routes@.skip(0) =~= routes@);
        assert(out.deep_view() + match_lines(name@, routes@, methods@) =~= match_lines(
            name@,
            routes@,
            methods@,
        ));
    }
    while i < routes.len()
        invariant
            0 <= i <= routes@.len(),
            out.deep_view() + match_lines(name@, routes@.skip(i as int), methods@) == match_lines(
                name@,
                routes@,
                methods@,
            ),
        decreases routes@.len() - i,
    {
        let ghost rest = routes@.skip(i as int);
        let ghost dv0 = out.deep_view();
        proof {
            assert(rest[0] == routes@[i as int]);
            assert(rest.drop_first() =~= routes@.skip(i + 1));
        }
        if str_eq(routes[i].controller.as_str(), name) {
            append_route_lines(&mut out, &routes[i], methods);
            proof {
                assert(out.deep_view() + match_lines(name@, routes@.skip(i + 1), methods@) =~= dv0
                    + match_lines(name@, rest, methods@));
            }
        } else {
            proof {
                assert(out.deep_view() + match_lines(name@, routes@.skip(i + 1), methods@) =~= dv0
                    + match_lines(name@, rest, methods@));
            }
        }
        i = i + 1;
    }
    proof {
        assert(routes@.skip(routes@.len() as int) =~= Seq::<Request>::empty());
        assert(match_lines(name@, Seq::<Request>::empty(), methods@) == Seq::<Seq<char>>::empty());
        assert(out.deep_view() + Seq::<Seq<char>>::empty() =~= out.deep_view());
    }
    if out.len() == 0 {
        Err(String::from_str("unable to find method on controller"))
    } else {
        Ok(out)
    }
}

pub open spec fn warning_line(mod_name: Seq<char>, ctrl: Seq<char>, path: Seq<char>) -> Seq<char> {
    "unable to find controller for "@ + mod_name + " "@ + ctrl + " -- "@ + path
}

/// What one controller contributes to the report: its match lines, or a
/// single warning when no route covers it.
pub open spec fn controller_report(mod_name: Seq<char>, c: Controller, rs: Seq<Request>) -> Seq<
    Seq<char>,
> {
    let path = derived_path(mod_name, c.name@);
    let lines = match_lines(path, rs, c.methods@);
    if lines.len() == 0 {
        seq![warning_line(mod_name, c.name@, path)]
    } else {
        lines
    }
}

pub open spec fn controllers_report(
    mod_name: Seq<char>,
    cs: Seq<Controller>,
    rs: Seq<Request>,
) -> Seq<Seq<char>>
    decreases cs.len(),
{
    if cs.len() == 0 {
        Seq::empty()
    } else {
        controller_report(mod_name, cs[0], rs) + controllers_report(mod_name, cs.drop_first(), rs)
    }
}

pub open spec fn modules_report(ms: Seq<Module>, rs: Seq<Request>) -> Seq<Seq<char>>
    decreases ms.len(),
{
    if ms.len() == 0 {
        Seq::empty()
    } else {
        controllers_report(ms[0].name@, ms[0].classes@, rs) + modules_report(ms.drop_first(), rs)
    }
}

/// One file's report: the controllers of each of its modules, then its
/// top-level controllers under the empty module name.
pub open spec fn file_report(f: RubyFile, rs: Seq<Request>) -> Seq<Seq<char>> {
    modules_report(f.modules@, rs) + controllers_report(""@, f.controllers@, rs)
}

pub open spec fn files_report(fs: Seq<RubyFile>, rs: Seq<Request>) -> Seq<Seq<char>>
    decreases fs.len(),
{
    if fs.len() == 0 {
        Seq::empty()
    } else {
        file_report(fs[0], rs) + files_report(fs.drop_first(), rs)
    }
}

/// Report one controller under a module name.
fn report_controller(out: &mut Vec<String>, mod_name: &str, c: &Controller, rs: &Vec<Request>)
    ensures
        final(out).deep_view() == old(out).deep_view() + controller_report(mod_name@, *c, rs@),
{
    let path = get_name(mod_name, c.name.as_str());
    let ghost dv0 = out.deep_view();
    match search_in_routes(path.as_str(), rs, &c.methods) {
        Ok(mut lines) => {
            let ghost lv = lines.deep_view();
            let ghost lseq = lines@;
            out.append(&mut lines);
            proof {
                assert forall|m: int|
                    0 <= m < out.deep_view().len() implies out.deep_view()[m] == (dv0 + lv)[m] by {
                    assert(out.deep_view()[m] == out@[m]@);
                    if m < dv0.len() {
                        assert(dv0[m] == out@[m]@);
                    } else {
                        assert(out@[m] == lseq[m - dv0.len()]);
                        assert(lv[m - dv0.len()] == lseq[m - dv0.len()]@);
                    }
                }
                assert(out.deep_view() =~= dv0 + lv);
                assert(out.deep_view() =~= dv0 + controller_report(mod_name@, *c, rs@));
            }
        },
        Err(_) => {
            let mut w = String::from_str("unable to find controller for ");
            w.append(mod_name);
            w.append(" ");
            w.append(c.name.as_str());
            w.append(" -- ");
            w.append(path.as_str());
            out.push(w);
            proof {
                assert(out.deep_view() =~= dv0.push(
                    warning_line(mod_name@, c.name@, derived_path(mod_name@, c.name@)),
                ));
                assert(out.deep_view() =~= dv0 + controller_report(mod_name@, *c, rs@));
            }
        },
    }
}

/// Report every controller of a list under one module name.
fn report_controllers(
    out: &mut Vec<String>,
    mod_name: &str,
    cs: &Vec<Controller>,
    rs: &Vec<Request>,
)
    ensures
        final(out).deep_view() == old(out).deep_view() + controllers_report(mod_name@, cs@, rs@),
{
    let mut i: usize = 0;
    proof {
        assert(cs@.skip(0) =~= cs@);
        assert(out.deep_view() + controllers_report(mod_name@, cs@, rs@) =~= old(out).deep_view()
            + controllers_report(mod_name@, cs@, rs@));
    }
    while i < cs.len()
        invariant
            0 <= i <= cs@.len(),
            out.deep_view() + controllers_report(mod_name@, cs@.skip(i as int), rs@) == old(
                out,
            ).deep_view() + controllers_report(mod_name@, cs@, rs@),
        decreases cs@.len() - i,
    {
        let ghost rest = cs@.skip(i as int);
        let ghost dv0 = out.deep_view();
        proof {
            assert(rest[0] == cs@[i as int]);
            assert(rest.drop_first() =~= cs@.skip(i + 1));
        }
        report_controller(out, mod_name, &cs[i], rs);
        proof {
            assert(out.deep_view() + controllers_report(mod_name@, cs@.skip(i + 1), rs@) =~= dv0
                + controllers_report(mod_name@, rest, rs@));
        }
        i = i + 1;
    }
    proof {
        assert(cs@.skip(cs@.len() as int) =~= Seq::<Controller>::empty());
        assert(controllers_report(mod_name@, Seq::<Controller>::empty(), rs@) == Seq::<
            Seq<char>,
        >::empty());
        assert(out.deep_view() + Seq::<Seq<char>>::empty() =~= out.deep_view());
    }
}

/// Report every controller of every module of a list.
fn report_modules(out: &mut Vec<String>, ms: &Vec<Module>, rs: &Vec<Request>)
    ensures
        final(out).deep_view() == old(out).deep_view() + modules_report(ms@, rs@),
{
    let mut i: usize = 0;
    proof {
        assert(ms@.skip(0) =~= ms@);
        assert(out.deep_view() + modules_report(ms@, rs@) =~= old(out).deep_view()
            + modules_report(ms@, rs@));
    }
    while i < ms.len()
        invariant
            0 <= i <= ms@.len(),
            out.deep_view() + modules_report(ms@.skip(i as int), rs@) == old(out).deep_view()
                + modules_report(ms@, rs@),
        decreases ms@.len() - i,
    {
        let ghost rest = ms@.skip(i as int);
        let ghost dv0 = out.deep_view();
        proof {
            assert(rest[0] == ms@[i as int]);
            assert(rest.drop_first() =~= ms@.skip(i + 1));
        }
        report_controllers(out, ms[i].name.as_str(), &ms[i].classes, rs);
        proof {
            assert(out.deep_view() + modules_report(ms@.skip(i + 1), rs@) =~= dv0 + modules_report(
                rest,
                rs@,
            ));
        }
        i = i + 1;
    }
    proof {
        assert(ms@.skip(ms@.len() as int) =~= Seq::<Module>::empty());
        assert(modules_report(Seq::<Module>::empty(), rs@) == Seq::<Seq<char>>::empty());
        assert(out.deep_view() + Seq::<Seq<char>>::empty() =~= out.deep_view());
    }
}

/// Cross-reference every extracted file against the route table: the full
/// report, in file order — match lines for covered methods, one warning
/// line per uncovered controller.
pub fn compute(files: &Vec<RubyFile>, routes: &Vec<Request>) -> (report: Vec<String>)
    ensures
        report.deep_view() == files_report(files@, routes@),
{
    let mut out: Vec<String> = Vec::new();
    let mut i: usize = 0;
    proof {
        assert(files@.skip(0) =~= files@);
        assert(out.deep_view() =~= Seq::<Seq<char>>::empty());
        assert(out.deep_view() + files_report(files@, routes@) =~= files_report(files@, routes@));
    }
    while i < files.len()
        invariant
            0 <= i <= files@.len(),
            out.deep_view() + files_report(files@.skip(i as int), routes@) == files_report(
                files@,
                routes@,
            ),
        decreases files@.len() - i,
    {
        let ghost rest = files@.skip(i as int);
        let ghost dv0 = out.deep_view();
        proof {
            assert(rest[0] == files@[i as int]);
            assert(rest.drop_first() =~= files@.skip(i + 1));
        }
        report_modules(&mut out, &files[i].modules, routes);
        report_controllers(&mut out, "", &files[i].controllers, routes);
        proof {
            assert(out.deep_view() + files_report(files@.skip(i + 1), routes@) =~= dv0
                + files_report(rest, routes@));
        }
        i = i + 1;
    }
    proof {
        assert(files@.skip(files@.len() as int) =~= Seq::<RubyFile>::empty());
        assert(files_report(Seq::<RubyFile>::empty(), routes@) == Seq::<Seq<char>>::empty());
        assert(out.deep_view() + Seq::<Seq<char>>::empty() =~= out.deep_view());
    }
    out
}

} // verus!
