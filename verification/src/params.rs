//! Parameter-key extraction: a worklist scan of a statement subtree that
//! collects every key read from the conventional `params` object.

use vstd::prelude::*;

use crate::ast::{size_of, size_of_list, size_of_opt, Node};
use crate::text::str_eq;

verus! {

/// The set of parameter keys a subtree reads.
///
/// An indexing of `params` or a call whose receiver is `params` harvests its
/// literal symbol arguments without descending into them; every other
/// category either exposes children that are scanned in turn or contributes
/// nothing.
pub open spec fn keys_of(n: Node) -> Set<Seq<char>>
    decreases n,
{
    match n {
        Node::Alias { from } => keys_of(*from),
        Node::And { lhs, rhs } => keys_of(*lhs) + keys_of(*rhs),
        Node::AndAsgn { value } => keys_of(*value),
        Node::Array { elements } => keys_of_list(elements@),
        Node::ArrayPattern { elements } => keys_of_list(elements@),
        Node::ArrayPatternWithTail { elements } => keys_of_list(elements@),
        Node::Begin { statements } => keys_of_list(statements@),
        Node::Block { body } => keys_of_opt(body),
        Node::BlockPass { value } => keys_of_opt(value),
        Node::Casgn => Set::empty(),
        Node::Class { name, superclass, body } => keys_of_opt(body),
        Node::Const { scope, name } => keys_of_opt(scope),
        Node::ConstPattern { pattern } => keys_of(*pattern),
        Node::CSend { args } => keys_of_list(args@),
        Node::Cvar { name } => Set::empty(),
        Node::Def { name, body } => Set::empty(),
        Node::Defined { value } => keys_of(*value),
        Node::Dstr { parts } => keys_of_list(parts@),
        Node::Dsym { parts } => keys_of_list(parts@),
        Node::EFlipFlop { left, right } => keys_of_opt(left) + keys_of_opt(right),
        Node::Ensure { body, ensure_body } => keys_of_opt(body) + keys_of_opt(ensure_body),
        Node::Erange { left, right } => keys_of_opt(left) + keys_of_opt(right),
        Node::FindPattern { elements } => keys_of_list(elements@),
        Node::For { iterator, iteratee, body } => keys_of(*iterator) + keys_of(*iteratee)
            + keys_of_opt(body),
        Node::Gvar { name } => Set::empty(),
        Node::Hash { pairs } => keys_of_list(pairs@),
        Node::HashPattern { elements } => keys_of_list(elements@),
        Node::If { cond, if_true, if_false } => keys_of(*cond) + keys_of_opt(if_true)
            + keys_of_opt(if_false),
        Node::IfGuard { cond } => keys_of(*cond),
        Node::IFlipFlop { left, right } => keys_of_opt(left) + keys_of_opt(right),
        Node::IfMod { cond, if_true, if_false } => keys_of(*cond) + keys_of_opt(if_true)
            + keys_of_opt(if_false),
        Node::IfTernary { cond, if_true, if_false } => keys_of(*cond) + keys_of(*if_true)
            + keys_of(*if_false),
        Node::Index { recv, indexes } => match *recv {
            Node::Const { scope, name } => if name@ == "params"@ {
                sym_keys(indexes@)
            } else {
                Set::empty()
            },
            Node::Send { recv: inner_recv, method_name, args } => if method_name@ == "params"@ {
                sym_keys(indexes@)
            } else {
                keys_of_list(args@) + keys_of_opt(inner_recv)
            },
            _ => keys_of(*recv),
        },
        Node::InPattern { pattern, guard, body } => keys_of(*pattern) + keys_of_opt(guard)
            + keys_of_opt(body),
        Node::Int { value } => Set::empty(),
        Node::Irange { left, right } => keys_of_opt(left) + keys_of_opt(right),
        Node::Ivar { name } => Set::empty(),
        Node::Ivasgn { name, value } => keys_of_opt(value),
        Node::Kwargs { pairs } => keys_of_list(pairs@),
        Node::KwBegin { statements } => keys_of_list(statements@),
        Node::Kwoptarg { default_value } => keys_of(*default_value),
        Node::Kwsplat { value } => keys_of(*value),
        Node::Lvar { name } => Set::empty(),
        Node::Lvasgn { name, value } => keys_of_opt(value),
        Node::Masgn { lhs, rhs } => keys_of(*lhs) + keys_of(*rhs),
        Node::MatchAlt { lhs, rhs } => keys_of(*lhs) + keys_of(*rhs),
        Node::MatchAs { value } => keys_of(*value),
        Node::MatchPattern { value, pattern } => keys_of(*value) + keys_of(*pattern),
        Node::MatchPatternP { value, pattern } => keys_of(*value) + keys_of(*pattern),
        Node::MatchRest { name } => keys_of_opt(name),
        Node::MatchWithLvasgn { re, value } => keys_of(*re) + keys_of(*value),
        Node::Mlhs { items } => keys_of_list(items@),
        Node::Module { name, body } => Set::empty(),
        Node::Next { args } => keys_of_list(args@),
        Node::Numblock { body } => keys_of(*body),
        Node::OpAsgn { recv, value } => keys_of(*recv) + keys_of(*value),
        Node::Optarg { default_value } => keys_of(*default_value),
        Node::Or { lhs, rhs } => keys_of(*lhs) + keys_of(*rhs),
        Node::OrAsgn { recv, value } => keys_of(*recv) + keys_of(*value),
        Node::Pair { key, value } => keys_of(*key) + keys_of(*value),
        Node::Pin { var } => keys_of(*var),
        Node::Postexe { body } => keys_of_opt(body),
        Node::Preexe { body } => keys_of_opt(body),
        Node::Procarg0 { args } => keys_of_list(args@),
        Node::Regexp { parts, options } => keys_of_list(parts@) + keys_of_opt(options),
        Node::Rescue { body, rescue_bodies, else_clause } => keys_of_opt(body) + keys_of_list(
            rescue_bodies@,
        ) + keys_of_opt(else_clause),
        Node::RescueBody { body, exc_var, exc_list } => keys_of_opt(body) + keys_of_opt(exc_var)
            + keys_of_opt(exc_list),
        Node::Return { args } => keys_of_list(args@),
        Node::Send { recv, method_name, args } => match recv {
            Option::Some(r) => match *r {
                Node::Send { recv: inner_recv, method_name: inner_name, args: inner_args } => {
                    if inner_name@ == "params"@ {
                        sym_keys(args@)
                    } else {
                        keys_of_list(args@) + keys_of(*r)
                    }
                },
                _ => keys_of_list(args@) + keys_of(*r),
            },
            Option::None => keys_of_list(args@),
        },
        Node::Splat { value } => keys_of_opt(value),
        Node::Str { value } => Set::empty(),
        Node::Sym { name } => Set::empty(),
        Node::Undef { names } => keys_of_list(names@),
        Node::UnlessGuard { cond } => keys_of(*cond),
        Node::Until { cond, body } => keys_of(*cond) + keys_of_opt(body),
        Node::UntilPost { cond, body } => keys_of(*cond) + keys_of(*body),
        Node::When { patterns, body } => keys_of_list(patterns@) + keys_of_opt(body),
        Node::While { cond, body } => keys_of(*cond) + keys_of_opt(body),
        Node::WhilePost { cond, body } => keys_of(*cond) + keys_of(*body),
        Node::Yield { args } => keys_of_list(args@),
        Node::Other => Set::empty(),
    }
}

pub open spec fn keys_of_list(s: Seq<Node>) -> Set<Seq<char>>
    decreases s,
{
    if s.len() == 0 {
        Set::empty()
    } else {
        keys_of(s[0]) + keys_of_list(s.drop_first())
    }
}

pub open spec fn keys_of_opt(o: Option<Box<Node>>) -> Set<Seq<char>>
    decreases o,
{
    match o {
        Option::Some(b) => keys_of(*b),
        Option::None => Set::empty(),
    }
}

/// The names of the literal symbols in a harvested argument list.
pub open spec fn sym_keys(s: Seq<Node>) -> Set<Seq<char>>
    decreases s,
{
    if s.len() == 0 {
        Set::empty()
    } else {
        (match s[0] {
            Node::Sym { name } => Set::empty().insert(name@),
            _ => Set::empty(),
        }) + sym_keys(s.drop_first())
    }
}

/// The set of character sequences a vector of strings holds.
pub open spec fn key_set(ss: Seq<String>) -> Set<Seq<char>> {
    Set::new(|k: Seq<char>| exists|i: int| 0 <= i < ss.len() && ss[i]@ == k)
}

/// No two strings of the vector are equal.
pub open spec fn uniq(ss: Seq<String>) -> bool {
    forall|i: int, j: int| 0 <= i < j < ss.len() ==> ss[i]@ != ss[j]@
}

pub open spec fn keys_of_ref_list<'a>(s: Seq<&'a Node>) -> Set<Seq<char>>
    decreases s,
{
    if s.len() == 0 {
        Set::empty()
    } else {
        keys_of(*s[0]) + keys_of_ref_list(s.drop_first())
    }
}

pub open spec fn size_of_ref_list<'a>(s: Seq<&'a Node>) -> nat
    decreases s,
{
    if s.len() == 0 {
        0
    } else {
        size_of(*s[0]) + size_of_ref_list(s.drop_first())
    }
}

proof fn lemma_ref_list_push<'a>(s: Seq<&'a Node>, p: &'a Node)
    ensures
        keys_of_ref_list(s.push(p)) == keys_of_ref_list(s) + keys_of(*p),
        size_of_ref_list(s.push(p)) == size_of_ref_list(s) + size_of(*p),
    decreases s.len(),
{
    if s.len() == 0 {
        assert(s.push(p)[0] == p);
        assert(s.push(p).drop_first() =~= Seq::<&'a Node>::empty());
        assert(keys_of_ref_list(Seq::<&'a Node>::empty()) == Set::<Seq<char>>::empty());
        assert(size_of_ref_list(Seq::<&'a Node>::empty()) == 0);
        assert(keys_of_ref_list(s.push(p)) == keys_of(*p) + Set::<Seq<char>>::empty());
        assert(size_of_ref_list(s.push(p)) == size_of(*p) + 0);
        assert(keys_of(*p) + Set::<Seq<char>>::empty() =~= keys_of(*p));
        assert(keys_of_ref_list(s) == Set::<Seq<char>>::empty());
        assert(keys_of_ref_list(s) + keys_of(*p) =~= keys_of(*p));
    } else {
        assert(s.push(p)[0] == s[0]);
        assert(s.push(p).drop_first() =~= s.drop_first().push(p));
        lemma_ref_list_push(s.drop_first(), p);
        assert(keys_of_ref_list(s) == keys_of(*s[0]) + keys_of_ref_list(s.drop_first()));
        assert(size_of_ref_list(s) == size_of(*s[0]) + size_of_ref_list(s.drop_first()));
        assert(keys_of_ref_list(s.push(p)) == keys_of(*s[0]) + (keys_of_ref_list(s.drop_first())
            + keys_of(*p)));
        assert(keys_of(*s[0]) + (keys_of_ref_list(s.drop_first()) + keys_of(*p)) =~= (keys_of(
            *s[0],
        ) + keys_of_ref_list(s.drop_first())) + keys_of(*p));
    }
}

proof fn lemma_ref_list_last<'a>(s: Seq<&'a Node>)
    requires
        s.len() > 0,
    ensures
        keys_of_ref_list(s) == keys_of_ref_list(s.drop_last()) + keys_of(*s.last()),
        size_of_ref_list(s) == size_of_ref_list(s.drop_last()) + size_of(*s.last()),
{
    assert(s =~= s.drop_last().push(s.last()));
    lemma_ref_list_push(s.drop_last(), s.last());
}

proof fn lemma_keys_of_list_take_step(s: Seq<Node>, i: int)
    requires
        0 <= i < s.len(),
    ensures
        keys_of_list(s.take(i + 1)) == keys_of_list(s.take(i)) + keys_of(s[i]),
    decreases i,
{
    if i == 0 {
        assert(s.take(1)[0] == s[0]);
        assert(s.take(1).drop_first() =~= Seq::<Node>::empty());
        assert(s.take(0) =~= Seq::<Node>::empty());
        assert(keys_of_list(s.take(1)) == keys_of(s[0]) + keys_of_list(Seq::<Node>::empty()));
        assert(keys_of_list(s.take(0)) + keys_of(s[0]) =~= keys_of(s[0]) + Set::<
            Seq<char>,
        >::empty());
        assert(keys_of(s[0]) + Set::<Seq<char>>::empty() =~= keys_of(s[0]));
        assert(keys_of_list(s.take(1)) =~= keys_of(s[0]));
    } else {
        let t = s.drop_first();
        lemma_keys_of_list_take_step(t, i - 1);
        assert(s.take(i + 1)[0] == s[0]);
        assert(s.take(i + 1).drop_first() =~= t.take(i));
        assert(s.take(i)[0] == s[0]);
        assert(s.take(i).drop_first() =~= t.take(i - 1));
        assert(keys_of_list(s.take(i + 1)) == keys_of(s[0]) + (keys_of_list(t.take(i - 1))
            + keys_of(t[i - 1])));
        assert(keys_of(s[0]) + (keys_of_list(t.take(i - 1)) + keys_of(t[i - 1])) =~= (keys_of(s[0])
            + keys_of_list(t.take(i - 1))) + keys_of(t[i - 1]));
        assert(t[i - 1] == s[i]);
    }
}

proof fn lemma_sym_keys_take_step(s: Seq<Node>, i: int)
    requires
        0 <= i < s.len(),
    ensures
        sym_keys(s.take(i + 1)) == sym_keys(s.take(i)) + (match s[i] {
            Node::Sym { name } => Set::empty().insert(name@),
            _ => Set::<Seq<char>>::empty(),
        }),
    decreases i,
{
    let one = (match s[i] {
        Node::Sym { name } => Set::empty().insert(name@),
        _ => Set::<Seq<char>>::empty(),
    });
    if i == 0 {
        assert(s.take(1)[0] == s[0]);
        assert(s.take(1).drop_first() =~= Seq::<Node>::empty());
        assert(s.take(0) =~= Seq::<Node>::empty());
        assert(sym_keys(s.take(1)) == one + sym_keys(Seq::<Node>::empty()));
        assert(one + Set::<Seq<char>>::empty() =~= one);
        assert(sym_keys(s.take(0)) + one =~= one);
    } else {
        let t = s.drop_first();
        lemma_sym_keys_take_step(t, i - 1);
        let head = (match s[0] {
            Node::Sym { name } => Set::empty().insert(name@),
            _ => Set::<Seq<char>>::empty(),
        });
        assert(s.take(i + 1)[0] == s[0]);
        assert(s.take(i + 1).drop_first() =~= t.take(i));
        assert(s.take(i)[0] == s[0]);
        assert(s.take(i).drop_first() =~= t.take(i - 1));
        assert(t[i - 1] == s[i]);
        assert(sym_keys(s.take(i + 1)) == head + (sym_keys(t.take(i - 1)) + one));
        assert(head + (sym_keys(t.take(i - 1)) + one) =~= (head + sym_keys(t.take(i - 1))) + one);
    }
}

/// Add a key to the collection unless an equal one is already there.
fn insert_key(keys: &mut Vec<String>, k: String)
    requires
        uniq(old(keys)@),
    ensures
        uniq(final(keys)@),
        key_set(final(keys)@) == key_set(old(keys)@).insert(k@),
{
    let mut j: usize = 0;
    while j < keys.len()
        invariant
            0 <= j <= keys@.len(),
            forall|i: int| 0 <= i < j ==> keys@[i]@ != k@,
            uniq(keys@),
            keys@ == old(keys)@,
        decreases keys@.len() - j,
    {
        if str_eq(keys[j].as_str(), k.as_str()) {
            proof {
                assert(key_set(keys@).contains(k@));
                assert(key_set(keys@) =~= key_set(old(keys)@).insert(k@));
            }
            return ;
        }
        j = j + 1;
    }
    keys.push(k);
    proof {
        assert(keys@ == old(keys)@.push(k));
        assert forall|q: Seq<char>| key_set(keys@).contains(q) <==> key_set(
            old(keys)@,
        ).insert(k@).contains(q) by {
            if key_set(keys@).contains(q) {
                let i = choose|i: int| 0 <= i < keys@.len() && keys@[i]@ == q;
                if i < old(keys)@.len() {
                    assert(key_set(old(keys)@).contains(q));
                } else {
                    assert(q == k@);
                }
            }
            if key_set(old(keys)@).insert(k@).contains(q) {
                if q == k@ {
                    assert(keys@[keys@.len() - 1]@ == q);
                } else {
                    let i = choose|i: int| 0 <= i < old(keys)@.len() && old(keys)@[i]@ == q;
                    assert(keys@[i]@ == q);
                }
            }
        }
        assert(key_set(keys@) =~= key_set(old(keys)@).insert(k@));
    }
}

/// Collect the names of the literal symbols of a harvested argument list.
fn harvest_syms(keys: &mut Vec<String>, indexes: &Vec<Node>)
    requires
        uniq(old(keys)@),
    ensures
        uniq(final(keys)@),
        key_set(final(keys)@) == key_set(old(keys)@) + sym_keys(indexes@),
{
    let mut i: usize = 0;
    while i < indexes.len()
        invariant
            0 <= i <= indexes@.len(),
            uniq(keys@),
            key_set(keys@) == key_set(old(keys)@) + sym_keys(indexes@.take(i as int)),
        decreases indexes@.len() - i,
    {
        proof {
            lemma_sym_keys_take_step(indexes@, i as int);
        }
        match &indexes[i] {
            Node::Sym { name } => {
                insert_key(keys, name.clone());
                proof {
                    assert(key_set(keys@) =~= key_set(old(keys)@) + sym_keys(
                        indexes@.take(i + 1),
                    ));
                }
            },
            _ => {
                proof {
                    assert(key_set(keys@) =~= key_set(old(keys)@) + sym_keys(
                        indexes@.take(i + 1),
                    ));
                }
            },
        }
        i = i + 1;
    }
    proof {
        assert(indexes@.take(indexes@.len() as int) =~= indexes@);
    }
}

proof fn lemma_key_set_take_step(ss: Seq<String>, j: int)
    requires
        0 <= j < ss.len(),
    ensures
        key_set(ss.take(j + 1)) == key_set(ss.take(j)).insert(ss[j]@),
{
    assert forall|q: Seq<char>| key_set(ss.take(j + 1)).contains(q) <==> key_set(
        ss.take(j),
    ).insert(ss[j]@).contains(q) by {
        if key_set(ss.take(j + 1)).contains(q) {
            let t = ss.take(j + 1);
            let i = choose|i: int| 0 <= i < t.len() && t[i]@ == q;
            assert(ss.take(j + 1)[i]@ == q);
            if i < j {
                assert(ss.take(j)[i]@ == q);
            } else {
                assert(q == ss[j]@);
            }
        }
        if key_set(ss.take(j)).insert(ss[j]@).contains(q) {
            if q == ss[j]@ {
                assert(ss.take(j + 1)[j]@ == q);
            } else {
                let t = ss.take(j);
                let i = choose|i: int| 0 <= i < t.len() && t[i]@ == q;
                assert(ss.take(j + 1)[i]@ == q);
            }
        }
    }
    assert(key_set(ss.take(j + 1)) =~= key_set(ss.take(j)).insert(ss[j]@));
}

/// Add every key of the source to the collection, keeping entries unique.
pub(crate) fn merge_keys(dst: &mut Vec<String>, src: &Vec<String>)
    requires
        uniq(old(dst)@),
    ensures
        uniq(final(dst)@),
        key_set(final(dst)@) == key_set(old(dst)@) + key_set(src@),
{
    let mut j: usize = 0;
    proof {
        assert(key_set(src@.take(0)) =~= Set::<Seq<char>>::empty());
        assert(key_set(dst@) + key_set(src@.take(0)) =~= key_set(dst@));
    }
    while j < src.len()
        invariant
            0 <= j <= src@.len(),
            uniq(dst@),
            key_set(dst@) == key_set(old(dst)@) + key_set(src@.take(j as int)),
        decreases src@.len() - j,
    {
        insert_key(dst, src[j].clone());
        proof {
            lemma_key_set_take_step(src@, j as int);
            assert(key_set(dst@) =~= key_set(old(dst)@) + key_set(src@.take(j + 1)));
        }
        j = j + 1;
    }
    proof {
        assert(src@.take(src@.len() as int) =~= src@);
    }
}

/// Enqueue an optional child.
fn push_opt<'a>(work: &mut Vec<&'a Node>, o: &'a Option<Box<Node>>)
    ensures
        keys_of_ref_list(final(work)@) == keys_of_ref_list(old(work)@) + keys_of_opt(*o),
        size_of_ref_list(final(work)@) == size_of_ref_list(old(work)@) + size_of_opt(*o),
{
    match o {
        Option::Some(b) => {
            work.push(&**b);
            proof {
                lemma_ref_list_push(old(work)@, &**b);
            }
        },
        Option::None => {
            proof {
                assert(keys_of_ref_list(work@) + keys_of_opt(*o) =~= keys_of_ref_list(work@));
            }
        },
    }
}

/// Enqueue every element of a child list, front to back.
fn push_all<'a>(work: &mut Vec<&'a Node>, elems: &'a Vec<Node>)
    ensures
        keys_of_ref_list(final(work)@) == keys_of_ref_list(old(work)@) + keys_of_list(elems@),
        size_of_ref_list(final(work)@) == size_of_ref_list(old(work)@) + size_of_list(elems@),
{
    let mut i: usize = 0;
    while i < elems.len()
        invariant
            0 <= i <= elems@.len(),
            keys_of_ref_list(work@) == keys_of_ref_list(old(work)@) + keys_of_list(
                elems@.take(i as int),
            ),
            size_of_ref_list(work@) == size_of_ref_list(old(work)@) + size_of_list(
                elems@.take(i as int),
            ),
        decreases elems@.len() - i,
    {
        let ghost before = work@;
        let e: &Node = &elems[i];
        work.push(e);
        proof {
            lemma_ref_list_push(before, e);
            lemma_keys_of_list_take_step(elems@, i as int);
            crate::ast::lemma_size_of_list_take_step(elems@, i as int);
            assert(keys_of_ref_list(work@) =~= keys_of_ref_list(old(work)@) + keys_of_list(
                elems@.take(i + 1),
            ));
        }
        i = i + 1;
    }
    proof {
        assert(elems@.take(elems@.len() as int) =~= elems@);
    }
}

/// Enqueue one mandatory child.
fn push_one<'a>(work: &mut Vec<&'a Node>, c: &'a Box<Node>)
    ensures
        keys_of_ref_list(final(work)@) == keys_of_ref_list(old(work)@) + keys_of(**c),
        size_of_ref_list(final(work)@) == size_of_ref_list(old(work)@) + size_of(**c),
{
    work.push(&**c);
    proof {
        lemma_ref_list_push(old(work)@, &**c);
    }
}

/// One dispatch step of the worklist scan: harvest what the node itself
/// yields and enqueue the children that are scanned further.
#[verifier::rlimit(100)]
#[verifier::spinoff_prover]
fn scan_node<'a>(n: &'a Node, keys: &mut Vec<String>, work: &mut Vec<&'a Node>)
    requires
        uniq(old(keys)@),
    ensures
        uniq(final(keys)@),
        key_set(final(keys)@) + keys_of_ref_list(final(work)@) == key_set(old(keys)@)
            + keys_of_ref_list(old(work)@) + keys_of(*n),
        size_of_ref_list(final(work)@) < size_of_ref_list(old(work)@) + size_of(*n),
{
    match n {
        Node::Alias { from } => { push_one(work, from);
            proof { assert(size_of_ref_list(work@) < size_of_ref_list(old(work)@) + size_of(*n)); }
        },
        Node::And { lhs, rhs } => {
            push_one(work, lhs);
            push_one(work, rhs);
            proof { assert(size_of_ref_list(work@) < size_of_ref_list(old(work)@) + size_of(*n)); }
        },
        Node::AndAsgn { value } => { push_one(work, value);
            proof { assert(size_of_ref_list(work@) < size_of_ref_list(old(work)@) + size_of(*n)); }
        },
        Node::Array { elements } => { push_all(work, elements);
            proof { assert(size_of_ref_list(work@) < size_of_ref_list(old(work)@) + size_of(*n)); }
        },
        Node::ArrayPattern { elements } => { push_all(work, elements);
            proof { assert(size_of_ref_list(work@) < size_of_ref_list(old(work)@) + size_of(*n)); }
        },
        Node::ArrayPatternWithTail { elements } => { push_all(work, elements);
            proof { assert(size_of_ref_list(work@) < size_of_ref_list(old(work)@) + size_of(*n)); }
        },
        Node::Begin { statements } => { push_all(work, statements);
            proof { assert(size_of_ref_list(work@) < size_of_ref_list(old(work)@) + size_of(*n)); }
        },
        Node::Block { body } => { push_opt(work, body);
            proof { assert(size_of_ref_list(work@) < size_of_ref_list(old(work)@) + size_of(*n)); }
        },
        Node::BlockPass { value } => { push_opt(work, value);
            proof { assert(size_of_ref_list(work@) < size_of_ref_list(old(work)@) + size_of(*n)); }
        },
        Node::Casgn => {
            proof { assert(size_of_ref_list(work@) < size_of_ref_list(old(work)@) + size_of(*n)); }
        },
        Node::Class { name, superclass, body } => { push_opt(work, body);
            proof { assert(size_of_ref_list(work@) < size_of_ref_list(old(work)@) + size_of(*n)); }
        },
        Node::Const { scope, name } => { push_opt(work, scope);
            proof { assert(size_of_ref_list(work@) < size_of_ref_list(old(work)@) + size_of(*n)); }
        },
        Node::ConstPattern { pattern } => { push_one(work, pattern);
            proof { assert(size_of_ref_list(work@) < size_of_ref_list(old(work)@) + size_of(*n)); }
        },
        Node::CSend { args } => { push_all(work, args);
            proof { assert(size_of_ref_list(work@) < size_of_ref_list(old(work)@) + size_of(*n)); }
        },
        Node::Cvar { name } => {
            proof { assert(size_of_ref_list(work@) < size_of_ref_list(old(work)@) + size_of(*n)); }
        },
        Node::Def { name, body } => {
            proof { assert(size_of_ref_list(work@) < size_of_ref_list(old(work)@) + size_of(*n)); }
        },
        Node::Defined { value } => { push_one(work, value);
            proof { assert(size_of_ref_list(work@) < size_of_ref_list(old(work)@) + size_of(*n)); }
        },
        Node::Dstr { parts } => { push_all(work, parts);
            proof { assert(size_of_ref_list(work@) < size_of_ref_list(old(work)@) + size_of(*n)); }
        },
        Node::Dsym { parts } => { push_all(work, parts);
            proof { assert(size_of_ref_list(work@) < size_of_ref_list(old(work)@) + size_of(*n)); }
        },
        Node::EFlipFlop { left, right } => {
            push_opt(work, left);
            push_opt(work, right);
            proof { assert(size_of_ref_list(work@) < size_of_ref_list(old(work)@) + size_of(*n)); }
        },
        Node::Ensure { body, ensure_body } => {
            push_opt(work, body);
            push_opt(work, ensure_body);
            proof { assert(size_of_ref_list(work@) < size_of_ref_list(old(work)@) + size_of(*n)); }
        },
        Node::Erange { left, right } => {
            push_opt(work, left);
            push_opt(work, right);
            proof { assert(size_of_ref_list(work@) < size_of_ref_list(old(work)@) + size_of(*n)); }
        },
        Node::FindPattern { elements } => { push_all(work, elements);
            proof { assert(size_of_ref_list(work@) < size_of_ref_list(old(work)@) + size_of(*n)); }
        },
        Node::For { iterator, iteratee, body } => {
            push_one(work, iterator);
            push_one(work, iteratee);
            push_opt(work, body);
            proof { assert(size_of_ref_list(work@) < size_of_ref_list(old(work)@) + size_of(*n)); }
        },
        Node::Gvar { name } => {
            proof { assert(size_of_ref_list(work@) < size_of_ref_list(old(work)@) + size_of(*n)); }
        },
        Node::Hash { pairs } => { push_all(work, pairs);
            proof { assert(size_of_ref_list(work@) < size_of_ref_list(old(work)@) + size_of(*n)); }
        },
        Node::HashPattern { elements } => { push_all(work, elements);
            proof { assert(size_of_ref_list(work@) < size_of_ref_list(old(work)@) + size_of(*n)); }
        },
        Node::If { cond, if_true, if_false } => {
            push_one(work, cond);
            push_opt(work, if_true);
            push_opt(work, if_false);
            proof { assert(size_of_ref_list(work@) < size_of_ref_list(old(work)@) + size_of(*n)); }
        },
        Node::IfGuard { cond } => { push_one(work, cond);
            proof { assert(size_of_ref_list(work@) < size_of_ref_list(old(work)@) + size_of(*n)); }
        },
        Node::IFlipFlop { left, right } => {
            push_opt(work, left);
            push_opt(work, right);
            proof { assert(size_of_ref_list(work@) < size_of_ref_list(old(work)@) + size_of(*n)); }
        },
        Node::IfMod { cond, if_true, if_false } => {
            push_one(work, cond);
            push_opt(work, if_true);
            push_opt(work, if_false);
            proof { assert(size_of_ref_list(work@) < size_of_ref_list(old(work)@) + size_of(*n)); }
        },
        Node::IfTernary { cond, if_true, if_false } => {
            push_one(work, cond);
            push_one(work, if_true);
            push_one(work, if_false);
            proof { assert(size_of_ref_list(work@) < size_of_ref_list(old(work)@) + size_of(*n)); }
        },
        Node::Index { recv, indexes } => {
            match &**recv {
                Node::Const { scope, name } => {
                    if str_eq(name.as_str(), "params") {
                        harvest_syms(keys, indexes);
                    }
                },
                Node::Send { recv: inner_recv, method_name, args } => {
                    if str_eq(method_name.as_str(), "params") {
                        harvest_syms(keys, indexes);
                    } else {
                        push_all(work, args);
                        push_opt(work, inner_recv);
                        proof {
                            assert(size_of(**recv) == 1 + size_of_opt(*inner_recv) + size_of_list(
                                args@,
                            ));
                        }
                    }
                },
                _ => { push_one(work, recv) },
            }
            proof { assert(size_of_ref_list(work@) < size_of_ref_list(old(work)@) + size_of(*n)); }
        },
        Node::InPattern { pattern, guard, body } => {
            push_one(work, pattern);
            push_opt(work, guard);
            push_opt(work, body);
            proof { assert(size_of_ref_list(work@) < size_of_ref_list(old(work)@) + size_of(*n)); }
        },
        Node::Int { value } => {
            proof { assert(size_of_ref_list(work@) < size_of_ref_list(old(work)@) + size_of(*n)); }
        },
        Node::Irange { left, right } => {
            push_opt(work, left);
            push_opt(work, right);
            proof { assert(size_of_ref_list(work@) < size_of_ref_list(old(work)@) + size_of(*n)); }
        },
        Node::Ivar { name } => {
            proof { assert(size_of_ref_list(work@) < size_of_ref_list(old(work)@) + size_of(*n)); }
        },
        Node::Ivasgn { name, value } => { push_opt(work, value);
            proof { assert(size_of_ref_list(work@) < size_of_ref_list(old(work)@) + size_of(*n)); }
        },
        Node::Kwargs { pairs } => { push_all(work, pairs);
            proof { assert(size_of_ref_list(work@) < size_of_ref_list(old(work)@) + size_of(*n)); }
        },
        Node::KwBegin { statements } => { push_all(work, statements);
            proof { assert(size_of_ref_list(work@) < size_of_ref_list(old(work)@) + size_of(*n)); }
        },
        Node::Kwoptarg { default_value } => { push_one(work, default_value);
            proof { assert(size_of_ref_list(work@) < size_of_ref_list(old(work)@) + size_of(*n)); }
        },
        Node::Kwsplat { value } => { push_one(work, value);
            proof { assert(size_of_ref_list(work@) < size_of_ref_list(old(work)@) + size_of(*n)); }
        },
        Node::Lvar { name } => {
            proof { assert(size_of_ref_list(work@) < size_of_ref_list(old(work)@) + size_of(*n)); }
        },
        Node::Lvasgn { name, value } => { push_opt(work, value);
            proof { assert(size_of_ref_list(work@) < size_of_ref_list(old(work)@) + size_of(*n)); }
        },
        Node::Masgn { lhs, rhs } => {
            push_one(work, lhs);
            push_one(work, rhs);
            proof { assert(size_of_ref_list(work@) < size_of_ref_list(old(work)@) + size_of(*n)); }
        },
        Node::MatchAlt { lhs, rhs } => {
            push_one(work, lhs);
            push_one(work, rhs);
            proof { assert(size_of_ref_list(work@) < size_of_ref_list(old(work)@) + size_of(*n)); }
        },
        Node::MatchAs { value } => { push_one(work, value);
            proof { assert(size_of_ref_list(work@) < size_of_ref_list(old(work)@) + size_of(*n)); }
        },
        Node::MatchPattern { value, pattern } => {
            push_one(work, value);
            push_one(work, pattern);
            proof { assert(size_of_ref_list(work@) < size_of_ref_list(old(work)@) + size_of(*n)); }
        },
        Node::MatchPatternP { value, pattern } => {
            push_one(work, value);
            push_one(work, pattern);
            proof { assert(size_of_ref_list(work@) < size_of_ref_list(old(work)@) + size_of(*n)); }
        },
        Node::MatchRest { name } => { push_opt(work, name);
            proof { assert(size_of_ref_list(work@) < size_of_ref_list(old(work)@) + size_of(*n)); }
        },
        Node::MatchWithLvasgn { re, value } => {
            push_one(work, re);
            push_one(work, value);
            proof { assert(size_of_ref_list(work@) < size_of_ref_list(old(work)@) + size_of(*n)); }
        },
        Node::Mlhs { items } => { push_all(work, items);
            proof { assert(size_of_ref_list(work@) < size_of_ref_list(old(work)@) + size_of(*n)); }
        },
        Node::Module { name, body } => {
            proof { assert(size_of_ref_list(work@) < size_of_ref_list(old(work)@) + size_of(*n)); }
        },
        Node::Next { args } => { push_all(work, args);
            proof { assert(size_of_ref_list(work@) < size_of_ref_list(old(work)@) + size_of(*n)); }
        },
        Node::Numblock { body } => { push_one(work, body);
            proof { assert(size_of_ref_list(work@) < size_of_ref_list(old(work)@) + size_of(*n)); }
        },
        Node::OpAsgn { recv, value } => {
            push_one(work, recv);
            push_one(work, value);
            proof { assert(size_of_ref_list(work@) < size_of_ref_list(old(work)@) + size_of(*n)); }
        },
        Node::Optarg { default_value } => { push_one(work, default_value);
            proof { assert(size_of_ref_list(work@) < size_of_ref_list(old(work)@) + size_of(*n)); }
        },
        Node::Or { lhs, rhs } => {
            push_one(work, lhs);
            push_one(work, rhs);
            proof { assert(size_of_ref_list(work@) < size_of_ref_list(old(work)@) + size_of(*n)); }
        },
        Node::OrAsgn { recv, value } => {
            push_one(work, recv);
            push_one(work, value);
            proof { assert(size_of_ref_list(work@) < size_of_ref_list(old(work)@) + size_of(*n)); }
        },
        Node::Pair { key, value } => {
            push_one(work, key);
            push_one(work, value);
            proof { assert(size_of_ref_list(work@) < size_of_ref_list(old(work)@) + size_of(*n)); }
        },
        Node::Pin { var } => { push_one(work, var);
            proof { assert(size_of_ref_list(work@) < size_of_ref_list(old(work)@) + size_of(*n)); }
        },
        Node::Postexe { body } => { push_opt(work, body);
            proof { assert(size_of_ref_list(work@) < size_of_ref_list(old(work)@) + size_of(*n)); }
        },
        Node::Preexe { body } => { push_opt(work, body);
            proof { assert(size_of_ref_list(work@) < size_of_ref_list(old(work)@) + size_of(*n)); }
        },
        Node::Procarg0 { args } => { push_all(work, args);
            proof { assert(size_of_ref_list(work@) < size_of_ref_list(old(work)@) + size_of(*n)); }
        },
        Node::Regexp { parts, options } => {
            push_all(work, parts);
            push_opt(work, options);
            proof { assert(size_of_ref_list(work@) < size_of_ref_list(old(work)@) + size_of(*n)); }
        },
        Node::Rescue { body, rescue_bodies, else_clause } => {
            push_opt(work, body);
            push_all(work, rescue_bodies);
            push_opt(work, else_clause);
            proof { assert(size_of_ref_list(work@) < size_of_ref_list(old(work)@) + size_of(*n)); }
        },
        Node::RescueBody { body, exc_var, exc_list } => {
            push_opt(work, body);
            push_opt(work, exc_var);
            push_opt(work, exc_list);
            proof { assert(size_of_ref_list(work@) < size_of_ref_list(old(work)@) + size_of(*n)); }
        },
        Node::Return { args } => { push_all(work, args);
            proof { assert(size_of_ref_list(work@) < size_of_ref_list(old(work)@) + size_of(*n)); }
        },
        Node::Send { recv, method_name, args } => {
            match recv {
                Option::Some(r) => {
                    let mut inner_is_params: bool = false;
                    match &**r {
                        Node::Send { recv: inner_recv, method_name: inner_name, args: inner_args,
                        } => {
                            if str_eq(inner_name.as_str(), "params") {
                                inner_is_params = true;
                            }
                        },
                        _ => {},
                    }
                    if inner_is_params {
                        harvest_syms(keys, args);
                    } else {
                        push_all(work, args);
                        push_one(work, r);
                    }
                },
                Option::None => { push_all(work, args) },
            }
            proof {
                assert(size_of(*n) == 1 + size_of_opt(*recv) + size_of_list(args@));
                match recv {
                    Option::Some(r) => {
                        assert(size_of_opt(*recv) == size_of(**r));
                    },
                    Option::None => {
                        assert(size_of_opt(*recv) == 0);
                    },
                }
                assert(size_of_ref_list(work@) < size_of_ref_list(old(work)@) + size_of(*n));
            }
        },
        Node::Splat { value } => { push_opt(work, value);
            proof { assert(size_of_ref_list(work@) < size_of_ref_list(old(work)@) + size_of(*n)); }
        },
        Node::Str { value } => {
            proof { assert(size_of_ref_list(work@) < size_of_ref_list(old(work)@) + size_of(*n)); }
        },
        Node::Sym { name } => {
            proof { assert(size_of_ref_list(work@) < size_of_ref_list(old(work)@) + size_of(*n)); }
        },
        Node::Undef { names } => { push_all(work, names);
            proof { assert(size_of_ref_list(work@) < size_of_ref_list(old(work)@) + size_of(*n)); }
        },
        Node::UnlessGuard { cond } => { push_one(work, cond);
            proof { assert(size_of_ref_list(work@) < size_of_ref_list(old(work)@) + size_of(*n)); }
        },
        Node::Until { cond, body } => {
            push_one(work, cond);
            push_opt(work, body);
            proof { assert(size_of_ref_list(work@) < size_of_ref_list(old(work)@) + size_of(*n)); }
        },
        Node::UntilPost { cond, body } => {
            push_one(work, cond);
            push_one(work, body);
            proof { assert(size_of_ref_list(work@) < size_of_ref_list(old(work)@) + size_of(*n)); }
        },
        Node::When { patterns, body } => {
            push_all(work, patterns);
            push_opt(work, body);
            proof { assert(size_of_ref_list(work@) < size_of_ref_list(old(work)@) + size_of(*n)); }
        },
        Node::While { cond, body } => {
            push_one(work, cond);
            push_opt(work, body);
            proof { assert(size_of_ref_list(work@) < size_of_ref_list(old(work)@) + size_of(*n)); }
        },
        Node::WhilePost { cond, body } => {
            push_one(work, cond);
            push_one(work, body);
            proof { assert(size_of_ref_list(work@) < size_of_ref_list(old(work)@) + size_of(*n)); }
        },
        Node::Yield { args } => { push_all(work, args);
            proof { assert(size_of_ref_list(work@) < size_of_ref_list(old(work)@) + size_of(*n)); }
        },
        Node::Other => {},
    }
    
    proof {
        assert(key_set(keys@) + keys_of_ref_list(work@) =~= key_set(old(keys)@)
            + keys_of_ref_list(old(work)@) + keys_of(*n));
    }
}

/// Scan a statement subtree for reads of the `params` object and return the
/// keys found, each once, in discovery order.
pub fn search_for_param(statement: &Node) -> (r: Vec<String>)
    ensures
        uniq(r@),
        key_set(r@) == keys_of(*statement),
{
    let mut keys: Vec<String> = Vec::new();
    let mut work: Vec<&Node> = Vec::new();
    work.push(statement);
    proof {
        lemma_ref_list_push(Seq::<&Node>::empty(), statement);
        assert(key_set(keys@) =~= Set::<Seq<char>>::empty());
        assert(key_set(keys@) + keys_of_ref_list(work@) =~= keys_of(*statement));
    }
    while work.len() > 0
        invariant
            uniq(keys@),
            key_set(keys@) + keys_of_ref_list(work@) == keys_of(*statement),
        decreases size_of_ref_list(work@),
    {
        let ghost w_before = work@;
        let n = work.pop().unwrap();
        proof {
            assert(work@ =~= w_before.drop_last());
            lemma_ref_list_last(w_before);
        }
        let ghost k_mid = keys@;
        let ghost w_mid = work@;
        scan_node(n, &mut keys, &mut work);
        proof {
            assert(key_set(keys@) + keys_of_ref_list(work@) =~= keys_of(*statement));
        }
    }
    proof {
        assert(keys_of_ref_list(work@) =~= Set::<Seq<char>>::empty());
        assert(key_set(keys@) =~= keys_of(*statement));
    }
    keys
}

/// Two scans of the same subtree observe the same key set: the result is
/// pinned to `keys_of`, so extraction is deterministic as a set and the
/// order in which a caller sorts or compares the keys cannot change it.
pub proof fn lemma_search_deterministic(n: Node, r1: Seq<String>, r2: Seq<String>)
    requires
        key_set(r1) == keys_of(n),
        key_set(r2) == keys_of(n),
    ensures
        key_set(r1) == key_set(r2),
{
}

} // verus!
