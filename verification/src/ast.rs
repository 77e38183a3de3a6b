//! The syntax-tree facade the analysis works on.
//!
//! Each variant carries exactly the children and names that the extraction
//! passes read; a front end maps its own tree onto this shape, turning any
//! category it does not care to distinguish into `Node::Other`.

use vstd::prelude::*;

verus! {

pub enum Node {
    Alias { from: Box<Node> },
    And { lhs: Box<Node>, rhs: Box<Node> },
    AndAsgn { value: Box<Node> },
    Array { elements: Vec<Node> },
    ArrayPattern { elements: Vec<Node> },
    ArrayPatternWithTail { elements: Vec<Node> },
    Begin { statements: Vec<Node> },
    Block { body: Option<Box<Node>> },
    BlockPass { value: Option<Box<Node>> },
    Casgn,
    Class { name: Box<Node>, superclass: Option<Box<Node>>, body: Option<Box<Node>> },
    Const { scope: Option<Box<Node>>, name: String },
    ConstPattern { pattern: Box<Node> },
    CSend { args: Vec<Node> },
    Cvar { name: String },
    Def { name: String, body: Option<Box<Node>> },
    Defined { value: Box<Node> },
    Dstr { parts: Vec<Node> },
    Dsym { parts: Vec<Node> },
    EFlipFlop { left: Option<Box<Node>>, right: Option<Box<Node>> },
    Ensure { body: Option<Box<Node>>, ensure_body: Option<Box<Node>> },
    Erange { left: Option<Box<Node>>, right: Option<Box<Node>> },
    FindPattern { elements: Vec<Node> },
    For { iterator: Box<Node>, iteratee: Box<Node>, body: Option<Box<Node>> },
    Gvar { name: String },
    Hash { pairs: Vec<Node> },
    HashPattern { elements: Vec<Node> },
    If { cond: Box<Node>, if_true: Option<Box<Node>>, if_false: Option<Box<Node>> },
    IfGuard { cond: Box<Node> },
    IFlipFlop { left: Option<Box<Node>>, right: Option<Box<Node>> },
    IfMod { cond: Box<Node>, if_true: Option<Box<Node>>, if_false: Option<Box<Node>> },
    IfTernary { cond: Box<Node>, if_true: Box<Node>, if_false: Box<Node> },
    Index { recv: Box<Node>, indexes: Vec<Node> },
    InPattern { pattern: Box<Node>, guard: Option<Box<Node>>, body: Option<Box<Node>> },
    Int { value: String },
    Irange { left: Option<Box<Node>>, right: Option<Box<Node>> },
    Ivar { name: String },
    Ivasgn { name: String, value: Option<Box<Node>> },
    Kwargs { pairs: Vec<Node> },
    KwBegin { statements: Vec<Node> },
    Kwoptarg { default_value: Box<Node> },
    Kwsplat { value: Box<Node> },
    Lvar { name: String },
    Lvasgn { name: String, value: Option<Box<Node>> },
    Masgn { lhs: Box<Node>, rhs: Box<Node> },
    MatchAlt { lhs: Box<Node>, rhs: Box<Node> },
    MatchAs { value: Box<Node> },
    MatchPattern { value: Box<Node>, pattern: Box<Node> },
    MatchPatternP { value: Box<Node>, pattern: Box<Node> },
    MatchRest { name: Option<Box<Node>> },
    MatchWithLvasgn { re: Box<Node>, value: Box<Node> },
    Mlhs { items: Vec<Node> },
    Module { name: Box<Node>, body: Option<Box<Node>> },
    Next { args: Vec<Node> },
    Numblock { body: Box<Node> },
    OpAsgn { recv: Box<Node>, value: Box<Node> },
    Optarg { default_value: Box<Node> },
    Or { lhs: Box<Node>, rhs: Box<Node> },
    OrAsgn { recv: Box<Node>, value: Box<Node> },
    Pair { key: Box<Node>, value: Box<Node> },
    Pin { var: Box<Node> },
    Postexe { body: Option<Box<Node>> },
    Preexe { body: Option<Box<Node>> },
    Procarg0 { args: Vec<Node> },
    Regexp { parts: Vec<Node>, options: Option<Box<Node>> },
    Rescue { body: Option<Box<Node>>, rescue_bodies: Vec<Node>, else_clause: Option<Box<Node>> },
    RescueBody { body: Option<Box<Node>>, exc_var: Option<Box<Node>>, exc_list: Option<Box<Node>> },
    Return { args: Vec<Node> },
    Send { recv: Option<Box<Node>>, method_name: String, args: Vec<Node> },
    Splat { value: Option<Box<Node>> },
    Str { value: String },
    Sym { name: String },
    Undef { names: Vec<Node> },
    UnlessGuard { cond: Box<Node> },
    Until { cond: Box<Node>, body: Option<Box<Node>> },
    UntilPost { cond: Box<Node>, body: Box<Node> },
    When { patterns: Vec<Node>, body: Option<Box<Node>> },
    While { cond: Box<Node>, body: Option<Box<Node>> },
    WhilePost { cond: Box<Node>, body: Box<Node> },
    Yield { args: Vec<Node> },
    Other,
}

/// Number of nodes in the tree, counting every child in every field.
/// The worklist traversals use it as their termination measure.
pub open spec fn size_of(n: Node) -> nat
    decreases n,
{
    1 + match n {
        Node::Alias { from } => size_of(*from),
        Node::And { lhs, rhs } => size_of(*lhs) + size_of(*rhs),
        Node::AndAsgn { value } => size_of(*value),
        Node::Array { elements } => size_of_list(elements@),
        Node::ArrayPattern { elements } => size_of_list(elements@),
        Node::ArrayPatternWithTail { elements } => size_of_list(elements@),
        Node::Begin { statements } => size_of_list(statements@),
        Node::Block { body } => size_of_opt(body),
        Node::BlockPass { value } => size_of_opt(value),
        Node::Casgn => 0,
        Node::Class { name, superclass, body } => size_of(*name) + size_of_opt(superclass)
            + size_of_opt(body),
        Node::Const { scope, name } => size_of_opt(scope),
        Node::ConstPattern { pattern } => size_of(*pattern),
        Node::CSend { args } => size_of_list(args@),
        Node::Cvar { name } => 0,
        Node::Def { name, body } => size_of_opt(body),
        Node::Defined { value } => size_of(*value),
        Node::Dstr { parts } => size_of_list(parts@),
        Node::Dsym { parts } => size_of_list(parts@),
        Node::EFlipFlop { left, right } => size_of_opt(left) + size_of_opt(right),
        Node::Ensure { body, ensure_body } => size_of_opt(body) + size_of_opt(ensure_body),
        Node::Erange { left, right } => size_of_opt(left) + size_of_opt(right),
        Node::FindPattern { elements } => size_of_list(elements@),
        Node::For { iterator, iteratee, body } => size_of(*iterator) + size_of(*iteratee)
            + size_of_opt(body),
        Node::Gvar { name } => 0,
        Node::Hash { pairs } => size_of_list(pairs@),
        Node::HashPattern { elements } => size_of_list(elements@),
        Node::If { cond, if_true, if_false } => size_of(*cond) + size_of_opt(if_true)
            + size_of_opt(if_false),
        Node::IfGuard { cond } => size_of(*cond),
        Node::IFlipFlop { left, right } => size_of_opt(left) + size_of_opt(right),
        Node::IfMod { cond, if_true, if_false } => size_of(*cond) + size_of_opt(if_true)
            + size_of_opt(if_false),
        Node::IfTernary { cond, if_true, if_false } => size_of(*cond) + size_of(*if_true)
            + size_of(*if_false),
        Node::Index { recv, indexes } => size_of(*recv) + size_of_list(indexes@),
        Node::InPattern { pattern, guard, body } => size_of(*pattern) + size_of_opt(guard)
            + size_of_opt(body),
        Node::Int { value } => 0,
        Node::Irange { left, right } => size_of_opt(left) + size_of_opt(right),
        Node::Ivar { name } => 0,
        Node::Ivasgn { name, value } => size_of_opt(value),
        Node::Kwargs { pairs } => size_of_list(pairs@),
        Node::KwBegin { statements } => size_of_list(statements@),
        Node::Kwoptarg { default_value } => size_of(*default_value),
        Node::Kwsplat { value } => size_of(*value),
        Node::Lvar { name } => 0,
        Node::Lvasgn { name, value } => size_of_opt(value),
        Node::Masgn { lhs, rhs } => size_of(*lhs) + size_of(*rhs),
        Node::MatchAlt { lhs, rhs } => size_of(*lhs) + size_of(*rhs),
        Node::MatchAs { value } => size_of(*value),
        Node::MatchPattern { value, pattern } => size_of(*value) + size_of(*pattern),
        Node::MatchPatternP { value, pattern } => size_of(*value) + size_of(*pattern),
        Node::MatchRest { name } => size_of_opt(name),
        Node::MatchWithLvasgn { re, value } => size_of(*re) + size_of(*value),
        Node::Mlhs { items } => size_of_list(items@),
        Node::Module { name, body } => size_of(*name) + size_of_opt(body),
        Node::Next { args } => size_of_list(args@),
        Node::Numblock { body } => size_of(*body),
        Node::OpAsgn { recv, value } => size_of(*recv) + size_of(*value),
        Node::Optarg { default_value } => size_of(*default_value),
        Node::Or { lhs, rhs } => size_of(*lhs) + size_of(*rhs),
        Node::OrAsgn { recv, value } => size_of(*recv) + size_of(*value),
        Node::Pair { key, value } => size_of(*key) + size_of(*value),
        Node::Pin { var } => size_of(*var),
        Node::Postexe { body } => size_of_opt(body),
        Node::Preexe { body } => size_of_opt(body),
        Node::Procarg0 { args } => size_of_list(args@),
        Node::Regexp { parts, options } => size_of_list(parts@) + size_of_opt(options),
        Node::Rescue { body, rescue_bodies, else_clause } => size_of_opt(body) + size_of_list(
            rescue_bodies@,
        ) + size_of_opt(else_clause),
        Node::RescueBody { body, exc_var, exc_list } => size_of_opt(body) + size_of_opt(exc_var)
            + size_of_opt(exc_list),
        Node::Return { args } => size_of_list(args@),
        Node::Send { recv, method_name, args } => size_of_opt(recv) + size_of_list(args@),
        Node::Splat { value } => size_of_opt(value),
        Node::Str { value } => 0,
        Node::Sym { name } => 0,
        Node::Undef { names } => size_of_list(names@),
        Node::UnlessGuard { cond } => size_of(*cond),
        Node::Until { cond, body } => size_of(*cond) + size_of_opt(body),
        Node::UntilPost { cond, body } => size_of(*cond) + size_of(*body),
        Node::When { patterns, body } => size_of_list(patterns@) + size_of_opt(body),
        Node::While { cond, body } => size_of(*cond) + size_of_opt(body),
        Node::WhilePost { cond, body } => size_of(*cond) + size_of(*body),
        Node::Yield { args } => size_of_list(args@),
        Node::Other => 0,
    }
}

pub open spec fn size_of_list(s: Seq<Node>) -> nat
    decreases s,
{
    if s.len() == 0 {
        0
    } else {
        size_of(s[0]) + size_of_list(s.drop_first())
    }
}

pub open spec fn size_of_opt(o: Option<Box<Node>>) -> nat
    decreases o,
{
    match o {
        Option::Some(b) => size_of(*b),
        Option::None => 0,
    }
}

pub proof fn lemma_size_of_list_push(s: Seq<Node>, x: Node)
    ensures
        size_of_list(s.push(x)) == size_of_list(s) + size_of(x),
    decreases s.len(),
{
    if s.len() == 0 {
        assert(s.push(x)[0] == x);
        assert(s.push(x).drop_first() =~= Seq::<Node>::empty());
        assert(size_of_list(s) == 0);
        assert(size_of_list(s.push(x).drop_first()) == 0);
    } else {
        assert(size_of_list(s) == size_of(s[0]) + size_of_list(s.drop_first()));
        assert(s.push(x)[0] == s[0]);
        assert(s.push(x).drop_first() =~= s.drop_first().push(x));
        lemma_size_of_list_push(s.drop_first(), x);
        assert(size_of_list(s.push(x)) == size_of(s[0]) + size_of_list(s.drop_first().push(x)));
    }
}

pub proof fn lemma_size_of_list_take_step(s: Seq<Node>, i: int)
    requires
        0 <= i < s.len(),
    ensures
        size_of_list(s.take(i + 1)) == size_of_list(s.take(i)) + size_of(s[i]),
{
    assert(s.take(i + 1) =~= s.take(i).push(s[i]));
    lemma_size_of_list_push(s.take(i), s[i]);
}

pub proof fn lemma_size_of_list_concat(a: Seq<Node>, b: Seq<Node>)
    ensures
        size_of_list(a + b) == size_of_list(a) + size_of_list(b),
    decreases a.len(),
{
    if a.len() == 0 {
        assert(a + b =~= b);
    } else {
        assert((a + b)[0] == a[0]);
        assert((a + b).drop_first() =~= a.drop_first() + b);
        lemma_size_of_list_concat(a.drop_first(), b);
    }
}

pub proof fn lemma_size_of_list_elem(s: Seq<Node>, i: int)
    requires
        0 <= i < s.len(),
    ensures
        size_of(s[i]) <= size_of_list(s),
    decreases i,
{
    if i == 0 {
    } else {
        assert(s.drop_first()[i - 1] == s[i]);
        lemma_size_of_list_elem(s.drop_first(), i - 1);
    }
}

pub proof fn lemma_size_of_pos(n: Node)
    ensures
        size_of(n) >= 1,
{
}

} // verus!
