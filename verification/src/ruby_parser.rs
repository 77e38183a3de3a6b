//! Structural extraction: modules, controllers, methods and filter actions
//! of one source file's syntax tree.

use vstd::prelude::*;
use vstd::string::*;

use crate::ast::{size_of, size_of_list, size_of_opt, Node};
use crate::ast::{lemma_size_of_list_concat, lemma_size_of_list_elem, lemma_size_of_pos};
use crate::params::{key_set, keys_of, merge_keys, search_for_param, uniq};
use crate::text::{join_strings, joined, str_eq};

verus! {

#[derive(Debug, PartialEq, Eq)]
pub struct Method {
    pub name: String,
    pub params: Vec<String>,
    pub responses: Vec<String>,
    pub private: bool,
}

pub ghost struct MethodSpec {
    pub name: Seq<char>,
    pub params: Set<Seq<char>>,
    pub responses: Seq<Seq<char>>,
    pub private: bool,
}

impl View for Method {
    type V = MethodSpec;

    open spec fn view(&self) -> MethodSpec {
        MethodSpec {
            name: self.name@,
            params: key_set(self.params@),
            responses: self.responses.deep_view(),
            private: self.private,
        }
    }
}

impl Method {
    /// The collected parameter keys are listed once each.
    pub open spec fn wf(&self) -> bool {
        uniq(self.params@)
    }
}

#[derive(Debug, PartialEq, Eq)]
pub enum Action {
    BeforeAction(String),
    AroundAction(String),
    SkipAuthMethods(String),
    SkipBeforeAction(String),
}

pub ghost enum ActionSpec {
    BeforeAction(Seq<char>),
    AroundAction(Seq<char>),
    SkipAuthMethods(Seq<char>),
    SkipBeforeAction(Seq<char>),
}

impl View for Action {
    type V = ActionSpec;

    open spec fn view(&self) -> ActionSpec {
        match self {
            Action::BeforeAction(s) => ActionSpec::BeforeAction(s@),
            Action::AroundAction(s) => ActionSpec::AroundAction(s@),
            Action::SkipAuthMethods(s) => ActionSpec::SkipAuthMethods(s@),
            Action::SkipBeforeAction(s) => ActionSpec::SkipBeforeAction(s@),
        }
    }
}

#[derive(Debug, PartialEq, Eq)]
pub struct Controller {
    pub name: String,
    pub parent: String,
    pub methods: Vec<Method>,
    pub actions: Vec<Action>,
}

pub ghost struct ControllerSpec {
    pub name: Seq<char>,
    pub parent: Seq<char>,
    pub methods: Seq<MethodSpec>,
    pub actions: Seq<ActionSpec>,
}

pub open spec fn method_views(ms: Seq<Method>) -> Seq<MethodSpec> {
    ms.map_values(|m: Method| m@)
}

pub open spec fn action_views(s: Seq<Action>) -> Seq<ActionSpec> {
    s.map_values(|a: Action| a@)
}

impl View for Controller {
    type V = ControllerSpec;

    open spec fn view(&self) -> ControllerSpec {
        ControllerSpec {
            name: self.name@,
            parent: self.parent@,
            methods: method_views(self.methods@),
            actions: action_views(self.actions@),
        }
    }
}

impl Controller {
    pub open spec fn wf(&self) -> bool {
        forall|i: int| 0 <= i < self.methods@.len() ==> (#[trigger] self.methods@[i]).wf()
    }
}

#[derive(Debug, PartialEq, Eq)]
pub struct Module {
    pub name: String,
    pub classes: Vec<Controller>,
    pub required: Vec<String>,
    pub methods: Vec<Method>,
}

pub ghost struct ModuleSpec {
    pub name: Seq<char>,
    pub classes: Seq<ControllerSpec>,
    pub required: Seq<Seq<char>>,
    pub methods: Seq<MethodSpec>,
}

pub open spec fn controller_views(cs: Seq<Controller>) -> Seq<ControllerSpec> {
    cs.map_values(|c: Controller| c@)
}

impl View for Module {
    type V = ModuleSpec;

    open spec fn view(&self) -> ModuleSpec {
        ModuleSpec {
            name: self.name@,
            classes: controller_views(self.classes@),
            required: self.required.deep_view(),
            methods: method_views(self.methods@),
        }
    }
}

impl Module {
    pub open spec fn wf(&self) -> bool {
        &&& forall|i: int| 0 <= i < self.classes@.len() ==> (#[trigger] self.classes@[i]).wf()
        &&& forall|i: int| 0 <= i < self.methods@.len() ==> (#[trigger] self.methods@[i]).wf()
    }
}

#[derive(Debug, PartialEq, Eq)]
pub struct RubyFile {
    pub controllers: Vec<Controller>,
    pub modules: Vec<Module>,
    pub required: Vec<String>,
}

pub ghost struct FileSpec {
    pub controllers: Seq<ControllerSpec>,
    pub modules: Seq<ModuleSpec>,
    pub required: Seq<Seq<char>>,
}

pub open spec fn module_views(ms: Seq<Module>) -> Seq<ModuleSpec> {
    ms.map_values(|m: Module| m@)
}

impl View for RubyFile {
    type V = FileSpec;

    open spec fn view(&self) -> FileSpec {
        FileSpec {
            controllers: controller_views(self.controllers@),
            modules: module_views(self.modules@),
            required: self.required.deep_view(),
        }
    }
}

impl RubyFile {
    pub open spec fn wf(&self) -> bool {
        &&& forall|i: int| 0 <= i < self.controllers@.len() ==> (
        #[trigger] self.controllers@[i]).wf()
        &&& forall|i: int| 0 <= i < self.modules@.len() ==> (#[trigger] self.modules@[i]).wf()
    }
}

/// The dotted qualified name a constant node denotes, if it is one.
pub open spec fn node_name(n: Node) -> Option<Seq<char>>
    decreases n,
{
    match n {
        Node::Const { scope, name } => match scope {
            Option::Some(s) => match node_name(*s) {
                Option::Some(p) => Option::Some(p + "::"@ + name@),
                Option::None => Option::None,
            },
            Option::None => Option::Some(name@),
        },
        _ => Option::None,
    }
}

/// The flat rendering of one literal-like node.
pub open spec fn pretty_of(n: Node) -> Seq<char> {
    match n {
        Node::Sym { name } => name@,
        Node::Ivar { name } => name@,
        Node::Str { value } => value@,
        Node::Int { value } => value@,
        _ => "unknown"@,
    }
}

/// What one node contributes to an argument rendering.
pub open spec fn piece_of(n: Node) -> Seq<char> {
    match n {
        Node::Sym { name } => name@,
        Node::Ivar { name } => name@,
        Node::Str { value } => value@,
        Node::Int { value } => value@,
        Node::Pair { key, value } => ":"@,
        Node::Hash { pairs } => " "@,
        Node::Kwargs { pairs } => " "@,
        Node::Array { elements } => "[array] "@,
        _ => Seq::empty(),
    }
}

/// The children an argument rendering keeps walking into.
pub open spec fn render_children(n: Node) -> Seq<Node> {
    match n {
        Node::Pair { key, value } => seq![*key, *value],
        Node::Hash { pairs } => pairs@,
        Node::Kwargs { pairs } => pairs@,
        Node::Array { elements } => elements@,
        _ => Seq::empty(),
    }
}

proof fn lemma_render_children_size(n: Node)
    ensures
        size_of_list(render_children(n)) < size_of(n),
{
    match n {
        Node::Pair { key, value } => {
            let two = seq![*key, *value];
            assert(two[0] == *key);
            assert(two.drop_first() =~= seq![*value]);
            assert(seq![*value][0] == *value);
            assert(seq![*value].drop_first() =~= Seq::<Node>::empty());
            assert(size_of_list(Seq::<Node>::empty()) == 0);
            assert(size_of_list(seq![*value]) == size_of(*value));
            assert(size_of_list(two) == size_of(*key) + size_of(*value));
        },
        _ => {
            assert(size_of_list(Seq::<Node>::empty()) == 0);
            lemma_size_of_pos(n);
        },
    }
}

/// An argument rendering: a first-in-first-out walk whose output follows
/// queue-pop order, so the parts of nested composite arguments interleave.
pub open spec fn render_queue(q: Seq<Node>) -> Seq<char>
    decreases size_of_list(q),
    via render_queue_dec
{
    if q.len() == 0 {
        Seq::empty()
    } else {
        piece_of(q[0]) + render_queue(q.drop_first() + render_children(q[0]))
    }
}

#[via_fn]
proof fn render_queue_dec(q: Seq<Node>) {
    if q.len() > 0 {
        lemma_size_of_list_concat(q.drop_first(), render_children(q[0]));
        lemma_render_children_size(q[0]);
    }
}

/// The rendering of one argument node.
pub open spec fn rendered(n: Node) -> Seq<char> {
    render_queue(seq![n])
}

/// The renderings of an argument list, concatenated in order.
pub open spec fn rendered_args(args: Seq<Node>) -> Seq<char>
    decreases args.len(),
{
    if args.len() == 0 {
        Seq::empty()
    } else {
        rendered(args[0]) + rendered_args(args.drop_first())
    }
}

pub open spec fn args_pretty(args: Seq<Node>) -> Seq<Seq<char>> {
    args.map_values(|a: Node| pretty_of(a))
}

pub open spec fn recv_render(recv: Option<Box<Node>>) -> Seq<char> {
    match recv {
        Option::Some(r) => pretty_of(*r),
        Option::None => "none"@,
    }
}

/// The single-line rendering of a bare call statement: selector, receiver
/// rendering, then the argument renderings.
pub open spec fn send_line(method_name: Seq<char>, recv: Option<Box<Node>>, args: Seq<Node>) -> Seq<
    char,
> {
    let with_recv = if recv_render(recv).len() > 0 {
        method_name + " "@ + recv_render(recv)
    } else {
        method_name
    };
    if args.len() > 0 {
        with_recv + " "@ + joined(args_pretty(args), " "@)
    } else {
        with_recv
    }
}

/// The outbound call renderings of a method body's statement sequence.
pub open spec fn returns_of_stmts(ss: Seq<Node>) -> Seq<Seq<char>>
    decreases ss.len(),
{
    if ss.len() == 0 {
        Seq::empty()
    } else {
        (match ss[0] {
            Node::Send { recv, method_name, args } => seq![send_line(method_name@, recv, args@)],
            _ => Seq::<Seq<char>>::empty(),
        }) + returns_of_stmts(ss.drop_first())
    }
}

/// The parameter keys of a method body's statement sequence: every statement
/// that is not a bare call is scanned.
pub open spec fn params_of_stmts(ss: Seq<Node>) -> Set<Seq<char>>
    decreases ss.len(),
{
    if ss.len() == 0 {
        Set::empty()
    } else {
        (match ss[0] {
            Node::Send { recv, method_name, args } => Set::<Seq<char>>::empty(),
            _ => keys_of(ss[0]),
        }) + params_of_stmts(ss.drop_first())
    }
}

pub open spec fn method_returns(body: Option<Box<Node>>) -> Seq<Seq<char>> {
    match body {
        Option::Some(b) => match *b {
            Node::Begin { statements } => returns_of_stmts(statements@),
            _ => Seq::empty(),
        },
        Option::None => Seq::empty(),
    }
}

pub open spec fn method_params(body: Option<Box<Node>>) -> Set<Seq<char>> {
    match body {
        Option::Some(b) => match *b {
            Node::Begin { statements } => params_of_stmts(statements@),
            _ => Set::empty(),
        },
        Option::None => Set::empty(),
    }
}

/// The record a method declaration extracts to.
pub open spec fn spec_parse_def(name: Seq<char>, body: Option<Box<Node>>, privf: bool) -> MethodSpec {
    MethodSpec {
        name: name,
        params: method_params(body),
        responses: method_returns(body),
        private: privf,
    }
}

/// The methods of a controller body, with the private flag flipped by a
/// bare no-argument `private` call and kept for the following declarations.
pub open spec fn class_methods(ss: Seq<Node>, privf: bool) -> Seq<MethodSpec>
    decreases ss.len(),
{
    if ss.len() == 0 {
        Seq::empty()
    } else {
        match ss[0] {
            Node::Def { name, body } => seq![spec_parse_def(name@, body, privf)] + class_methods(
                ss.drop_first(),
                privf,
            ),
            Node::Send { recv, method_name, args } => class_methods(
                ss.drop_first(),
                privf || (method_name@ == "private"@ && args@.len() == 0),
            ),
            _ => class_methods(ss.drop_first(), privf),
        }
    }
}

/// The filter actions of a controller body, in order.
pub open spec fn class_actions(ss: Seq<Node>) -> Seq<ActionSpec>
    decreases ss.len(),
{
    if ss.len() == 0 {
        Seq::empty()
    } else {
        (match ss[0] {
            Node::Send { recv, method_name, args } => {
                if method_name@ == "skip_auth_methods"@ {
                    seq![ActionSpec::SkipAuthMethods(rendered_args(args@))]
                } else if method_name@ == "around_action"@ {
                    seq![ActionSpec::AroundAction(rendered_args(args@))]
                } else if method_name@ == "before_action"@ {
                    seq![ActionSpec::BeforeAction(rendered_args(args@))]
                } else if method_name@ == "skip_before_action"@ {
                    seq![ActionSpec::SkipBeforeAction(rendered_args(args@))]
                } else {
                    Seq::<ActionSpec>::empty()
                }
            },
            _ => Seq::<ActionSpec>::empty(),
        }) + class_actions(ss.drop_first())
    }
}

/// What a class declaration extracts to: a controller, or the file-level
/// failure when its name, superclass or body is missing or unresolvable.
pub open spec fn spec_parse_class(n: Node) -> Result<ControllerSpec, Seq<char>> {
    match n {
        Node::Class { name, superclass, body } => match node_name(*name) {
            Option::None => Err("could not resolve the class name"@),
            Option::Some(nm) => match superclass {
                Option::None => Err("could not resolve the superclass"@),
                Option::Some(sc) => match node_name(*sc) {
                    Option::None => Err("could not resolve the superclass"@),
                    Option::Some(par) => match body {
                        Option::None => Err("no class body found"@),
                        Option::Some(b) => match *b {
                            Node::Begin { statements } => Ok(
                                ControllerSpec {
                                    name: nm,
                                    parent: par,
                                    methods: class_methods(statements@, false),
                                    actions: class_actions(statements@),
                                },
                            ),
                            Node::Def { name: mn, body: mb } => Ok(
                                ControllerSpec {
                                    name: nm,
                                    parent: par,
                                    methods: seq![spec_parse_def(mn@, mb, false)],
                                    actions: Seq::empty(),
                                },
                            ),
                            _ => Err("no class body found"@),
                        },
                    },
                },
            },
        },
        _ => Err("no class body found"@),
    }
}

/// The dependency names among a declaration's arguments: each string or
/// symbol literal, in order; any other argument contributes nothing.
pub open spec fn required_of(args: Seq<Node>) -> Seq<Seq<char>>
    decreases args.len(),
{
    if args.len() == 0 {
        Seq::empty()
    } else {
        (match args[0] {
            Node::Str { value } => seq![value@],
            Node::Sym { name } => seq![name@],
            _ => Seq::<Seq<char>>::empty(),
        }) + required_of(args.drop_first())
    }
}

pub ghost struct ModuleAcc {
    pub modules: Seq<ModuleSpec>,
    pub classes: Seq<ControllerSpec>,
    pub required: Seq<Seq<char>>,
    pub methods: Seq<MethodSpec>,
    pub privf: bool,
}

pub open spec fn empty_module_acc() -> ModuleAcc {
    ModuleAcc {
        modules: Seq::empty(),
        classes: Seq::empty(),
        required: Seq::empty(),
        methods: Seq::empty(),
        privf: false,
    }
}

/// One pass over a module body's statements, threading the accumulated
/// entries and the private flag; a statement of any other kind is
/// non-fatal and contributes nothing.
pub open spec fn module_steps(ss: Seq<Node>, acc: ModuleAcc, mod_name: Seq<char>) -> Result<
    ModuleAcc,
    Seq<char>,
>
    decreases size_of_list(ss), 1int,
    via module_steps_dec
{
    if ss.len() == 0 {
        Ok(acc)
    } else {
        match ss[0] {
            Node::Module { name, body } => match spec_parse_module(ss[0], mod_name) {
                Ok(subs) => module_steps(
                    ss.drop_first(),
                    ModuleAcc {
                        modules: acc.modules + subs,
                        classes: acc.classes,
                        required: acc.required,
                        methods: acc.methods,
                        privf: acc.privf,
                    },
                    mod_name,
                ),
                Err(e) => Err(e),
            },
            Node::Class { name, superclass, body } => match spec_parse_class(ss[0]) {
                Ok(c) => module_steps(
                    ss.drop_first(),
                    ModuleAcc {
                        modules: acc.modules,
                        classes: acc.classes.push(c),
                        required: acc.required,
                        methods: acc.methods,
                        privf: acc.privf,
                    },
                    mod_name,
                ),
                Err(e) => Err(e),
            },
            Node::Send { recv, method_name, args } => module_steps(
                ss.drop_first(),
                ModuleAcc {
                    modules: acc.modules,
                    classes: acc.classes,
                    required: if method_name@ == "require"@ {
                        acc.required + required_of(args@)
                    } else {
                        acc.required
                    },
                    methods: acc.methods,
                    privf: acc.privf || (method_name@ == "private"@ && args@.len() == 0),
                },
                mod_name,
            ),
            Node::Casgn => module_steps(ss.drop_first(), acc, mod_name),
            Node::Block { body } => module_steps(ss.drop_first(), acc, mod_name),
            Node::Def { name, body } => module_steps(
                ss.drop_first(),
                ModuleAcc {
                    modules: acc.modules,
                    classes: acc.classes,
                    required: acc.required,
                    methods: acc.methods.push(spec_parse_def(name@, body, acc.privf)),
                    privf: acc.privf,
                },
                mod_name,
            ),
            _ => module_steps(ss.drop_first(), acc, mod_name),
        }
    }
}

#[via_fn]
proof fn module_steps_dec(ss: Seq<Node>, acc: ModuleAcc, mod_name: Seq<char>) {
    if ss.len() > 0 {
        lemma_size_of_pos(ss[0]);
        assert(size_of_list(ss) == size_of(ss[0]) + size_of_list(ss.drop_first()));
    }
}

/// What a module declaration extracts to: the flat list of the nested
/// modules followed by the module's own entry, or a file-level failure.
pub open spec fn spec_parse_module(n: Node, parent: Seq<char>) -> Result<Seq<ModuleSpec>, Seq<char>>
    decreases size_of(n), 0int,
    via spec_parse_module_dec
{
    match n {
        Node::Module { name, body } => match node_name(*name) {
            Option::None => Err("could not resolve the module name"@),
            Option::Some(base) => {
                let mod_name = if parent.len() == 0 {
                    base
                } else {
                    parent + "."@ + base
                };
                match body {
                    Option::None => Err("no module body found"@),
                    Option::Some(b) => match *b {
                        Node::Class { name: cn, superclass: cs, body: cb } => match spec_parse_class(
                            *b,
                        ) {
                            Ok(c) => Ok(
                                seq![
                                    ModuleSpec {
                                        name: mod_name,
                                        classes: seq![c],
                                        required: Seq::empty(),
                                        methods: Seq::empty(),
                                    },
                                ],
                            ),
                            Err(e) => Err(e),
                        },
                        Node::Begin { statements } => match module_steps(
                            statements@,
                            empty_module_acc(),
                            mod_name,
                        ) {
                            Ok(acc) => Ok(
                                acc.modules.push(
                                    ModuleSpec {
                                        name: mod_name,
                                        classes: acc.classes,
                                        required: acc.required,
                                        methods: acc.methods,
                                    },
                                ),
                            ),
                            Err(e) => Err(e),
                        },
                        _ => Ok(
                            seq![
                                ModuleSpec {
                                    name: mod_name,
                                    classes: Seq::empty(),
                                    required: Seq::empty(),
                                    methods: Seq::empty(),
                                },
                            ],
                        ),
                    },
                }
            },
        },
        _ => Err("no module body found"@),
    }
}

#[via_fn]
proof fn spec_parse_module_dec(n: Node, parent: Seq<char>) {
    match n {
        Node::Module { name, body } => {
            match body {
                Option::Some(b) => {
                    assert(size_of(n) == 1 + size_of(*name) + size_of_opt(body));
                    assert(size_of_opt(body) == size_of(*b));
                    match *b {
                        Node::Begin { statements } => {
                            assert(size_of(*b) == 1 + size_of_list(statements@));
                        },
                        _ => {},
                    }
                },
                Option::None => {},
            }
        },
        _ => {},
    }
}

pub ghost struct FileAcc {
    pub controllers: Seq<ControllerSpec>,
    pub modules: Seq<ModuleSpec>,
    pub required: Seq<Seq<char>>,
}

pub open spec fn empty_file_acc() -> FileAcc {
    FileAcc { controllers: Seq::empty(), modules: Seq::empty(), required: Seq::empty() }
}

/// One pass over the statements of a top-level sequence.
pub open spec fn file_steps(ss: Seq<Node>, acc: FileAcc) -> Result<FileAcc, Seq<char>>
    decreases size_of_list(ss), 1int,
    via file_steps_dec
{
    if ss.len() == 0 {
        Ok(acc)
    } else {
        match ss[0] {
            Node::Module { name, body } => match spec_parse_module(ss[0], Seq::empty()) {
                Ok(subs) => file_steps(
                    ss.drop_first(),
                    FileAcc {
                        controllers: acc.controllers,
                        modules: acc.modules + subs,
                        required: acc.required,
                    },
                ),
                Err(e) => Err(e),
            },
            Node::Class { name, superclass, body } => match spec_parse_class(ss[0]) {
                Ok(c) => file_steps(
                    ss.drop_first(),
                    FileAcc {
                        controllers: acc.controllers.push(c),
                        modules: acc.modules,
                        required: acc.required,
                    },
                ),
                Err(e) => Err(e),
            },
            Node::Send { recv, method_name, args } => file_steps(
                ss.drop_first(),
                FileAcc {
                    controllers: acc.controllers,
                    modules: acc.modules,
                    required: if method_name@ == "require"@ {
                        acc.required + required_of(args@)
                    } else {
                        acc.required
                    },
                },
            ),
            _ => Err("error no module found"@),
        }
    }
}

#[via_fn]
proof fn file_steps_dec(ss: Seq<Node>, acc: FileAcc) {
    if ss.len() > 0 {
        lemma_size_of_pos(ss[0]);
        assert(size_of_list(ss) == size_of(ss[0]) + size_of_list(ss.drop_first()));
    }
}

/// The shape a file's root node extracts to, before the emptiness check.
pub open spec fn file_gather(n: Node) -> Result<FileAcc, Seq<char>> {
    match n {
        Node::Module { name, body } => match spec_parse_module(n, Seq::empty()) {
            Ok(mods) => Ok(
                FileAcc { controllers: Seq::empty(), modules: mods, required: Seq::empty() },
            ),
            Err(e) => Err(e),
        },
        Node::Class { name, superclass, body } => match spec_parse_class(n) {
            Ok(c) => Ok(
                FileAcc { controllers: seq![c], modules: Seq::empty(), required: Seq::empty() },
            ),
            Err(e) => Err(e),
        },
        Node::Begin { statements } => file_steps(statements@, empty_file_acc()),
        _ => Err("error no module found"@),
    }
}

/// What a whole file extracts to: its top-level controllers, its modules,
/// and its dependency declarations; a file with neither classes nor modules
/// is rejected.
pub open spec fn spec_parse_file(n: Node) -> Result<FileSpec, Seq<char>> {
    match file_gather(n) {
        Err(e) => Err(e),
        Ok(acc) => if acc.controllers.len() == 0 && acc.modules.len() == 0 {
            Err("no classes and modules found - as empty"@)
        } else {
            Ok(
                FileSpec {
                    controllers: acc.controllers,
                    modules: acc.modules,
                    required: acc.required,
                },
            )
        },
    }
}

/// Resolve a constant node to its dotted qualified name.
pub fn get_node_name(name: &Node) -> (r: Option<String>)
    ensures
        (match r {
            Option::Some(s) => node_name(*name) == Option::Some(s@),
            Option::None => node_name(*name) is None,
        }),
    decreases *name,
{
    match name {
        Node::Const { scope, name: base } => match scope {
            Option::Some(s) => match get_node_name(&**s) {
                Option::Some(p) => Option::Some(p.concat("::").concat(base.as_str())),
                Option::None => Option::None,
            },
            Option::None => Option::Some(base.clone()),
        },
        _ => Option::None,
    }
}

/// Render one literal-like node.
pub fn pretty_print(e: &Node) -> (r: String)
    ensures
        r@ == pretty_of(*e),
{
    match e {
        Node::Sym { name } => name.clone(),
        Node::Ivar { name } => name.clone(),
        Node::Str { value } => value.clone(),
        Node::Int { value } => value.clone(),
        _ => String::from_str("unknown"),
    }
}

pub open spec fn deref_seq(s: Seq<&Node>) -> Seq<Node> {
    s.map_values(|p: &Node| *p)
}

proof fn lemma_deref_push(s: Seq<&Node>, p: &Node)
    ensures
        deref_seq(s.push(p)) == deref_seq(s).push(*p),
{
    assert(deref_seq(s.push(p)).len() == s.len() + 1);
    assert forall|m: int| 0 <= m < s.len() + 1 implies deref_seq(s.push(p))[m] == deref_seq(
        s,
    ).push(*p)[m] by {
        assert(deref_seq(s.push(p))[m] == *(s.push(p)[m]));
        if m < s.len() {
            assert(s.push(p)[m] == s[m]);
            assert(deref_seq(s)[m] == *(s[m]));
        } else {
            assert(s.push(p)[m] == p);
        }
    }
    assert(deref_seq(s.push(p)) =~= deref_seq(s).push(*p));
}

proof fn lemma_deref_skip(s: Seq<&Node>, k: int)
    requires
        0 <= k <= s.len(),
    ensures
        deref_seq(s.skip(k)) == deref_seq(s).skip(k),
{
    assert forall|m: int| 0 <= m < s.len() - k implies deref_seq(s.skip(k))[m] == deref_seq(
        s,
    ).skip(k)[m] by {
        assert(deref_seq(s.skip(k))[m] == *(s.skip(k)[m]));
        assert(s.skip(k)[m] == s[m + k]);
        assert(deref_seq(s)[m + k] == *(s[m + k]));
    }
    assert(deref_seq(s.skip(k)) =~= deref_seq(s).skip(k));
}

/// Enqueue every element of a list at the back of the rendering queue.
fn queue_all<'a>(q: &mut Vec<&'a Node>, elems: &'a Vec<Node>)
    ensures
        deref_seq(final(q)@) == deref_seq(old(q)@) + elems@,
{
    let mut i: usize = 0;
    proof {
        assert(deref_seq(q@) =~= deref_seq(old(q)@) + elems@.take(0));
    }
    while i < elems.len()
        invariant
            0 <= i <= elems@.len(),
            deref_seq(q@) == deref_seq(old(q)@) + elems@.take(i as int),
        decreases elems@.len() - i,
    {
        let e: &Node = &elems[i];
        let ghost prev = q@;
        q.push(e);
        proof {
            lemma_deref_push(prev, e);
            assert(elems@.take(i + 1) =~= elems@.take(i as int).push(elems@[i as int]));
            assert(deref_seq(q@) =~= deref_seq(old(q)@) + elems@.take(i + 1));
        }
        i = i + 1;
    }
    proof {
        assert(elems@.take(elems@.len() as int) =~= elems@);
    }
}

/// Render a call's argument node: a first-in-first-out flatten whose
/// output follows queue-pop order.
pub fn config_parse(node: &Node) -> (r: String)
    ensures
        r@ == rendered(*node),
{
    let mut out = String::new();
    let mut q: Vec<&Node> = Vec::new();
    q.push(node);
    let mut qi: usize = 0;
    proof {
        assert(deref_seq(q@.skip(0)) =~= seq![*node]);
    }
    while qi < q.len()
        invariant
            0 <= qi <= q@.len(),
            out@ + render_queue(deref_seq(q@.skip(qi as int))) == rendered(*node),
        decreases size_of_list(deref_seq(q@.skip(qi as int))),
    {
        let ghost rest0 = deref_seq(q@.skip(qi as int));
        proof {
            assert(rest0.len() == q@.len() - qi);
            assert(rest0[0] == *q@[qi as int]);
        }
        let n: &Node = q[qi];
        let ghost q0 = q@;
        match n {
            Node::Sym { name } => { out.append(name.as_str()) },
            Node::Ivar { name } => { out.append(name.as_str()) },
            Node::Str { value } => { out.append(value.as_str()) },
            Node::Int { value } => { out.append(value.as_str()) },
            Node::Pair { key, value } => {
                out.append(":");
                let ghost qa = q@;
                q.push(&**key);
                let ghost qb = q@;
                q.push(&**value);
                proof {
                    lemma_deref_push(qa, &**key);
                    lemma_deref_push(qb, &**value);
                    assert(deref_seq(q@) =~= deref_seq(q0) + render_children(*n));
                }
            },
            Node::Hash { pairs } => {
                out.append(" ");
                queue_all(&mut q, pairs);
                proof {
                    assert(deref_seq(q@) =~= deref_seq(q0) + render_children(*n));
                }
            },
            Node::Kwargs { pairs } => {
                out.append(" ");
                queue_all(&mut q, pairs);
                proof {
                    assert(deref_seq(q@) =~= deref_seq(q0) + render_children(*n));
                }
            },
            Node::Array { elements } => {
                out.append("[array] ");
                queue_all(&mut q, elements);
                proof {
                    assert(deref_seq(q@) =~= deref_seq(q0) + render_children(*n));
                }
            },
            _ => {},
        }
        proof {
            if !(*n is Pair || *n is Hash || *n is Kwargs || *n is Array) {
                assert(render_children(*n) =~= Seq::<Node>::empty());
                assert(deref_seq(q@) =~= deref_seq(q0) + render_children(*n));
            }
            lemma_deref_skip(q0, qi as int);
            assert(q@.len() >= q0.len());
            lemma_deref_skip(q@, qi as int + 1);
            assert(deref_seq(q@).skip(qi as int + 1) =~= deref_seq(q0).skip(qi as int).drop_first()
                + render_children(*n));
            assert(deref_seq(q@.skip(qi + 1)) =~= rest0.drop_first() + render_children(*n));
            assert(render_queue(rest0) == piece_of(*n) + render_queue(
                rest0.drop_first() + render_children(*n),
            ));
            lemma_size_of_list_concat(rest0.drop_first(), render_children(*n));
            lemma_render_children_size(*n);
            assert(size_of_list(rest0) == size_of(rest0[0]) + size_of_list(rest0.drop_first()));
        }
        qi = qi + 1;
    }
    proof {
        assert(deref_seq(q@.skip(q@.len() as int)) =~= Seq::<Node>::empty());
        assert(render_queue(Seq::<Node>::empty()) == Seq::<char>::empty());
        assert(out@ + Seq::<char>::empty() =~= out@);
    }
    out
}

/// Render every argument of a call, concatenated in order.
pub fn config_parse_list(args: &Vec<Node>) -> (r: String)
    ensures
        r@ == rendered_args(args@),
{
    let mut out = String::new();
    let mut i: usize = 0;
    proof {
        assert(args@.skip(0) =~= args@);
    }
    while i < args.len()
        invariant
            0 <= i <= args@.len(),
            out@ + rendered_args(args@.skip(i as int)) == rendered_args(args@),
        decreases args@.len() - i,
    {
        let piece = config_parse(&args[i]);
        out.append(piece.as_str());
        proof {
            let rest = args@.skip(i as int);
            assert(rest[0] == args@[i as int]);
            assert(rest.drop_first() =~= args@.skip(i + 1));
        }
        i = i + 1;
    }
    proof {
        assert(args@.skip(args@.len() as int) =~= Seq::<Node>::empty());
        assert(rendered_args(Seq::<Node>::empty()) == Seq::<char>::empty());
        assert(out@ + Seq::<char>::empty() =~= out@);
    }
    out
}

/// Render one bare call statement as a single line: selector, receiver,
/// then the argument renderings.
pub fn render_send_line(method_name: &String, recv: &Option<Box<Node>>, args: &Vec<Node>) -> (r:
    String)
    ensures
        r@ == send_line(method_name@, *recv, args@),
{
    let mut line = method_name.clone();
    let recv_str = match recv {
        Option::Some(r) => pretty_print(&**r),
        Option::None => String::from_str("none"),
    };
    if recv_str.unicode_len() > 0 {
        line.append(" ");
        line.append(recv_str.as_str());
    }
    if args.len() > 0 {
        let mut parts: Vec<String> = Vec::new();
        let mut t: usize = 0;
        while t < args.len()
            invariant
                0 <= t <= args@.len(),
                parts@.len() == t,
                forall|m: int| 0 <= m < t ==> (#[trigger] parts@[m])@ == pretty_of(args@[m]),
            decreases args@.len() - t,
        {
            let piece = pretty_print(&args[t]);
            parts.push(piece);
            t = t + 1;
        }
        proof {
            assert(parts.deep_view().len() == args@.len());
            assert forall|m: int| 0 <= m < args@.len() implies parts.deep_view()[m] == args_pretty(
                args@,
            )[m] by {
                assert(parts.deep_view()[m] == parts@[m]@);
                assert(args_pretty(args@)[m] == pretty_of(args@[m]));
            }
            assert(parts.deep_view() =~= args_pretty(args@));
        }
        let joined_parts = join_strings(&parts, " ");
        line.append(" ");
        line.append(joined_parts.as_str());
    }
    line
}

/// Extract one method declaration: bare calls in a sequence body become its
/// outbound renderings, every other statement is scanned for parameter keys.
pub fn parse_def(name: &String, body: &Option<Box<Node>>, privf: bool) -> (m: Method)
    ensures
        m@ == spec_parse_def(name@, *body, privf),
        m.wf(),
{
    let mut params: Vec<String> = Vec::new();
    let mut responses: Vec<String> = Vec::new();
    match body {
        Option::Some(b) => {
            match &**b {
                Node::Begin { statements } => {
                    let mut k: usize = 0;
                    proof {
                        assert(statements@.skip(0) =~= statements@);
                        assert(key_set(params@) =~= Set::<Seq<char>>::empty());
                        assert(key_set(params@) + params_of_stmts(statements@) =~= params_of_stmts(
                            statements@,
                        ));
                        assert(responses.deep_view() + returns_of_stmts(statements@)
                            =~= returns_of_stmts(statements@));
                    }
                    while k < statements.len()
                        invariant
                            0 <= k <= statements@.len(),
                            uniq(params@),
                            key_set(params@) + params_of_stmts(statements@.skip(k as int))
                                == params_of_stmts(statements@),
                            responses.deep_view() + returns_of_stmts(statements@.skip(k as int))
                                == returns_of_stmts(statements@),
                        decreases statements@.len() - k,
                    {
                        let ghost rest = statements@.skip(k as int);
                        let ghost dv0 = responses.deep_view();
                        proof {
                            assert(rest[0] == statements@[k as int]);
                            assert(rest.drop_first() =~= statements@.skip(k + 1));
                        }
                        match &statements[k] {
                            Node::Send { recv, method_name, args } => {
                                let line = render_send_line(method_name, recv, args);
                                responses.push(line);
                                proof {
                                    assert(responses.deep_view() =~= dv0.push(line@));
                                    assert(dv0.push(line@) + returns_of_stmts(
                                        statements@.skip(k + 1),
                                    ) =~= dv0 + returns_of_stmts(rest));
                                    assert(key_set(params@) + params_of_stmts(
                                        statements@.skip(k + 1),
                                    ) =~= params_of_stmts(statements@));
                                }
                            },
                            other => {
                                let found = search_for_param(other);
                                merge_keys(&mut params, &found);
                                proof {
                                    assert(key_set(params@) + params_of_stmts(
                                        statements@.skip(k + 1),
                                    ) =~= params_of_stmts(statements@));
                                    assert(responses.deep_view() + returns_of_stmts(
                                        statements@.skip(k + 1),
                                    ) =~= returns_of_stmts(statements@));
                                }
                            },
                        }
                        k = k + 1;
                    }
                    proof {
                        assert(statements@.skip(statements@.len() as int) =~= Seq::<Node>::empty());
                        assert(params_of_stmts(Seq::<Node>::empty()) =~= Set::<Seq<char>>::empty());
                        assert(returns_of_stmts(Seq::<Node>::empty()) =~= Seq::<
                            Seq<char>,
                        >::empty());
                        assert(key_set(params@) =~= params_of_stmts(statements@));
                        assert(responses.deep_view() =~= returns_of_stmts(statements@));
                    }
                },
                Node::OrAsgn { recv, value } => {
                    match &**recv {
                        Node::Ivasgn { name: iv_name, value: iv_value } => {
                            // The keys found under an instance-variable or-assignment
                            // are deliberately discarded: such a method records no
                            // parameters, a coarseness the extraction accepts.
                            let _discarded = search_for_param(&**value);
                        },
                        _ => {},
                    }
                },
                _ => {},
            }
        },
        Option::None => {},
    }
    proof {
        match body {
            Option::Some(b) => {
                match &**b {
                    Node::Begin { statements } => {},
                    _ => {
                        assert(key_set(params@) =~= Set::<Seq<char>>::empty());
                        assert(responses.deep_view() =~= Seq::<Seq<char>>::empty());
                    },
                }
            },
            Option::None => {
                assert(key_set(params@) =~= Set::<Seq<char>>::empty());
                assert(responses.deep_view() =~= Seq::<Seq<char>>::empty());
            },
        }
    }
    Method { name: name.clone(), params, responses, private: privf }
}

proof fn lemma_module_body_size(n: Node)
    ensures
        (match n {
            Node::Module { name, body } => match body {
                Option::Some(b) => size_of(*b) < size_of(n),
                Option::None => true,
            },
            _ => true,
        }),
{
    match n {
        Node::Module { name, body } => {
            match body {
                Option::Some(b) => {
                    assert(size_of_opt(body) == size_of(*b));
                    assert(size_of(n) == 1 + size_of(*name) + size_of_opt(body));
                },
                Option::None => {},
            }
        },
        _ => {},
    }
}

proof fn lemma_begin_stmts_size(n: Node)
    ensures
        (match n {
            Node::Begin { statements } => size_of_list(statements@) < size_of(n),
            _ => true,
        }),
{
    match n {
        Node::Begin { statements } => {
            assert(size_of(n) == 1 + size_of_list(statements@));
        },
        _ => {},
    }
}

/// Extract a class declaration into a controller record.
pub fn parse_class(class: &Node) -> (r: Result<Controller, String>)
    requires
        *class is Class,
    ensures
        (match r {
            Ok(c) => spec_parse_class(*class) == Ok::<ControllerSpec, Seq<char>>(c@) && c.wf(),
            Err(e) => spec_parse_class(*class) == Err::<ControllerSpec, Seq<char>>(e@),
        }),
{
    match class {
        Node::Class { name, superclass, body } => {
            let cname = match get_node_name(&**name) {
                Option::Some(s) => s,
                Option::None => {
                    return Err(String::from_str("could not resolve the class name"));
                },
            };
            let sc = match superclass {
                Option::Some(sc) => sc,
                Option::None => {
                    return Err(String::from_str("could not resolve the superclass"));
                },
            };
            let parent = match get_node_name(&**sc) {
                Option::Some(s) => s,
                Option::None => {
                    return Err(String::from_str("could not resolve the superclass"));
                },
            };
            match body {
                Option::None => Err(String::from_str("no class body found")),
                Option::Some(b) => match &**b {
                    Node::Begin { statements } => {
                        let mut methods: Vec<Method> = Vec::new();
                        let mut actions: Vec<Action> = Vec::new();
                        let mut privf = false;
                        let mut k: usize = 0;
                        proof {
                            assert(statements@.skip(0) =~= statements@);
                            assert(method_views(methods@) + class_methods(statements@, false)
                                =~= class_methods(statements@, false));
                            assert(action_views(actions@) + class_actions(statements@)
                                =~= class_actions(statements@));
                        }
                        while k < statements.len()
                            invariant
                                0 <= k <= statements@.len(),
                                method_views(methods@) + class_methods(
                                    statements@.skip(k as int),
                                    privf,
                                ) == class_methods(statements@, false),
                                action_views(actions@) + class_actions(statements@.skip(k as int))
                                    == class_actions(statements@),
                                forall|i: int|
                                    0 <= i < methods@.len() ==> (#[trigger] methods@[i]).wf(),
                            decreases statements@.len() - k,
                        {
                            let ghost rest = statements@.skip(k as int);
                            let ghost mv0 = method_views(methods@);
                            let ghost av0 = action_views(actions@);
                            proof {
                                assert(rest[0] == statements@[k as int]);
                                assert(rest.drop_first() =~= statements@.skip(k + 1));
                            }
                            match &statements[k] {
                                Node::Def { name: mn, body: mb } => {
                                    let m = parse_def(mn, mb, privf);
                                    methods.push(m);
                                    proof {
                                        assert(method_views(methods@) =~= mv0.push(m@));
                                        assert(method_views(methods@) + class_methods(
                                            statements@.skip(k + 1),
                                            privf,
                                        ) =~= class_methods(statements@, false));
                                    }
                                },
                                Node::Send { recv, method_name, args } => {
                                    proof {
                                        reveal_strlit("private");
                                        reveal_strlit("skip_auth_methods");
                                        reveal_strlit("around_action");
                                        reveal_strlit("before_action");
                                        reveal_strlit("skip_before_action");
                                    }
                                    let payload = config_parse_list(args);
                                    if str_eq(method_name.as_str(), "private") && args.len()
                                        == 0 {
                                        privf = true;
                                    proof {
                                        assert("private"@.len() == 7);
                                        assert("skip_auth_methods"@.len() == 17);
                                        assert("around_action"@.len() == 13);
                                        assert("before_action"@.len() == 13);
                                        assert("skip_before_action"@.len() == 18);
                                        assert("private"@ != "skip_auth_methods"@);
                                        assert("private"@ != "around_action"@);
                                        assert("private"@ != "before_action"@);
                                        assert("private"@ != "skip_before_action"@);
                                        assert(class_actions(rest) == Seq::<ActionSpec>::empty()
                                            + class_actions(statements@.skip(k + 1)));
                                        assert(action_views(actions@) + class_actions(
                                            statements@.skip(k + 1),
                                        ) =~= class_actions(statements@));
                                    }
                                    } else if str_eq(method_name.as_str(), "skip_auth_methods") {
                                        let a = Action::SkipAuthMethods(payload);
                                        proof {
                                            assert(a@ == ActionSpec::SkipAuthMethods(
                                                rendered_args(args@),
                                            ));
                                        }
                                        actions.push(a);
                                        proof {
                                            assert(action_views(actions@) =~= av0.push(a@));
                                            assert(action_views(actions@) + class_actions(
                                                statements@.skip(k + 1),
                                            ) =~= class_actions(statements@));
                                        }
                                    } else if str_eq(method_name.as_str(), "around_action") {
                                        let a = Action::AroundAction(payload);
                                        proof {
                                            assert(a@ == ActionSpec::AroundAction(
                                                rendered_args(args@),
                                            ));
                                        }
                                        actions.push(a);
                                        proof {
                                            assert(action_views(actions@) =~= av0.push(a@));
                                            assert(action_views(actions@) + class_actions(
                                                statements@.skip(k + 1),
                                            ) =~= class_actions(statements@));
                                        }
                                    } else if str_eq(method_name.as_str(), "before_action") {
                                        let a = Action::BeforeAction(payload);
                                        proof {
                                            assert(a@ == ActionSpec::BeforeAction(
                                                rendered_args(args@),
                                            ));
                                        }
                                        actions.push(a);
                                        proof {
                                            assert(action_views(actions@) =~= av0.push(a@));
                                            assert(action_views(actions@) + class_actions(
                                                statements@.skip(k + 1),
                                            ) =~= class_actions(statements@));
                                        }
                                    } else if str_eq(method_name.as_str(), "skip_before_action") {
                                        let a = Action::SkipBeforeAction(payload);
                                        proof {
                                            assert(a@ == ActionSpec::SkipBeforeAction(
                                                rendered_args(args@),
                                            ));
                                        }
                                        actions.push(a);
                                        proof {
                                            assert(action_views(actions@) =~= av0.push(a@));
                                            assert(action_views(actions@) + class_actions(
                                                statements@.skip(k + 1),
                                            ) =~= class_actions(statements@));
                                        }
                                    } else {
                                        proof {
                                            assert(action_views(actions@) + class_actions(
                                                statements@.skip(k + 1),
                                            ) =~= class_actions(statements@));
                                        }
                                    }
                                    proof {
                                        assert(method_views(methods@) + class_methods(
                                            statements@.skip(k + 1),
                                            privf,
                                        ) =~= class_methods(statements@, false));
                                        assert(action_views(actions@) + class_actions(
                                            statements@.skip(k + 1),
                                        ) =~= class_actions(statements@));
                                    }
                                },
                                _ => {
                                    proof {
                                        assert(method_views(methods@) + class_methods(
                                            statements@.skip(k + 1),
                                            privf,
                                        ) =~= class_methods(statements@, false));
                                        assert(action_views(actions@) + class_actions(
                                            statements@.skip(k + 1),
                                        ) =~= class_actions(statements@));
                                    }
                                },
                            }
                            k = k + 1;
                        }
                        proof {
                            assert(statements@.skip(statements@.len() as int) =~= Seq::<
                                Node,
                            >::empty());
                            assert(method_views(methods@) =~= class_methods(statements@, false));
                            assert(action_views(actions@) =~= class_actions(statements@));
                        }
                        Ok(Controller { name: cname, parent, methods, actions })
                    },
                    Node::Def { name: mn, body: mb } => {
                        let m = parse_def(mn, mb, false);
                        let mut methods: Vec<Method> = Vec::new();
                        methods.push(m);
                        let actions: Vec<Action> = Vec::new();
                        proof {
                            assert(method_views(methods@) =~= seq![spec_parse_def(mn@, *mb, false)]);
                            assert(action_views(actions@) =~= Seq::<ActionSpec>::empty());
                        }
                        Ok(Controller { name: cname, parent, methods, actions })
                    },
                    _ => Err(String::from_str("no class body found")),
                },
            }
        },
        _ => Err(String::new()),
    }
}

/// Collect the string and symbol literal arguments of a dependency
/// declaration; other arguments contribute nothing.
fn collect_required(required: &mut Vec<String>, args: &Vec<Node>)
    ensures
        final(required).deep_view() == old(required).deep_view() + required_of(args@),
{
    let mut i: usize = 0;
    proof {
        assert(args@.skip(0) =~= args@);
        assert(required.deep_view() + required_of(args@) =~= old(required).deep_view()
            + required_of(args@));
    }
    while i < args.len()
        invariant
            0 <= i <= args@.len(),
            required.deep_view() + required_of(args@.skip(i as int)) == old(
                required,
            ).deep_view() + required_of(args@),
        decreases args@.len() - i,
    {
        let ghost rest = args@.skip(i as int);
        let ghost dv0 = required.deep_view();
        proof {
            assert(rest[0] == args@[i as int]);
            assert(rest.drop_first() =~= args@.skip(i + 1));
        }
        match &args[i] {
            Node::Str { value } => {
                required.push(value.clone());
                proof {
                    assert(required.deep_view() =~= dv0.push(value@));
                    assert(required.deep_view() + required_of(args@.skip(i + 1)) =~= dv0
                        + required_of(rest));
                }
            },
            Node::Sym { name } => {
                required.push(name.clone());
                proof {
                    assert(required.deep_view() =~= dv0.push(name@));
                    assert(required.deep_view() + required_of(args@.skip(i + 1)) =~= dv0
                        + required_of(rest));
                }
            },
            _ => {
                proof {
                    assert(required.deep_view() + required_of(args@.skip(i + 1)) =~= dv0
                        + required_of(rest));
                }
            },
        }
        i = i + 1;
    }
    proof {
        assert(args@.skip(args@.len() as int) =~= Seq::<Node>::empty());
        assert(required_of(Seq::<Node>::empty()) == Seq::<Seq<char>>::empty());
        assert(required.deep_view() + Seq::<Seq<char>>::empty() =~= required.deep_view());
    }
}

/// Extract a module declaration: the nested modules, flattened, then the
/// module's own entry.
pub fn parse_module(module: &Node, parent_name: &str) -> (r: Result<Vec<Module>, String>)
    requires
        *module is Module,
    ensures
        (match r {
            Ok(v) => spec_parse_module(*module, parent_name@) == Ok::<Seq<ModuleSpec>, Seq<char>>(
                module_views(v@),
            ) && (forall|i: int| 0 <= i < v@.len() ==> (#[trigger] v@[i]).wf()),
            Err(e) => spec_parse_module(*module, parent_name@) == Err::<Seq<ModuleSpec>, Seq<char>>(
                e@,
            ),
        }),
    decreases size_of(*module),
{
    match module {
        Node::Module { name, body } => {
            let base = match get_node_name(&**name) {
                Option::Some(s) => s,
                Option::None => {
                    return Err(String::from_str("could not resolve the module name"));
                },
            };
            let module_name = if parent_name.unicode_len() == 0 {
                base.clone()
            } else {
                String::from_str(parent_name).concat(".").concat(base.as_str())
            };
            proof {
                assert(node_name(**name) == Option::Some(base@));
                assert(module_name@ == (if parent_name@.len() == 0 {
                    base@
                } else {
                    parent_name@ + "."@ + base@
                }));
            }
            match body {
                Option::None => Err(String::from_str("no module body found")),
                Option::Some(b) => match &**b {
                    Node::Class { name: cn, superclass: cs, body: cb } => {
                        match parse_class(&**b) {
                            Ok(c) => {
                                let mut classes: Vec<Controller> = Vec::new();
                                classes.push(c);
                                let m = Module {
                                    name: module_name,
                                    classes,
                                    required: Vec::new(),
                                    methods: Vec::new(),
                                };
                                proof {
                                    assert(m@.classes =~= seq![m.classes@[0]@]);
                                    assert(m@.required =~= Seq::<Seq<char>>::empty());
                                    assert(m@.methods =~= Seq::<MethodSpec>::empty());
                                }
                                let mut mods: Vec<Module> = Vec::new();
                                mods.push(m);
                                proof {
                                    assert(module_views(mods@) =~= seq![mods@[0]@]);
                                }
                                Ok(mods)
                            },
                            Err(e) => Err(e),
                        }
                    },
                    Node::Begin { statements } => {
                        let mut modules: Vec<Module> = Vec::new();
                        let mut classes: Vec<Controller> = Vec::new();
                        let mut required: Vec<String> = Vec::new();
                        let mut methods: Vec<Method> = Vec::new();
                        let mut privf = false;
                        let mut k: usize = 0;
                        proof {
                            lemma_module_body_size(*module);
                            lemma_begin_stmts_size(**b);
                            assert(statements@.skip(0) =~= statements@);
                            assert(module_views(modules@) =~= Seq::<ModuleSpec>::empty());
                            assert(controller_views(classes@) =~= Seq::<ControllerSpec>::empty());
                            assert(required.deep_view() =~= Seq::<Seq<char>>::empty());
                            assert(method_views(methods@) =~= Seq::<MethodSpec>::empty());
                        }
                        while k < statements.len()
                            invariant
                                0 <= k <= statements@.len(),
                                size_of_list(statements@) < size_of(*module),
                                (match module_steps(
                                    statements@,
                                    empty_module_acc(),
                                    module_name@,
                                ) {
                                    Ok(acc) => spec_parse_module(*module, parent_name@) == Ok::<
                                        Seq<ModuleSpec>,
                                        Seq<char>,
                                    >(
                                        acc.modules.push(
                                            (ModuleSpec {
                                                name: module_name@,
                                                classes: acc.classes,
                                                required: acc.required,
                                                methods: acc.methods,
                                            }),
                                        ),
                                    ),
                                    Err(e) => spec_parse_module(*module, parent_name@) == Err::<
                                        Seq<ModuleSpec>,
                                        Seq<char>,
                                    >(e),
                                }),
                                module_steps(statements@, empty_module_acc(), module_name@)
                                    == module_steps(
                                    statements@.skip(k as int),
                                    (ModuleAcc {
                                        modules: module_views(modules@),
                                        classes: controller_views(classes@),
                                        required: required.deep_view(),
                                        methods: method_views(methods@),
                                        privf: privf,
                                    }),
                                    module_name@,
                                ),
                                forall|i: int|
                                    0 <= i < modules@.len() ==> (#[trigger] modules@[i]).wf(),
                                forall|i: int|
                                    0 <= i < classes@.len() ==> (#[trigger] classes@[i]).wf(),
                                forall|i: int|
                                    0 <= i < methods@.len() ==> (#[trigger] methods@[i]).wf(),
                            decreases statements@.len() - k,
                        {
                            let ghost rest = statements@.skip(k as int);
                            let ghost acc_now = ModuleAcc {
                                modules: module_views(modules@),
                                classes: controller_views(classes@),
                                required: required.deep_view(),
                                methods: method_views(methods@),
                                privf: privf,
                            };
                            let ghost mv0 = module_views(modules@);
                            let ghost cv0 = controller_views(classes@);
                            let ghost dv0 = method_views(methods@);
                            proof {
                                assert(rest[0] == statements@[k as int]);
                                assert(rest.drop_first() =~= statements@.skip(k + 1));
                            }
                            match &statements[k] {
                                Node::Module { name: sn, body: sb } => {
                                    proof {
                                        lemma_size_of_list_elem(statements@, k as int);
                                    }
                                    match parse_module(&statements[k], module_name.as_str()) {
                                        Ok(mut sub) => {
                                            let ghost subv = module_views(sub@);
                                            let ghost subseq = sub@;
                                            modules.append(&mut sub);
                                            proof {
                                                assert(module_views(modules@) =~= mv0 + subv);
                                                assert forall|i: int|
                                                    0 <= i < modules@.len() implies (
                                                #[trigger] modules@[i]).wf() by {
                                                    if i >= mv0.len() {
                                                        assert(modules@[i] == subseq[i
                                                            - mv0.len()]);
                                                    }
                                                }
                                            }
                                        },
                                        Err(e) => {
                                            proof {
                                                assert(module_steps(rest, acc_now, module_name@)
                                                    == Err::<ModuleAcc, Seq<char>>(e@));
                                            }
                                            return Err(e);
                                        },
                                    }
                                },
                                Node::Class { name: cn, superclass: cs, body: cb } => {
                                    match parse_class(&statements[k]) {
                                        Ok(c) => {
                                            classes.push(c);
                                            proof {
                                                assert(controller_views(classes@) =~= cv0.push(
                                                    classes@[classes@.len() - 1]@,
                                                ));
                                            }
                                        },
                                        Err(e) => {
                                            proof {
                                                assert(module_steps(rest, acc_now, module_name@)
                                                    == Err::<ModuleAcc, Seq<char>>(e@));
                                            }
                                            return Err(e);
                                        },
                                    }
                                },
                                Node::Send { recv, method_name, args } => {
                                    if str_eq(method_name.as_str(), "require") {
                                        collect_required(&mut required, args);
                                    }
                                    if str_eq(method_name.as_str(), "private") && args.len()
                                        == 0 {
                                        privf = true;
                                    }
                                },
                                Node::Casgn => {},
                                Node::Block { body: bb } => {},
                                Node::Def { name: dn, body: db } => {
                                    let m = parse_def(dn, db, privf);
                                    methods.push(m);
                                    proof {
                                        assert(method_views(methods@) =~= dv0.push(
                                            methods@[methods@.len() - 1]@,
                                        ));
                                    }
                                },
                                _ => {},
                            }
                            k = k + 1;
                        }
                        proof {
                            assert(statements@.skip(statements@.len() as int) =~= Seq::<
                                Node,
                            >::empty());
                        }
                        let own = Module { name: module_name, classes, required, methods };
                        let ghost ownv = own@;
                        let ghost mv_final = module_views(modules@);
                        modules.push(own);
                        proof {
                            assert(module_views(modules@) =~= mv_final.push(ownv));
                        }
                        Ok(modules)
                    },
                    _ => {
                        let m = Module {
                            name: module_name,
                            classes: Vec::new(),
                            required: Vec::new(),
                            methods: Vec::new(),
                        };
                        proof {
                            assert(m@.classes =~= Seq::<ControllerSpec>::empty());
                            assert(m@.required =~= Seq::<Seq<char>>::empty());
                            assert(m@.methods =~= Seq::<MethodSpec>::empty());
                        }
                        let mut mods: Vec<Module> = Vec::new();
                        mods.push(m);
                        proof {
                            assert(module_views(mods@) =~= seq![mods@[0]@]);
                        }
                        Ok(mods)
                    },
                },
            }
        },
        _ => Err(String::new()),
    }
}

/// Extract one file's tree: its top-level controllers, modules and
/// dependency declarations.
pub fn parse_file(ast: &Node) -> (r: Result<RubyFile, String>)
    ensures
        (match r {
            Ok(f) => spec_parse_file(*ast) == Ok::<FileSpec, Seq<char>>(f@) && f.wf(),
            Err(e) => spec_parse_file(*ast) == Err::<FileSpec, Seq<char>>(e@),
        }),
{
    let mut controllers: Vec<Controller> = Vec::new();
    let mut modules: Vec<Module> = Vec::new();
    let mut required: Vec<String> = Vec::new();
    proof {
        reveal_strlit("");
        assert(""@ =~= Seq::<char>::empty());
        assert(controller_views(controllers@) =~= Seq::<ControllerSpec>::empty());
        assert(module_views(modules@) =~= Seq::<ModuleSpec>::empty());
        assert(required.deep_view() =~= Seq::<Seq<char>>::empty());
    }
    match ast {
        Node::Module { name, body } => {
            match parse_module(ast, "") {
                Ok(mut mods) => {
                    let ghost subv = module_views(mods@);
                    let ghost subseq = mods@;
                    modules.append(&mut mods);
                    proof {
                        assert(module_views(modules@) =~= subv);
                        assert forall|i: int|
                            0 <= i < modules@.len() implies (#[trigger] modules@[i]).wf() by {
                            assert(modules@[i] == subseq[i]);
                        }
                    }
                },
                Err(e) => {
                    return Err(e);
                },
            }
        },
        Node::Class { name, superclass, body } => {
            match parse_class(ast) {
                Ok(c) => {
                    controllers.push(c);
                    proof {
                        assert(controller_views(controllers@) =~= seq![controllers@[0]@]);
                    }
                },
                Err(e) => {
                    return Err(e);
                },
            }
        },
        Node::Begin { statements } => {
            let mut k: usize = 0;
            proof {
                assert(statements@.skip(0) =~= statements@);
            }
            while k < statements.len()
                invariant
                    0 <= k <= statements@.len(),
                    ""@ == Seq::<char>::empty(),
                    (match file_steps(statements@, empty_file_acc()) {
                        Ok(acc) => spec_parse_file(*ast) == (if acc.controllers.len() == 0
                            && acc.modules.len() == 0 {
                            Err::<FileSpec, Seq<char>>("no classes and modules found - as empty"@)
                        } else {
                            Ok::<FileSpec, Seq<char>>(
                                (FileSpec {
                                    controllers: acc.controllers,
                                    modules: acc.modules,
                                    required: acc.required,
                                }),
                            )
                        }),
                        Err(e) => spec_parse_file(*ast) == Err::<FileSpec, Seq<char>>(e),
                    }),
                    file_steps(statements@, empty_file_acc()) == file_steps(
                        statements@.skip(k as int),
                        (FileAcc {
                            controllers: controller_views(controllers@),
                            modules: module_views(modules@),
                            required: required.deep_view(),
                        }),
                    ),
                    forall|i: int|
                        0 <= i < controllers@.len() ==> (#[trigger] controllers@[i]).wf(),
                    forall|i: int| 0 <= i < modules@.len() ==> (#[trigger] modules@[i]).wf(),
                decreases statements@.len() - k,
            {
                let ghost rest = statements@.skip(k as int);
                let ghost acc_now = FileAcc {
                    controllers: controller_views(controllers@),
                    modules: module_views(modules@),
                    required: required.deep_view(),
                };
                let ghost cv0 = controller_views(controllers@);
                let ghost mv0 = module_views(modules@);
                proof {
                    assert(rest[0] == statements@[k as int]);
                    assert(rest.drop_first() =~= statements@.skip(k + 1));
                }
                match &statements[k] {
                    Node::Module { name: sn, body: sb } => {
                        match parse_module(&statements[k], "") {
                            Ok(mut sub) => {
                                let ghost subv = module_views(sub@);
                                let ghost subseq = sub@;
                                modules.append(&mut sub);
                                proof {
                                    assert(module_views(modules@) =~= mv0 + subv);
                                    assert forall|i: int|
                                        0 <= i < modules@.len() implies (
                                    #[trigger] modules@[i]).wf() by {
                                        if i >= mv0.len() {
                                            assert(modules@[i] == subseq[i - mv0.len()]);
                                        }
                                    }
                                }
                            },
                            Err(e) => {
                                proof {
                                    assert(file_steps(rest, acc_now) == Err::<FileAcc, Seq<char>>(
                                        e@,
                                    ));
                                }
                                return Err(e);
                            },
                        }
                    },
                    Node::Class { name: cn, superclass: cs, body: cb } => {
                        match parse_class(&statements[k]) {
                            Ok(c) => {
                                controllers.push(c);
                                proof {
                                    assert(controller_views(controllers@) =~= cv0.push(
                                        controllers@[controllers@.len() - 1]@,
                                    ));
                                }
                            },
                            Err(e) => {
                                proof {
                                    assert(file_steps(rest, acc_now) == Err::<FileAcc, Seq<char>>(
                                        e@,
                                    ));
                                }
                                return Err(e);
                            },
                        }
                    },
                    Node::Send { recv, method_name, args } => {
                        if str_eq(method_name.as_str(), "require") {
                            collect_required(&mut required, args);
                        }
                    },
                    _ => {
                        proof {
                            assert(file_steps(rest, acc_now) == Err::<FileAcc, Seq<char>>(
                                "error no module found"@,
                            ));
                        }
                        return Err(String::from_str("error no module found"));
                    },
                }
                k = k + 1;
            }
            proof {
                assert(statements@.skip(statements@.len() as int) =~= Seq::<Node>::empty());
            }
        },
        _ => {
            return Err(String::from_str("error no module found"));
        },
    }
    if controllers.len() == 0 && modules.len() == 0 {
        return Err(String::from_str("no classes and modules found - as empty"));
    }
    Ok(RubyFile { controllers, modules, required })
}

} // verus!
