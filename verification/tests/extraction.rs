// Parameter-key extraction and structural extraction, driven by hand-built
// syntax trees equivalent to the source snippets they describe.

use rails_audit::ast::Node;
use rails_audit::params::search_for_param;
use rails_audit::ruby_parser::{parse_file, Action, Controller, Method, Module, RubyFile};

fn sym(name: &str) -> Node {
    Node::Sym { name: name.to_string() }
}

fn strn(value: &str) -> Node {
    Node::Str { value: value.to_string() }
}

fn send(recv: Option<Node>, name: &str, args: Vec<Node>) -> Node {
    Node::Send { recv: recv.map(Box::new), method_name: name.to_string(), args }
}

fn index(recv: Node, indexes: Vec<Node>) -> Node {
    Node::Index { recv: Box::new(recv), indexes }
}

fn pair(key: Node, value: Node) -> Node {
    Node::Pair { key: Box::new(key), value: Box::new(value) }
}

fn cnst(scope: Option<Node>, name: &str) -> Node {
    Node::Const { scope: scope.map(Box::new), name: name.to_string() }
}

fn keys_sorted(node: &Node) -> String {
    let mut found = search_for_param(node);
    found.sort();
    found.join(", ")
}

#[test]
fn send_method() {
    // render 'show'
    let node = send(None, "render", vec![strn("show")]);
    assert_eq!(keys_sorted(&node), "");
}

#[test]
fn params_without_any_index() {
    // params
    let node = send(None, "params", vec![]);
    assert_eq!(keys_sorted(&node), "");
}

#[test]
fn params_index() {
    // params[:id]
    let node = index(send(None, "params", vec![]), vec![sym("id")]);
    assert_eq!(keys_sorted(&node), "id");
}

#[test]
fn params_require() {
    // event_type = params.require(:issue_event_type_name)
    let node = Node::Lvasgn {
        name: "event_type".to_string(),
        value: Some(Box::new(send(
            Some(send(None, "params", vec![])),
            "require",
            vec![sym("issue_event_type_name")],
        ))),
    };
    assert_eq!(keys_sorted(&node), "issue_event_type_name");
}

#[test]
fn params_send() {
    // @results = query.foo(params[:issue_event_type_name])
    let node = Node::Ivasgn {
        name: "@results".to_string(),
        value: Some(Box::new(send(
            Some(send(None, "query", vec![])),
            "foo",
            vec![index(send(None, "params", vec![]), vec![sym("issue_event_type_name")])],
        ))),
    };
    assert_eq!(keys_sorted(&node), "issue_event_type_name");
}

#[test]
fn params_require_complex() {
    // create_details = {
    //   :project_key => params.require(:project_key),
    //   :issue_type_id => params.require(:issue_type_id),
    //   :title_field_key => p[:title_field_key],
    //   :description_field_key => p[:description_field_key],
    //   :title => p[:title],
    //   :description => p[:description]
    // }
    let p_index = |key: &str| index(send(None, "p", vec![]), vec![sym(key)]);
    let req = |key: &str| send(Some(send(None, "params", vec![])), "require", vec![sym(key)]);
    let node = Node::Lvasgn {
        name: "create_details".to_string(),
        value: Some(Box::new(Node::Hash {
            pairs: vec![
                pair(sym("project_key"), req("project_key")),
                pair(sym("issue_type_id"), req("issue_type_id")),
                pair(sym("title_field_key"), p_index("title_field_key")),
                pair(sym("description_field_key"), p_index("description_field_key")),
                pair(sym("title"), p_index("title")),
                pair(sym("description"), p_index("description")),
            ],
        })),
    };
    assert_eq!(keys_sorted(&node), "issue_type_id, project_key");
}

#[test]
fn params_if() {
    // if params[:id]
    //     @results = params[:cat]
    // end
    let node = Node::If {
        cond: Box::new(index(send(None, "params", vec![]), vec![sym("id")])),
        if_true: Some(Box::new(Node::Ivasgn {
            name: "@results".to_string(),
            value: Some(Box::new(index(send(None, "params", vec![]), vec![sym("cat")]))),
        })),
        if_false: None,
    };
    assert_eq!(keys_sorted(&node), "cat, id");
}

#[test]
fn extraction_is_idempotent_and_order_free() {
    let node = Node::If {
        cond: Box::new(index(send(None, "params", vec![]), vec![sym("id")])),
        if_true: Some(Box::new(index(send(None, "params", vec![]), vec![sym("cat")]))),
        if_false: None,
    };
    let mut first = search_for_param(&node);
    let mut second = search_for_param(&node);
    first.sort();
    second.sort();
    assert_eq!(first, second);
}

// class VersionController < ApplicationController
//
//   skip_before_action :check_auth_token, only: [:version]
//
//   def version
//     not_found and return if ['eu-prod', 'us-prod'].include? ENV['GKE_CLUSTER']
//
//     render json: {
//       commit: ENV['COMMIT'],
//       deployer: ENV['DEPLOYER'],
//       deployed_at: ENV['DEPLOYED_AT']
//     }
//   end
// end
fn version_def() -> Node {
    let guard = Node::IfMod {
        cond: Box::new(send(
            Some(Node::Array { elements: vec![strn("eu-prod"), strn("us-prod")] }),
            "include?",
            vec![index(cnst(None, "ENV"), vec![strn("GKE_CLUSTER")])],
        )),
        if_true: Some(Box::new(Node::And {
            lhs: Box::new(send(None, "not_found", vec![])),
            rhs: Box::new(Node::Return { args: vec![] }),
        })),
        if_false: None,
    };
    let render = send(
        None,
        "render",
        vec![Node::Kwargs {
            pairs: vec![
                pair(sym("commit"), index(cnst(None, "ENV"), vec![strn("COMMIT")])),
                pair(sym("deployer"), index(cnst(None, "ENV"), vec![strn("DEPLOYER")])),
                pair(sym("deployed_at"), index(cnst(None, "ENV"), vec![strn("DEPLOYED_AT")])),
            ],
        }],
    );
    Node::Def {
        name: "version".to_string(),
        body: Some(Box::new(Node::Begin { statements: vec![guard, render] })),
    }
}

#[test]
fn parse_test() {
    let input = Node::Class {
        name: Box::new(cnst(None, "VersionController")),
        superclass: Some(Box::new(cnst(None, "ApplicationController"))),
        body: Some(Box::new(Node::Begin {
            statements: vec![
                send(
                    None,
                    "skip_before_action",
                    vec![
                        sym("check_auth_token"),
                        Node::Kwargs {
                            pairs: vec![pair(
                                sym("only"),
                                Node::Array { elements: vec![sym("version")] },
                            )],
                        },
                    ],
                ),
                version_def(),
            ],
        })),
    };
    let expected = RubyFile {
        controllers: vec![Controller {
            name: "VersionController".to_string(),
            parent: "ApplicationController".to_string(),
            actions: vec![Action::SkipBeforeAction(
                "check_auth_token :only[array] version".to_string(),
            )],
            methods: vec![Method {
                name: "version".to_string(),
                params: Vec::new(),
                responses: vec!["render none unknown".to_string()],
                private: false,
            }],
        }],
        modules: Vec::new(),
        required: Vec::new(),
    };
    let actual = parse_file(&input);
    assert_eq!(actual.is_ok(), true);
    assert_eq!(actual.unwrap(), expected);
}

#[test]
fn parse_test2() {
    // require 'jwt'
    // class VersionController < ApplicationController
    //   skip_before_action :check_auth_token
    //   def version ... end
    // end
    let input = Node::Begin {
        statements: vec![
            send(None, "require", vec![strn("jwt")]),
            Node::Class {
                name: Box::new(cnst(None, "VersionController")),
                superclass: Some(Box::new(cnst(None, "ApplicationController"))),
                body: Some(Box::new(Node::Begin {
                    statements: vec![
                        send(None, "skip_before_action", vec![sym("check_auth_token")]),
                        version_def(),
                    ],
                })),
            },
        ],
    };
    let expected = RubyFile {
        controllers: vec![Controller {
            name: "VersionController".to_string(),
            parent: "ApplicationController".to_string(),
            actions: vec![Action::SkipBeforeAction("check_auth_token".to_string())],
            methods: vec![Method {
                name: "version".to_string(),
                params: Vec::new(),
                responses: vec!["render none unknown".to_string()],
                private: false,
            }],
        }],
        modules: Vec::new(),
        required: vec!["jwt".to_string()],
    };
    let actual = parse_file(&input);
    assert_eq!(actual.is_ok(), true);
    assert_eq!(actual.unwrap(), expected);
}

// module Widget
//   Setting = Struct.new(:name, :value)
//   class <name> < ApplicationController
//     include Widget::SnippetParser
//     skip_auth_methods
//     def index
//       begin ... rescue ... end
//     end
//   end
// end
fn widget_module(class_name: Node) -> Node {
    let def_index = Node::Def {
        name: "index".to_string(),
        body: Some(Box::new(Node::KwBegin {
            statements: vec![Node::Rescue {
                body: Some(Box::new(Node::Lvasgn {
                    name: "snippet".to_string(),
                    value: Some(Box::new(send(
                        None,
                        "parse_snippet",
                        vec![send(None, "params", vec![])],
                    ))),
                })),
                rescue_bodies: vec![Node::RescueBody {
                    body: Some(Box::new(Node::Return {
                        args: vec![send(None, "json", vec![strn("malformed JSON")])],
                    })),
                    exc_var: Some(Box::new(Node::Lvasgn { name: "e".to_string(), value: None })),
                    exc_list: Some(Box::new(Node::Array {
                        elements: vec![cnst(Some(cnst(None, "JSON")), "ParserError")],
                    })),
                }],
                else_clause: None,
            }],
        })),
    };
    Node::Module {
        name: Box::new(cnst(None, "Widget")),
        body: Some(Box::new(Node::Begin {
            statements: vec![
                Node::Casgn,
                Node::Class {
                    name: Box::new(class_name),
                    superclass: Some(Box::new(cnst(None, "ApplicationController"))),
                    body: Some(Box::new(Node::Begin {
                        statements: vec![
                            send(None, "include", vec![cnst(Some(cnst(None, "Widget")), "SnippetParser")]),
                            send(None, "skip_auth_methods", vec![]),
                            def_index,
                        ],
                    })),
                },
            ],
        })),
    }
}

#[test]
fn parse_test3() {
    let input = widget_module(cnst(None, "IntegrationSettingsController"));
    let expected = RubyFile {
        controllers: Vec::new(),
        modules: vec![Module {
            name: "Widget".to_string(),
            methods: Vec::new(),
            classes: vec![Controller {
                actions: vec![Action::SkipAuthMethods("".to_string())],
                name: "IntegrationSettingsController".to_string(),
                parent: "ApplicationController".to_string(),
                methods: vec![Method {
                    name: "index".to_string(),
                    params: Vec::new(),
                    responses: Vec::new(),
                    private: false,
                }],
            }],
            required: Vec::new(),
        }],
        required: Vec::new(),
    };
    let actual = parse_file(&input);
    assert_eq!(actual.is_ok(), true);
    assert_eq!(actual.unwrap(), expected);
}

#[test]
fn parse_test4() {
    let input = widget_module(cnst(Some(cnst(None, "Vendors")), "IntegrationSettingsController"));
    let expected = RubyFile {
        controllers: Vec::new(),
        modules: vec![Module {
            name: "Widget".to_string(),
            methods: Vec::new(),
            classes: vec![Controller {
                name: "Vendors::IntegrationSettingsController".to_string(),
                parent: "ApplicationController".to_string(),
                actions: vec![Action::SkipAuthMethods("".to_string())],
                methods: vec![Method {
                    name: "index".to_string(),
                    params: Vec::new(),
                    responses: Vec::new(),
                    private: false,
                }],
            }],
            required: Vec::new(),
        }],
        required: Vec::new(),
    };
    let actual = parse_file(&input);
    assert_eq!(actual.is_ok(), true);
    assert_eq!(actual.unwrap(), expected);
}

#[test]
fn parse_test5() {
    // module SortParams
    //   extend ActiveSupport::Concern
    //   def sorted_fields(sort, allowed, default)
    //     foo
    //   end
    // end
    let input = Node::Module {
        name: Box::new(cnst(None, "SortParams")),
        body: Some(Box::new(Node::Begin {
            statements: vec![
                send(None, "extend", vec![cnst(Some(cnst(None, "ActiveSupport")), "Concern")]),
                Node::Def {
                    name: "sorted_fields".to_string(),
                    body: Some(Box::new(send(None, "foo", vec![]))),
                },
            ],
        })),
    };
    let expected = RubyFile {
        controllers: Vec::new(),
        modules: vec![Module {
            name: "SortParams".to_string(),
            methods: vec![Method {
                name: "sorted_fields".to_string(),
                params: Vec::new(),
                responses: Vec::new(),
                private: false,
            }],
            classes: Vec::new(),
            required: Vec::new(),
        }],
        required: Vec::new(),
    };
    let actual = parse_file(&input);
    assert_eq!(actual.is_ok(), true);
    assert_eq!(actual.unwrap(), expected);
}

#[test]
fn parse_test6() {
    // class VersionController < ApplicationController
    //   def version
    //     @data = params[:cat]
    //   end
    // end
    let input = Node::Class {
        name: Box::new(cnst(None, "VersionController")),
        superclass: Some(Box::new(cnst(None, "ApplicationController"))),
        body: Some(Box::new(Node::Def {
            name: "version".to_string(),
            body: Some(Box::new(Node::Begin {
                statements: vec![Node::Ivasgn {
                    name: "@data".to_string(),
                    value: Some(Box::new(index(send(None, "params", vec![]), vec![sym("cat")]))),
                }],
            })),
        })),
    };
    let expected = RubyFile {
        controllers: vec![Controller {
            name: "VersionController".to_string(),
            parent: "ApplicationController".to_string(),
            actions: Vec::new(),
            methods: vec![Method {
                name: "version".to_string(),
                params: vec!["cat".to_string()],
                responses: Vec::new(),
                private: false,
            }],
        }],
        modules: Vec::new(),
        required: Vec::new(),
    };
    let actual = parse_file(&input);
    assert_eq!(actual.is_ok(), true);
    assert_eq!(actual.unwrap(), expected);
}

#[test]
fn class_without_superclass_fails() {
    let input = Node::Class {
        name: Box::new(cnst(None, "VersionController")),
        superclass: None,
        body: Some(Box::new(Node::Def { name: "version".to_string(), body: None })),
    };
    let actual = parse_file(&input);
    assert_eq!(actual, Err("could not resolve the superclass".to_string()));
}

#[test]
fn module_without_body_fails() {
    let input = Node::Module { name: Box::new(cnst(None, "Widget")), body: None };
    assert_eq!(parse_file(&input), Err("no module body found".to_string()));
}

#[test]
fn unexpected_top_level_shape_fails() {
    let input = Node::Sym { name: "oops".to_string() };
    assert_eq!(parse_file(&input), Err("error no module found".to_string()));
}

#[test]
fn empty_file_fails() {
    let input = Node::Begin { statements: vec![send(None, "require", vec![strn("jwt")])] };
    assert_eq!(parse_file(&input), Err("no classes and modules found - as empty".to_string()));
}

#[test]
fn unexpected_module_statement_is_skipped() {
    // A statement of an unrecognized kind at module-body level is
    // non-fatal: it contributes nothing and extraction continues.
    let input = Node::Module {
        name: Box::new(cnst(None, "Widget")),
        body: Some(Box::new(Node::Begin {
            statements: vec![
                Node::Sym { name: "oops".to_string() },
                Node::Def { name: "index".to_string(), body: None },
            ],
        })),
    };
    let file = parse_file(&input).unwrap();
    assert_eq!(file.modules.len(), 1);
    assert_eq!(file.modules[0].name, "Widget");
    assert_eq!(file.modules[0].methods.len(), 1);
    assert_eq!(file.modules[0].methods[0].name, "index");
}

#[test]
fn private_call_with_arguments_does_not_flag() {
    // Only a no-argument call of the private selector flips the flag.
    let input = Node::Class {
        name: Box::new(cnst(None, "VersionController")),
        superclass: Some(Box::new(cnst(None, "ApplicationController"))),
        body: Some(Box::new(Node::Begin {
            statements: vec![
                send(None, "private", vec![sym("helper")]),
                Node::Def { name: "helper".to_string(), body: None },
            ],
        })),
    };
    let file = parse_file(&input).unwrap();
    assert_eq!(file.controllers[0].methods[0].private, false);
}

#[test]
fn require_collects_only_literal_arguments() {
    // A dependency declaration keeps its string and symbol literal
    // arguments; any other argument contributes nothing.
    let input = Node::Module {
        name: Box::new(cnst(None, "Widget")),
        body: Some(Box::new(Node::Begin {
            statements: vec![send(
                None,
                "require",
                vec![
                    strn("jwt"),
                    sym("json"),
                    Node::Int { value: "5".to_string() },
                    Node::Lvar { name: "dep".to_string() },
                ],
            )],
        })),
    };
    let file = parse_file(&input).unwrap();
    assert_eq!(file.modules[0].required, vec!["jwt".to_string(), "json".to_string()]);
}

#[test]
fn private_marker_flags_following_methods() {
    let input = Node::Class {
        name: Box::new(cnst(None, "VersionController")),
        superclass: Some(Box::new(cnst(None, "ApplicationController"))),
        body: Some(Box::new(Node::Begin {
            statements: vec![
                Node::Def { name: "index".to_string(), body: None },
                send(None, "private", vec![]),
                Node::Def { name: "helper".to_string(), body: None },
            ],
        })),
    };
    let file = parse_file(&input).unwrap();
    let methods = &file.controllers[0].methods;
    assert_eq!(methods[0].private, false);
    assert_eq!(methods[1].private, true);
}

#[test]
fn nested_modules_flatten_with_dotted_names() {
    let inner = Node::Module {
        name: Box::new(cnst(None, "Inner")),
        body: Some(Box::new(Node::Begin {
            statements: vec![send(None, "require", vec![strn("x")])],
        })),
    };
    let input = Node::Module {
        name: Box::new(cnst(None, "Outer")),
        body: Some(Box::new(Node::Begin { statements: vec![inner] })),
    };
    let file = parse_file(&input).unwrap();
    assert_eq!(file.modules.len(), 2);
    assert_eq!(file.modules[0].name, "Outer.Inner");
    assert_eq!(file.modules[0].required, vec!["x".to_string()]);
    assert_eq!(file.modules[1].name, "Outer");
}
