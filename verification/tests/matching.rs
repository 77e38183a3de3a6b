// Name derivation and the cross-reference between extracted controllers and
// the route table.

use rails_audit::ast::Node;
use rails_audit::compute;
use rails_audit::get_name;
use rails_audit::routes::parse_routes;
use rails_audit::ruby_parser::parse_file;
use rails_audit::search_in_routes;

#[test]
fn derives_namespaced_controller_path() {
    assert_eq!(
        get_name("Widget", "Vendors::IntegrationSettingsController"),
        "widget/vendors/integration_settings".to_string()
    );
}

#[test]
fn derives_bare_controller_path() {
    assert_eq!(get_name("", "VersionController"), "version".to_string());
}

#[test]
fn derives_path_without_controller_suffix() {
    assert_eq!(get_name("", "DogForms"), "dog_forms".to_string());
}

fn dog_forms_file() -> rails_audit::ruby_parser::RubyFile {
    // class DogFormsController < ApplicationController
    //   def show
    //   end
    // end
    let input = Node::Class {
        name: Box::new(Node::Const { scope: None, name: "DogFormsController".to_string() }),
        superclass: Some(Box::new(Node::Const {
            scope: None,
            name: "ApplicationController".to_string(),
        })),
        body: Some(Box::new(Node::Def { name: "show".to_string(), body: None })),
    };
    parse_file(&input).unwrap()
}

#[test]
fn end_to_end_reports_one_match_and_no_warning() {
    let routes = parse_routes("Prefix Verb URI Controller#Action\nGET /dog/form(.:format) dog_forms#show").unwrap();
    let files = vec![dog_forms_file()];
    let report = compute(&files, &routes);
    assert_eq!(report, vec!["GET /dog/form show ".to_string()]);
}

#[test]
fn end_to_end_unmatched_controller_warns() {
    let routes = parse_routes("Prefix Verb URI Controller#Action\nGET /cats(.:format) cats#index").unwrap();
    let files = vec![dog_forms_file()];
    let report = compute(&files, &routes);
    assert_eq!(
        report,
        vec!["unable to find controller for  DogFormsController -- dog_forms".to_string()]
    );
}

#[test]
fn search_in_routes_reports_each_pair() {
    let routes = parse_routes(
        "Prefix Verb URI Controller#Action\nGET /dog/form(.:format) dog_forms#show\nPOST /dog/form(.:format) dog_forms#show",
    )
    .unwrap();
    let file = dog_forms_file();
    let lines = search_in_routes("dog_forms", &routes, &file.controllers[0].methods).unwrap();
    assert_eq!(lines, vec!["GET /dog/form show ".to_string(), "POST /dog/form show ".to_string()]);
}

#[test]
fn search_in_routes_without_match_is_an_error() {
    let routes = parse_routes("Prefix Verb URI Controller#Action\nGET /cats(.:format) cats#index").unwrap();
    let file = dog_forms_file();
    let r = search_in_routes("dog_forms", &routes, &file.controllers[0].methods);
    assert_eq!(r, Err("unable to find method on controller".to_string()));
}

#[test]
fn method_summary_sorts_parameter_keys() {
    // The key set is displayed sorted, whatever order discovery found it in.
    let m = rails_audit::ruby_parser::Method {
        name: "show".to_string(),
        params: vec!["zeta".to_string(), "alpha".to_string(), "cat".to_string()],
        responses: Vec::new(),
        private: false,
    };
    assert_eq!(rails_audit::method_summary_line(&m), "show params: alpha,cat,zeta ".to_string());
}

#[test]
fn private_method_summary_in_match_line() {
    // A route matching a private method still reports, with the private mark.
    let input = Node::Class {
        name: Box::new(Node::Const { scope: None, name: "DogFormsController".to_string() }),
        superclass: Some(Box::new(Node::Const {
            scope: None,
            name: "ApplicationController".to_string(),
        })),
        body: Some(Box::new(Node::Begin {
            statements: vec![
                Node::Send { recv: None, method_name: "private".to_string(), args: vec![] },
                Node::Def { name: "show".to_string(), body: None },
            ],
        })),
    };
    let file = parse_file(&input).unwrap();
    let routes = parse_routes("Prefix Verb URI Controller#Action\nGET /dog/form(.:format) dog_forms#show").unwrap();
    let lines = search_in_routes("dog_forms", &routes, &file.controllers[0].methods).unwrap();
    assert_eq!(lines, vec!["GET /dog/form show private".to_string()]);
}

#[test]
fn module_controllers_match_under_module_prefix() {
    // module Widget with class VersionController, matched as widget/version.
    let input = Node::Module {
        name: Box::new(Node::Const { scope: None, name: "Widget".to_string() }),
        body: Some(Box::new(Node::Class {
            name: Box::new(Node::Const { scope: None, name: "VersionController".to_string() }),
            superclass: Some(Box::new(Node::Const {
                scope: None,
                name: "ApplicationController".to_string(),
            })),
            body: Some(Box::new(Node::Def { name: "version".to_string(), body: None })),
        })),
    };
    let file = parse_file(&input).unwrap();
    let routes = parse_routes("Prefix Verb URI Controller#Action\nGET /version(.:format) widget/version#version").unwrap();
    let report = compute(&vec![file], &routes);
    assert_eq!(report, vec!["GET /version version ".to_string()]);
}
