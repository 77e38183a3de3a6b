// Route-table parsing: the tabular format, its equivalences, and its
// all-or-nothing failure policy.

use rails_audit::routes::{parse_routes, Request, RequestMethod};

#[test]
fn parse() {
    let input = "Prefix Verb    URI Pattern                                                                              Controller#Action
        email_processor POST    /email_processor(.:format)                                                               griddler/emails#create
            dog_form GET     /dog/form(.:format)                                                                   dog_forms#show
                        PATCH   /dog/form(.:format)                                                                   dog_forms#update
                        PUT     /dog/form(.:format)                                                                   dog_forms#update
                        POST    /dog/form(.:format)                                                                   dog_forms#create
          dog_styles GET     /dogs/:dog_id/styles(.:format)                                                     dogs/styles#index
                        POST    /dogs/:dog_id/styles(.:format)                                                     dogs/styles#create
       new_dog_style GET     /dogs/:dog_id/styles/new(.:format)                                                 dogs/styles#new
        ";

    assert_eq!(parse_routes(input).is_ok(), true, "successfully parse");
    assert_eq!(parse_routes(input).unwrap().len(), 8);
    assert_eq!(
        parse_routes(input).unwrap()[0],
        Request {
            method: RequestMethod::POST,
            prefix: "email_processor".to_string(),
            uri: "/email_processor".to_string(),
            controller: "griddler/emails".to_string(),
            action: "create".to_string(),
        }
    );

    assert_eq!(
        parse_routes(input).unwrap()[2],
        Request {
            method: RequestMethod::PATCH,
            prefix: "".to_string(),
            uri: "/dog/form".to_string(),
            controller: "dog_forms".to_string(),
            action: "update".to_string(),
        }
    );
}

#[test]
fn header_only_table_is_empty_and_ok() {
    let input = "Prefix Verb URI Pattern Controller#Action";
    assert_eq!(parse_routes(input), Ok(Vec::new()));
    let with_newline = "Prefix Verb URI Pattern Controller#Action\n";
    assert_eq!(parse_routes(with_newline), Ok(Vec::new()));
}

#[test]
fn four_field_verb_first_equals_three_field() {
    let four = "Header\nGET /dog/form(.:format) dog_forms#show extra";
    let three = "Header\nGET /dog/form(.:format) dog_forms#show";
    assert_eq!(parse_routes(four), parse_routes(three));
    let parsed = parse_routes(four).unwrap();
    assert_eq!(parsed.len(), 1);
    assert_eq!(parsed[0].prefix, "");
    assert_eq!(parsed[0].uri, "/dog/form");
}

#[test]
fn five_field_line_is_ignored() {
    let input = "Header\nBOGUS NONSENSE not#even a route";
    assert_eq!(parse_routes(input), Ok(Vec::new()));
}

#[test]
fn unknown_verb_aborts_whole_parse() {
    let input = "Header\nGET /ok(.:format) a#b\nBOGUS /x(.:format) a#b";
    assert_eq!(parse_routes(input), Err("unknown Request method 'BOGUS'".to_string()));
}

#[test]
fn missing_hash_separator_aborts_whole_parse() {
    let input = "Header\nGET /x(.:format) nohash";
    assert_eq!(
        parse_routes(input),
        Err("could not find action on the controller nohash".to_string())
    );
}

#[test]
fn double_hash_aborts_whole_parse() {
    let input = "Header\nGET /x(.:format) a#b#c";
    assert_eq!(parse_routes(input), Err("could not find action on the controller a#b#c".to_string()));
}

#[test]
fn empty_input_is_rejected() {
    assert_eq!(parse_routes(""), Err("input is empty".to_string()));
}

#[test]
fn prefixed_four_field_line_keeps_its_prefix() {
    let input = "Header\nwidgets GET /widgets(.:format) widgets#index";
    let parsed = parse_routes(input).unwrap();
    assert_eq!(parsed.len(), 1);
    assert_eq!(parsed[0].prefix, "widgets");
    assert_eq!(parsed[0].method, RequestMethod::GET);
    assert_eq!(parsed[0].uri, "/widgets");
    assert_eq!(parsed[0].controller, "widgets");
    assert_eq!(parsed[0].action, "index");
}

#[test]
fn two_field_line_is_skipped() {
    let input = "Header\nGET /only";
    assert_eq!(parse_routes(input), Ok(Vec::new()));
}

#[test]
fn format_suffix_is_stripped_everywhere() {
    let input = "Header\nGET /a(.:format)/b(.:format) a#b";
    let parsed = parse_routes(input).unwrap();
    assert_eq!(parsed[0].uri, "/a/b");
}

#[test]
fn unicode_whitespace_also_separates_fields() {
    let input = "Header\nGET\u{00A0}/dogs(.:format)\u{2003}dogs#index";
    let parsed = parse_routes(input).unwrap();
    assert_eq!(parsed.len(), 1);
    assert_eq!(parsed[0].uri, "/dogs");
    assert_eq!(parsed[0].controller, "dogs");
    assert_eq!(parsed[0].action, "index");
}

#[test]
fn route_summary_names_verb_and_uri() {
    let input = "Header\nDELETE /dogs(.:format) dogs#destroy";
    let parsed = parse_routes(input).unwrap();
    assert_eq!(parsed[0].summary(), "DELETE /dogs".to_string());
}
