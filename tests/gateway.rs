use mysti::gateway::{classify_captures, substitute_captures, RouteTable, UriMapping, UriMatch};
use mysti::methods::sort_methods;

fn source(uri: &str) -> UriMapping {
    let mut mapping = UriMapping::default();
    mapping.uri = Some(uri.to_string());
    mapping
}

fn rewrite(from: &str, to: &str, in_uri: &str) -> Option<String> {
    let mut mapping = source(from);
    mapping.target_uri = Some(to.to_string());
    if mapping.match_uri(in_uri).is_some() {
        mapping.build_target_uri(in_uri)
    } else {
        None
    }
}

#[test]
fn uri_mapping_serialize() {
    let mut mapping = UriMapping::default();
    mapping.methods = UriMapping::deserialize_method("GET,POST|put,*");
    mapping.mode = Some("Full".to_string());
    mapping.service = Some("test".to_string());
    mapping.target_protocol = Some("http".to_string());
    mapping.target_service = Some("test".to_string());
    mapping.target_uri = Some("http://127.0.0.1:8080".to_string());
    mapping.uri = Some("/test".to_string());
    mapping.var_pattern = Some("test".to_string());
    assert_eq!(mapping.methods, vec!["*", "GET", "POST", "PUT"]);
    assert_eq!(mapping.mode, Some("Full".to_string()));
    assert_eq!(mapping.service, Some("test".to_string()));
}

#[test]
fn method_list_round_trip_text() {
    let methods = UriMapping::deserialize_method("put|get");
    assert_eq!(methods, vec!["GET", "PUT"]);
    assert_eq!(UriMapping::serialize_method(&methods), "GET,PUT");
    assert_eq!(UriMapping::serialize_method(&Vec::new()), "");
    assert_eq!(UriMapping::deserialize_method(""), vec![""]);
    assert_eq!(UriMapping::deserialize_method("a,,b"), vec!["", "A", "B"]);
}

#[test]
fn method_names_are_upper_cased() {
    assert_eq!(UriMapping::deserialize_method("delete"), vec!["DELETE"]);
}

#[test]
fn exact_match_root() {
    assert_eq!(source("/").match_uri("/"), Some(UriMatch::Exact));
}

#[test]
fn prefix_match_with_root() {
    assert_eq!(source("/").match_uri("/test"), Some(UriMatch::Prefix));
}

#[test]
fn prefix_match_with_users() {
    assert_eq!(source("/api/users").match_uri("/api/users/123"), Some(UriMatch::Prefix));
}

#[test]
fn prefix_needs_a_slash_boundary() {
    assert_eq!(source("/api/users").match_uri("/api/usersx"), None);
    assert_eq!(source("/api/users/").match_uri("/api/users/1"), Some(UriMatch::Prefix));
}

#[test]
fn exact_match_of_literal_pattern() {
    assert_eq!(source("/api/users").match_uri("/api/users"), Some(UriMatch::Exact));
    assert_eq!(
        source("/api/users/{id}").match_uri("/api/users/{id}"),
        Some(UriMatch::Exact)
    );
}

#[test]
fn mapping_without_uri_never_matches() {
    assert_eq!(UriMapping::default().match_uri("/"), None);
}

#[test]
fn variable_match() {
    assert_eq!(source("/api/users/{id}").match_uri("/api/users/123"), Some(UriMatch::Variable));
}

#[test]
fn variable_regex_match() {
    assert_eq!(
        source("/api/users/{id:[0-9]+}").match_uri("/api/users/123"),
        Some(UriMatch::Variable)
    );
}

#[test]
fn variable_match_with_nums() {
    assert_eq!(
        source("/api/users/{id:[0-9]+}").match_uri("/api/users/123/details"),
        Some(UriMatch::VariablePrefix)
    );
}

#[test]
fn variable_match_with_nums_and_slash_pattern() {
    assert_eq!(
        source("/api/users/{id:[0-9]+}/").match_uri("/api/users/123/details"),
        Some(UriMatch::VariablePrefix)
    );
}

#[test]
fn trailing_slash_pattern_rejects_bare_path() {
    assert_eq!(source("/api/users/{id:[0-9]+}/").match_uri("/api/users/123"), None);
}

#[test]
fn trailing_slash_pattern_accepts_slashed_path() {
    assert_eq!(
        source("/api/users/{id:[0-9]+}/").match_uri("/api/users/123/"),
        Some(UriMatch::Variable)
    );
}

#[test]
fn variable_match_with_non_nums() {
    assert_eq!(source("/api/users/{id:[0-9]+}").match_uri("/api/users/abc"), None);
}

#[test]
fn variable_match_with_more_path() {
    assert_eq!(
        source("/api/users/{id:[0-9]+}/records/{rid:[0-9a-z]+}")
            .match_uri("/api/users/123/records/789abc"),
        Some(UriMatch::Variable)
    );
    assert_eq!(
        source("/api/users/{id:[0-9]+}/records/{rid:[0-9]+}")
            .match_uri("/api/users/123456789/records/987654321"),
        Some(UriMatch::Variable)
    );
}

#[test]
fn invalid_variable_regex_never_matches() {
    assert_eq!(source("/a/{id:[0-9}").match_uri("/a/1"), None);
}

#[test]
fn user_record_transform() {
    assert_eq!(
        rewrite(
            "/api/users/{id:[0-9]+}/records/{rid:[0-9]+}",
            "/user/{id}/record/{rid}",
            "/api/users/123/records/456"
        ),
        Some("/user/123/record/456".to_string())
    );
}

#[test]
fn user_record_transform_with_switch() {
    assert_eq!(
        rewrite("/api/users/{rid}/records/{id}", "/record/{id}/user/{rid}", "/api/users/123/records/456"),
        Some("/record/456/user/123".to_string())
    );
}

#[test]
fn uuid_in_path() {
    assert_eq!(
        rewrite(
            "/api/users/{rid}/records/{id}",
            "/record/{id}/user/{rid}",
            "/api/users/123-456-789/records/456-789-123"
        ),
        Some("/record/456-789-123/user/123-456-789".to_string())
    );
}

#[test]
fn uuid_in_path_with_variable_prefix() {
    assert_eq!(
        rewrite(
            "/api/users/{rid}/records/{id}",
            "/record/{id}/user/{rid}",
            "/api/users/123-456-789/records/456-789-123/abc"
        ),
        Some("/record/456-789-123/user/123-456-789/abc".to_string())
    );
}

#[test]
fn uuid_in_path_with_variable_prefix_with_slash_end() {
    assert_eq!(
        rewrite(
            "/api/users/{rid}/records/{id}/",
            "/record/{id}/user/{rid}/",
            "/api/users/123-456-789/records/456-789-123/abc"
        ),
        Some("/record/456-789-123/user/123-456-789/abc".to_string())
    );
}

#[test]
fn uuid_in_path_with_target_slash_end() {
    assert_eq!(
        rewrite(
            "/api/users/{rid}/records/{id}",
            "/record/{id}/user/{rid}/",
            "/api/users/123-456-789/records/456-789-123/abc"
        ),
        Some("/record/456-789-123/user/123-456-789/abc".to_string())
    );
}

#[test]
fn uuid_in_path_with_source_slash_end() {
    assert_eq!(
        rewrite(
            "/api/users/{rid}/records/{id}/",
            "/record/{id}/user/{rid}",
            "/api/users/123-456-789/records/456-789-123/abc"
        ),
        Some("/record/456-789-123/user/123-456-789/abc".to_string())
    );
}

#[test]
fn rewrite_exact_gives_target() {
    assert_eq!(rewrite("/a", "/b/c", "/a"), Some("/b/c".to_string()));
}

#[test]
fn rewrite_prefix_replaces_first_occurrence() {
    assert_eq!(rewrite("/api", "/v2", "/api/users/api"), Some("/v2/users/api".to_string()));
}

#[test]
fn rewrite_with_unknown_target_variable_fails() {
    assert_eq!(rewrite("/a/{id}", "/b/{other}", "/a/1"), None);
}

#[test]
fn rewrite_without_match_is_none() {
    let mut mapping = source("/a");
    mapping.target_uri = Some("/b".to_string());
    assert_eq!(mapping.build_target_uri("/c"), None);
}

#[test]
fn classify_from_given_groups() {
    // groups: whole match, the variable `123`
    let g = vec![Some((0, 14)), Some((11, 14))];
    assert_eq!(classify_captures("/api/users/123", &g), Some(UriMatch::Variable));
    assert_eq!(classify_captures("/api/users/123/", &g), Some(UriMatch::Variable));
    assert_eq!(classify_captures("/api/users/123/x", &g), Some(UriMatch::VariablePrefix));
    let inside = vec![Some((0, 3)), Some((1, 2))];
    assert_eq!(classify_captures("/é", &inside), None);
}

#[test]
fn substitute_from_given_groups() {
    let g = vec![Some((0, 25)), Some((5, 8)), Some((17, 20))];
    assert_eq!(
        substitute_captures("/api/{a}/records/{b}", "/x/{b}/{a}", "/api/123/records/456/rest", &g),
        Some("/x/456/123/rest".to_string())
    );
    let missing = vec![Some((0, 25)), None, Some((17, 20))];
    assert_eq!(
        substitute_captures("/api/{a}/records/{b}", "/x/{b}/{a}", "/api/123/records/456/rest", &missing),
        None
    );
}

#[test]
fn method_matching_is_case_insensitive() {
    let mut mapping = UriMapping::default();
    mapping.methods = vec!["GET".to_string(), "POST".to_string()];
    assert!(mapping.supports_method("get"));
    assert!(mapping.supports_method("Post"));
    assert!(!mapping.supports_method("PUT"));
}

#[test]
fn wildcard_and_unset_methods_match_everything() {
    let mut mapping = UriMapping::default();
    assert!(mapping.supports_method("PATCH"));
    mapping.methods = vec!["*".to_string()];
    assert!(mapping.supports_method("DELETE"));
    assert!(mapping.supports_method("anything"));
}

#[test]
fn route_table_picks_first_applicable() {
    let mut a = source("/api/{id}");
    a.methods = vec!["POST".to_string()];
    a.target_uri = Some("/post/{id}".to_string());
    let mut b = source("/api/{id}");
    b.target_uri = Some("/any/{id}".to_string());
    let mut c = source("/api/{id}");
    c.target_uri = Some("/never/{id}".to_string());
    let table = RouteTable::new(&vec![a, b, c]);
    assert_eq!(table.resolve("get", "/api/7"), Some((1, "/any/7".to_string())));
    assert_eq!(table.resolve("post", "/api/7"), Some((0, "/post/7".to_string())));
    assert_eq!(table.resolve("get", "/other"), None);
}

#[test]
fn route_table_skips_failed_rewrites() {
    let mut a = source("/api/{id}");
    a.target_uri = Some("/x/{missing}".to_string());
    let mut b = source("/api");
    b.target_uri = Some("/fallback".to_string());
    let table = RouteTable::new(&vec![a, b]);
    assert_eq!(table.resolve("GET", "/api/9"), Some((1, "/fallback/9".to_string())));
}

#[test]
fn pattern_with_several_trailing_slashes_is_normalised() {
    assert_eq!(source("/a//").match_uri("/a/x"), Some(UriMatch::Prefix));
    assert_eq!(source("/a//").match_uri("/a//x"), Some(UriMatch::Prefix));
    assert_eq!(source("/a//").match_uri("/ax"), None);
}

#[test]
fn unicode_variable_names() {
    let vars = UriMapping::uri_variable("/{é}/{ναμε:[0-9]+}");
    assert_eq!(vars.len(), 2);
    assert_eq!(vars[0].name, "é");
    assert_eq!(vars[0].pattern, None);
    assert_eq!(vars[0].index, 1);
    assert_eq!(vars[1].name, "ναμε");
    assert_eq!(vars[1].pattern, Some("[0-9]+".to_string()));
    assert_eq!(vars[1].index, 2);
    assert_eq!(rewrite("/api/{é}", "/t/{é}", "/api/5"), Some("/t/5".to_string()));
}

#[test]
fn names_stop_at_non_word_characters() {
    assert!(UriMapping::uri_variable("/{a-b}").len() == 1);
    assert_eq!(UriMapping::uri_variable("/{a-b}")[0].name, "a");
    assert!(UriMapping::uri_variable("/{-a}").is_empty());
    assert!(UriMapping::uri_variable("/api/users").is_empty());
}

#[test]
fn remainder_starts_after_last_variable() {
    assert_eq!(source("/a/{id}/b").match_uri("/a/5/b"), Some(UriMatch::VariablePrefix));
    assert_eq!(rewrite("/a/{id}/b", "/t/{id}", "/a/5/b/x"), Some("/t/5/b/x".to_string()));
    assert_eq!(rewrite("/a/{id}/b", "/t/{id}", "/a/5/b"), Some("/t/5/b".to_string()));
}

#[test]
fn variable_match_appends_nothing() {
    assert_eq!(rewrite("/a/{id}", "/t/{id}", "/a/5/"), Some("/t/5".to_string()));
    assert_eq!(rewrite("/a/{id}", "/t/{id}/", "/a/5"), Some("/t/5/".to_string()));
}

#[test]
fn remainder_joined_by_one_slash() {
    assert_eq!(rewrite("/a/{id}", "/t/{id}//", "/a/5//x"), Some("/t/5/x".to_string()));
}

#[test]
fn sorts_upper_cased_methods() {
    let v = vec!["PUT".to_string(), "GET".to_string(), "*".to_string(), "DELETE".to_string()];
    assert_eq!(sort_methods(&v), vec!["*", "DELETE", "GET", "PUT"]);
    assert!(sort_methods(&Vec::new()).is_empty());
}
