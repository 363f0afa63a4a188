use quest::merge::merge_into;
use quest::wire::url_text_fits;
use quest::{
    check_substituted, env_get, has_placeholder, substitute, ConfiguredKeyValue, Method, Quest,
    QuestError, QuestFile, RequestBody,
};

fn s(x: &str) -> String {
    x.to_string()
}

fn lit(name: &str, value: &str) -> ConfiguredKeyValue {
    ConfiguredKeyValue::Value { name: s(name), value: s(value) }
}

fn from_env(name: &str, var: &str) -> ConfiguredKeyValue {
    ConfiguredKeyValue::ValueFromEnv { name: s(name), value_from_env: s(var) }
}

fn pair(k: &str, v: &str) -> (String, String) {
    (s(k), s(v))
}

fn quest(name: &str, method: Method, url: &str) -> Quest {
    Quest {
        name: s(name),
        method,
        url: s(url),
        vars: vec![],
        headers: vec![],
        params: vec![],
        json: None,
        body: None,
    }
}

fn file(quests: Vec<Quest>) -> QuestFile {
    QuestFile { headers: vec![], vars: vec![], params: vec![], quests }
}

fn id_template() -> QuestFile {
    let mut q = quest("item", Method::Get, "https://api.example/${id}");
    q.vars = vec![lit("id", "42")];
    file(vec![q])
}

#[test]
fn layer_precedence_cli_then_quest_then_global() {
    let mut f = file(vec![]);
    f.vars = vec![lit("a", "g"), lit("b", "g"), lit("c", "g")];
    let mut q = quest("q", Method::Get, "https://x.example/");
    q.vars = vec![lit("a", "q"), lit("b", "q")];
    let r = f.vars(&q, vec![pair("a", "c")], &vec![]).unwrap();
    assert_eq!(r, vec![pair("a", "c"), pair("b", "q"), pair("c", "g")]);
}

#[test]
fn merge_keeps_first_seen_order() {
    let mut m: Vec<(String, String)> = Vec::new();
    merge_into(&mut m, vec![pair("a", "1"), pair("b", "2")]);
    merge_into(&mut m, vec![pair("a", "3")]);
    assert_eq!(m, vec![pair("a", "3"), pair("b", "2")]);
}

#[test]
fn later_entry_in_one_layer_wins() {
    let f = file(vec![]);
    let q = quest("q", Method::Get, "https://x.example/");
    let r = f.params(&q, vec![pair("k", "1"), pair("k", "2")], &vec![]).unwrap();
    assert_eq!(r, vec![pair("k", "2")]);
}

#[test]
fn substitute_fills_placeholder() {
    assert_eq!(substitute(&s("${X}"), &vec![pair("X", "5")]).unwrap(), "5");
}

#[test]
fn substitute_without_key_is_unresolved() {
    let r = substitute(&s("${X}"), &vec![]);
    assert!(matches!(r, Err(QuestError::UnresolvedPlaceholder)));
    let r = substitute(&s("${X}"), &vec![pair("Y", "1")]);
    assert!(matches!(r, Err(QuestError::UnresolvedPlaceholder)));
}

#[test]
fn substitute_refuses_braces_in_values() {
    let r = substitute(&s("${X}"), &vec![pair("X", "{1}")]);
    assert!(matches!(r, Err(QuestError::FailedToSubstituteVariables)));
}

#[test]
fn placeholder_detection() {
    assert!(has_placeholder("a${X}b"));
    assert!(has_placeholder("${}"));
    assert!(!has_placeholder("plain"));
    assert!(!has_placeholder("}${"));
    assert!(!has_placeholder("$ {x}"));
    assert!(matches!(check_substituted(s("ok")), Ok(t) if t == "ok"));
    assert!(matches!(check_substituted(s("x/${y}")), Err(QuestError::UnresolvedPlaceholder)));
}

#[test]
fn header_override_ignores_case() {
    let mut f = file(vec![]);
    f.headers = vec![lit("Content-Type", "application/json")];
    let q = quest("q", Method::Get, "https://x.example/");
    let h = f.headers(&q, vec![pair("content-type", "text/plain")], &vec![]).unwrap();
    assert_eq!(h, vec![pair("content-type", "text/plain")]);
}

#[test]
fn header_names_are_lowercased() {
    let mut q = quest("q", Method::Get, "https://x.example/");
    q.headers = vec![lit("X-Trace-ID", "abc")];
    let f = file(vec![]);
    let h = f.headers(&q, vec![], &vec![]).unwrap();
    assert_eq!(h, vec![pair("x-trace-id", "abc")]);
}

#[test]
fn header_value_with_newline_is_refused() {
    let f = file(vec![]);
    let q = quest("q", Method::Get, "https://x.example/");
    let r = f.headers(&q, vec![pair("x-a", "bad\nvalue")], &vec![]);
    assert!(matches!(r, Err(QuestError::InvalidHeaderValue(v)) if v == "bad\nvalue"));
}

#[test]
fn header_name_with_space_is_refused() {
    let f = file(vec![]);
    let q = quest("q", Method::Get, "https://x.example/");
    let r = f.headers(&q, vec![pair("bad name", "v")], &vec![]);
    assert!(matches!(r, Err(QuestError::InvalidHeaderName(n)) if n == "bad name"));
}

#[test]
fn literal_value_ignores_environment() {
    let v = lit("k", "lit");
    assert_eq!(v.value(&vec![]).unwrap(), "lit");
    assert_eq!(v.value(&vec![pair("k", "other")]).unwrap(), "lit");
    assert_eq!(v.name(), "k");
}

#[test]
fn env_value_missing_fails() {
    let v = from_env("k", "FOO");
    let r = v.value(&vec![pair("BAR", "x")]);
    assert!(matches!(r, Err(QuestError::MissingEnvironmentVariable(n)) if n == "FOO"));
}

#[test]
fn env_value_set_resolves() {
    let v = from_env("k", "FOO");
    assert_eq!(v.value(&vec![pair("FOO", "bar")]).unwrap(), "bar");
}

#[test]
fn env_lookup_last_entry_wins() {
    let env = vec![pair("FOO", "1"), pair("BAR", "2"), pair("FOO", "3")];
    assert_eq!(env_get(&env, &s("FOO")), Some(s("3")));
    assert_eq!(env_get(&env, &s("BAR")), Some(s("2")));
    assert_eq!(env_get(&env, &s("BAZ")), None);
}

#[test]
fn retrieve_by_name() {
    let f = file(vec![
        quest("ping", Method::Get, "https://a.example/ping"),
        quest("pong", Method::Post, "https://a.example/pong"),
    ]);
    let q = f.retrieve("ping").unwrap();
    assert_eq!(q.name, "ping");
    assert_eq!(q.url, "https://a.example/ping");
    let r = f.retrieve("missing");
    assert!(matches!(r, Err(QuestError::MissingQuest(n)) if n == "missing"));
}

#[test]
fn retrieve_returns_first_duplicate() {
    let f = file(vec![
        quest("dup", Method::Get, "https://a.example/1"),
        quest("dup", Method::Get, "https://a.example/2"),
    ]);
    assert_eq!(f.retrieve("dup").unwrap().url, "https://a.example/1");
}

#[test]
fn end_to_end_defaults() {
    let f = id_template();
    let q = f.retrieve("item").unwrap();
    let req = f.request(q, vec![], vec![], vec![], &vec![]).unwrap();
    assert_eq!(req.url, "https://api.example/42");
    assert_eq!(req.method, Method::Get);
    assert!(req.body.is_none());
    assert!(req.headers.is_empty());
}

#[test]
fn end_to_end_cli_var_override() {
    let f = id_template();
    let q = f.retrieve("item").unwrap();
    let req = f.request(q, vec![pair("id", "99")], vec![], vec![], &vec![]).unwrap();
    assert_eq!(req.url, "https://api.example/99");
}

#[test]
fn cli_param_replaces_quest_param() {
    let mut q = quest("search", Method::Get, "https://api.example/search");
    q.params = vec![lit("q", "x")];
    let f = file(vec![q.clone()]);
    let u = f.url(&q, vec![], vec![pair("q", "y")], &vec![]).unwrap();
    assert_eq!(u, "https://api.example/search?q=y");
}

#[test]
fn params_are_encoded() {
    let q = quest("search", Method::Get, "https://api.example/s");
    let f = file(vec![]);
    let u = f.url(&q, vec![], vec![pair("q", "a b&c")], &vec![]).unwrap();
    assert_eq!(u, "https://api.example/s?q=a+b%26c");
}

#[test]
fn unparsable_url_is_refused() {
    let q = quest("bad", Method::Get, "not a url");
    let f = file(vec![]);
    assert!(matches!(f.url(&q, vec![], vec![], &vec![]), Err(QuestError::InvalidUrl)));
}

#[test]
fn missing_env_var_fails_the_request() {
    let mut q = quest("q", Method::Get, "https://api.example/${tok}");
    q.vars = vec![from_env("tok", "TOKEN")];
    let f = file(vec![]);
    let r = f.request(&q, vec![], vec![], vec![], &vec![]);
    assert!(matches!(r, Err(QuestError::MissingEnvironmentVariable(n)) if n == "TOKEN"));
    let ok = f.request(&q, vec![], vec![], vec![], &vec![pair("TOKEN", "t1")]).unwrap();
    assert_eq!(ok.url, "https://api.example/t1");
}

#[test]
fn json_body_wins_and_sets_content_type() {
    let mut q = quest("create", Method::Post, "https://api.example/items");
    q.json = Some(s("{\"a\":1}"));
    q.body = Some(s("raw"));
    q.headers = vec![lit("Accept", "*/*")];
    let f = file(vec![]);
    let req = f.request(&q, vec![], vec![], vec![], &vec![]).unwrap();
    assert!(matches!(req.body, Some(RequestBody::Json(ref j)) if j == "{\"a\":1}"));
    assert_eq!(req.headers, vec![pair("accept", "*/*"), pair("content-type", "application/json")]);
}

#[test]
fn raw_body_on_put() {
    let mut q = quest("put", Method::Put, "https://api.example/items/1");
    q.body = Some(s("raw"));
    let f = file(vec![]);
    let req = f.request(&q, vec![], vec![], vec![], &vec![]).unwrap();
    assert!(matches!(req.body, Some(RequestBody::Raw(ref b)) if b == "raw"));
    assert!(req.headers.is_empty());
}

#[test]
fn get_never_carries_a_body() {
    let mut q = quest("get", Method::Get, "https://api.example/items");
    q.json = Some(s("{}"));
    q.body = Some(s("raw"));
    let f = file(vec![]);
    let req = f.request(&q, vec![], vec![], vec![], &vec![]).unwrap();
    assert!(req.body.is_none());
    assert!(req.headers.is_empty());
}

#[test]
fn method_labels() {
    assert_eq!(Method::Get.pretty_string(), "GET");
    assert_eq!(Method::Delete.pretty_string(), "DELETE");
    assert_eq!(Method::Patch.pretty_string(), "PATCH");
    assert!(Method::Post.carries_body());
    assert!(!Method::Head.carries_body());
}

#[test]
fn listing_width_and_names() {
    let mut f = file(vec![
        quest("a", Method::Get, "https://a.example/"),
        quest("longer", Method::Get, "https://a.example/"),
    ]);
    assert_eq!(f.name_width(), 10);
    assert_eq!(file(vec![]).name_width(), 5);
    f.vars = vec![lit("host", "h"), lit("id", "1")];
    let mut q = quest("b", Method::Get, "https://a.example/");
    q.vars = vec![lit("id", "2"), lit("token", "t")];
    assert_eq!(f.var_names(&q), "host, id, token");
    assert_eq!(file(vec![]).var_names(&quest("c", Method::Get, "u")), "");
}

#[test]
fn url_without_params_is_normalised() {
    let q = quest("root", Method::Get, "HTTPS://API.example");
    let f = file(vec![]);
    assert_eq!(f.url(&q, vec![], vec![], &vec![]).unwrap(), "https://api.example/");
}

#[test]
fn url_size_bound() {
    assert!(url_text_fits(&s("https://a.example/"), &vec![pair("q", "y")]));
    assert!(url_text_fits(&s(""), &vec![]));
}

#[test]
fn substitute_without_vars_keeps_template() {
    assert_eq!(substitute(&s("https://a.example/x"), &vec![]).unwrap(), "https://a.example/x");
}

#[test]
fn query_appended_to_substituted_base() {
    let mut q = quest("search", Method::Get, "unused");
    q.params = vec![lit("q", "x"), lit("n", "1")];
    let f = file(vec![]);
    let u = f.with_query(&q, &s("https://api.example/s"), vec![pair("q", "y")], &vec![]).unwrap();
    assert_eq!(u, "https://api.example/s?q=y&n=1");
    let plain = quest("plain", Method::Get, "unused");
    assert_eq!(f.with_query(&plain, &s("https://api.example/s"), vec![], &vec![]).unwrap(), "https://api.example/s");
    assert!(matches!(f.with_query(&plain, &s("no url"), vec![], &vec![]), Err(QuestError::InvalidUrl)));
}

#[test]
fn overwritten_value_is_not_checked() {
    let r = substitute(&s("${a}"), &vec![pair("a", "$"), pair("a", "x")]);
    assert_eq!(r.unwrap(), "x");
    let r = substitute(&s("${a}"), &vec![pair("a", "x"), pair("a", "$")]);
    assert!(matches!(r, Err(QuestError::FailedToSubstituteVariables)));
}
