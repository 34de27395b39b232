use marcel_ssh::{
    build_menu_entries, check_http_url, check_menu_popup, default_method, guess_mime,
    request_method, resolve_http_request, AppError, HttpMethod, MenuEntry, MenuItemDef,
    PluginHttpRequest, PluginMenus, PluginRoute, PluginWindows, MAX_WINDOWS_PER_PLUGIN,
    parse_plugin_api_call, route_plugin_request, JsonValue, PluginApiCall,
};
use std::collections::HashMap;

#[test]
fn default_method_is_get() {
    assert_eq!(default_method(), "GET");
}

#[test]
fn window_limit_per_plugin() {
    let mut w = PluginWindows::new();
    assert_eq!(w.reserve("p", "w1").unwrap(), true);
    assert_eq!(w.reserve("p", "w1").unwrap(), false);
    assert!(w.reserve("p", "w2").unwrap());
    assert!(w.reserve("p", "w3").unwrap());
    assert_eq!(MAX_WINDOWS_PER_PLUGIN, 3);
    assert_eq!(
        w.reserve("p", "w4").unwrap_err(),
        AppError::Other("plugin \"p\" already has the maximum of 3 independent windows".into())
    );
    assert!(w.reserve("q", "w4").unwrap());
    assert!(w.owns_window("p", "w2"));
    assert!(!w.owns_window("q", "w2"));
    w.remove_window("p", "w2");
    assert!(!w.owns_window("p", "w2"));
    assert!(w.reserve("p", "w5").unwrap());
    w.remove_window("q", "w4");
    assert!(!w.owns_window("q", "w4"));
    let mut labels = w.all_labels();
    labels.sort();
    assert_eq!(labels, vec!["w1", "w3", "w5"]);
}

fn item(id: &str, sep: bool, disabled: bool) -> MenuItemDef {
    MenuItemDef { action_id: id.into(), label: format!("L-{id}"), disabled, separator_before: sep }
}

#[test]
fn menus_register_replace_and_pop() {
    let mut m = PluginMenus::new();
    m.register("p".into(), vec![item("a", false, false)]);
    m.register("p".into(), vec![item("b", false, false), item("c", true, true)]);
    let items: Vec<MenuItemDef> = m
        .entries
        .iter()
        .filter(|(id, _)| id == "p")
        .flat_map(|(_, v)| v.clone())
        .collect();
    assert_eq!(items.len(), 2);
    let entries = build_menu_entries(&items);
    assert_eq!(
        entries,
        vec![
            MenuEntry::Item { action_id: "b".into(), label: "L-b".into(), enabled: true },
            MenuEntry::Separator,
            MenuEntry::Item { action_id: "c".into(), label: "L-c".into(), enabled: false },
        ]
    );
    m.unregister("p");
    assert!(m.entries.is_empty());
    assert!(m.mark_wired("w1"));
    assert!(!m.mark_wired("w1"));
}

#[test]
fn popup_needs_owned_window_and_items() {
    let mut w = PluginWindows::new();
    w.reserve("p", "win").unwrap();
    assert_eq!(
        check_menu_popup(&w, "p", "other", &vec![item("a", false, false)]).unwrap_err(),
        AppError::Other("plugin \"p\" does not own window \"other\"".into())
    );
    assert_eq!(
        check_menu_popup(&w, "p", "win", &vec![]).unwrap_err(),
        AppError::Other("plugin \"p\" has no menu items registered".into())
    );
    assert!(check_menu_popup(&w, "p", "win", &vec![item("a", false, false)]).is_ok());
}

#[test]
fn http_requests_on_behalf_of_plugins() {
    let req = resolve_http_request(None, Some("https://x".into()), None, None, None).unwrap();
    assert_eq!(req.method, "GET");
    assert!(req.headers.is_empty());
    let given = PluginHttpRequest {
        url: "u".into(),
        method: "POST".into(),
        headers: HashMap::new(),
        body: Some("b".into()),
    };
    let req = resolve_http_request(Some(given), Some("ignored".into()), None, None, None).unwrap();
    assert_eq!(req.url, "u");
    assert_eq!(
        resolve_http_request(None, None, None, None, None).unwrap_err(),
        AppError::Other("missing required key request or url".into())
    );
    assert!(check_http_url("http://a").is_ok());
    assert!(check_http_url(" https://a").is_err());
    assert_eq!(request_method("post"), HttpMethod::Post);
    assert_eq!(request_method("Delete"), HttpMethod::Delete);
    assert_eq!(request_method("fetch"), HttpMethod::Get);
}

#[test]
fn mime_types_of_served_files() {
    assert_eq!(guess_mime("/plugins/a/index.html"), "text/html; charset=utf-8");
    assert_eq!(guess_mime("main.js"), "application/javascript; charset=utf-8");
    assert_eq!(guess_mime("x/photo.JPG"), "application/octet-stream");
    assert_eq!(guess_mime("x/photo.jpeg"), "image/jpeg");
    assert_eq!(guess_mime(".html"), "application/octet-stream");
    assert_eq!(guess_mime("README"), "application/octet-stream");
}

#[test]
fn routes_plugin_requests() {
    assert_eq!(route_plugin_request(false, "/index.html", "GET"), PluginRoute::Disabled);
    assert_eq!(route_plugin_request(true, "/api/fs.read", "OPTIONS"), PluginRoute::Preflight);
    assert_eq!(route_plugin_request(true, "/api/", "OPTIONS"), PluginRoute::Preflight);
    assert_eq!(
        route_plugin_request(true, "/api/fs.read", "POST"),
        PluginRoute::Api("fs.read".into())
    );
    assert_eq!(route_plugin_request(true, "/api/", "GET"), PluginRoute::Resource("api/".into()));
    assert_eq!(route_plugin_request(true, "/", "GET"), PluginRoute::Resource("index.html".into()));
    assert_eq!(route_plugin_request(true, "", "GET"), PluginRoute::Resource("index.html".into()));
    assert_eq!(
        route_plugin_request(true, "//dist/app.js", "GET"),
        PluginRoute::Resource("dist/app.js".into())
    );
}

fn obj(members: Vec<(&str, JsonValue)>) -> JsonValue {
    JsonValue::Object(members.into_iter().map(|(k, v)| (k.to_string(), v)).collect())
}

fn text(s: &str) -> JsonValue {
    JsonValue::Str(s.to_string())
}

#[test]
fn reads_plugin_api_calls() {
    let none = obj(vec![]);
    assert_eq!(parse_plugin_api_call("session.active", &none), Ok(PluginApiCall::SessionActive));
    assert_eq!(parse_plugin_api_call("session.info", &none), Ok(PluginApiCall::NullAnswer));
    assert_eq!(
        parse_plugin_api_call("session.info", &obj(vec![("sessionId", text("s1"))])),
        Ok(PluginApiCall::SessionInfo("s1".into()))
    );
    assert_eq!(
        parse_plugin_api_call("connection.info", &obj(vec![("connectionId", JsonValue::Number(Some(3)))])),
        Ok(PluginApiCall::NullAnswer)
    );
    assert_eq!(parse_plugin_api_call("connection.list", &JsonValue::Null), Ok(PluginApiCall::ConnectionList));
    assert_eq!(
        parse_plugin_api_call("ssh_exec", &obj(vec![("sessionId", text("s1"))])),
        Err("sessionId and command required".to_string())
    );
    assert_eq!(
        parse_plugin_api_call("ssh_exec", &obj(vec![("sessionId", text("s1")), ("command", text("ls"))])),
        Ok(PluginApiCall::SshExec { session_id: "s1".into(), command: "ls".into() })
    );
    assert_eq!(
        parse_plugin_api_call("fs.read", &obj(vec![("path", text("notes.md"))])),
        Ok(PluginApiCall::FsRead("notes.md".into()))
    );
    assert_eq!(
        parse_plugin_api_call("plugin_fs_write", &obj(vec![("path", text("a")), ("content", text("b"))])),
        Ok(PluginApiCall::FsWrite { path: "a".into(), content: "b".into() })
    );
    assert_eq!(
        parse_plugin_api_call("notification", &obj(vec![("title", text("t"))])),
        Ok(PluginApiCall::Notification { title: "t".into(), text: "".into() })
    );
    assert_eq!(
        parse_plugin_api_call("window.open", &none),
        Err("unhandled command: window.open".to_string())
    );
}

#[test]
fn reads_plugin_http_calls() {
    let args = obj(vec![
        ("url", text("https://example.com")),
        ("headers", obj(vec![("Accept", text("*/*")), ("X-Num", JsonValue::Number(Some(1)))])),
        ("body", text("{}")),
    ]);
    assert_eq!(
        parse_plugin_api_call("net.request", &args),
        Ok(PluginApiCall::NetRequest {
            url: "https://example.com".into(),
            method: "GET".into(),
            headers: vec![("Accept".into(), "*/*".into())],
            body: Some("{}".into()),
        })
    );
    let args = obj(vec![("url", text("u")), ("method", text("POST")), ("headers", text("x"))]);
    assert_eq!(
        parse_plugin_api_call("plugin_http_request", &args),
        Ok(PluginApiCall::NetRequest { url: "u".into(), method: "POST".into(), headers: vec![], body: None })
    );
}
