use launcher::frecency::FrecencyStore;
use launcher::plugin::{ExecutionResult, LauncherPlugin, SearchResult};
use launcher::router::{rank_results, SearchRouter};
use launcher::web::{percent_encode_bytes, WebAction, WebSearchPlugin};

#[test]
fn test_web_accepts() {
    let plugin = WebSearchPlugin::new();
    assert!(plugin.accepts("!g rust docs"));
    assert!(plugin.accepts("? what is wayland"));
    assert!(plugin.accepts("!gh gtk-rs"));
    assert!(!plugin.accepts("google rust docs")); // no prefix
}

#[test]
fn test_web_query() {
    let plugin = WebSearchPlugin::new();
    let results = plugin.query("!g modular launcher");
    assert_eq!(results.len(), 1);
    assert_eq!(results[0].title, "Search Google for 'modular launcher'");
    assert_eq!(results[0].id, "web:Google:modular launcher");
}

#[test]
fn web_query_without_term_offers_engine() {
    let plugin = WebSearchPlugin::new();
    let results = plugin.query("  !ddg");
    assert_eq!(results.len(), 1);
    assert_eq!(results[0].id, "web:DuckDuckGo:");
    assert_eq!(results[0].title, "Search on DuckDuckGo");
    assert_eq!(results[0].score, 900);
    assert!(plugin.query("!gx foo").is_empty());
    assert!(!plugin.accepts("!gfoo"));
}

#[test]
fn web_resolve_encodes_term() {
    let plugin = WebSearchPlugin::new();
    match plugin.resolve("web:Google:rust & gtk/ä") {
        WebAction::Open(url) => {
            assert_eq!(url, "https://www.google.com/search?q=rust+%26+gtk%2F%C3%A4")
        }
        _ => panic!("expected a URL"),
    }
    assert!(matches!(plugin.resolve("web:Google:"), WebAction::KeepOpen));
    assert!(matches!(plugin.resolve("web:Google"), WebAction::KeepOpen));
    match plugin.resolve("web:Bing:x") {
        WebAction::Error(m) => assert_eq!(m, "Unknown search engine: Bing"),
        _ => panic!("expected an error"),
    }
    match plugin.resolve("calc:1") {
        WebAction::Error(m) => assert_eq!(m, "Invalid web search action ID"),
        _ => panic!("expected an error"),
    }
}

#[test]
fn percent_encoding_of_bytes() {
    let enc: String = percent_encode_bytes("a b-_.~/".as_bytes()).into_iter().collect();
    assert_eq!(enc, "a+b-_.~%2F");
}

struct MockPlugin {
    id: &'static str,
}

impl LauncherPlugin for MockPlugin {
    fn id(&self) -> &str {
        self.id
    }
    fn accepts(&self, query: &str) -> bool {
        query == "test"
    }
    fn query(&self, _query: &str) -> Vec<SearchResult> {
        vec![SearchResult {
            id: format!("{}:item", self.id),
            title: "Mock Title".to_string(),
            description: None,
            icon: None,
            score: 10,
            last_used: None,
        }]
    }
    fn execute(&self, _result_id: &str, _shift_pressed: bool) -> ExecutionResult {
        ExecutionResult::CloseLauncher
    }
}

#[test]
fn test_router_query_routing() {
    let frecency = FrecencyStore::default();
    let plugins: Vec<MockPlugin> = vec![
        MockPlugin { id: "sys" }, // maps to system in execute prefix logic
    ];
    let router = SearchRouter::new(frecency, plugins);

    let results = router.query("test", |_| 0);
    assert_eq!(results.len(), 1);
    assert_eq!(results[0].id, "sys:item");

    let empty_results = router.query("different", |_| 0);
    assert_eq!(empty_results.len(), 1);
    assert_eq!(empty_results[0].title, "Search Google for 'different'");
    assert!(empty_results[0].id.starts_with("web:Google:"));
}

#[test]
fn router_boost_reorders_and_prefix_gates() {
    let router = SearchRouter::new(FrecencyStore::default(), vec![MockPlugin { id: "system" }]);
    let boosted = router.query("  test ", |id| if id == "system:item" { 1000 } else { 0 });
    assert_eq!(boosted[0].score, 1010);
    // a `!` query only reaches the web search plugin
    let gated = router.query("!test", |_| 0);
    assert_eq!(gated.len(), 1);
    assert_eq!(gated[0].id, "web:Google:!test");
    assert!(router.query("   ", |_| 0).is_empty());
}

#[test]
fn router_execute_records_launch() {
    let mut router = SearchRouter::new(FrecencyStore::default(), vec![MockPlugin { id: "system" }]);
    assert_eq!(router.execute("sys:lock", false), ExecutionResult::CloseLauncher);
    assert_eq!(router.frecency().launches("sys:lock").len(), 1);
    assert_eq!(
        router.execute("zzz", false),
        ExecutionResult::Error("Unknown execution action prefix".to_string())
    );
    assert_eq!(
        router.execute("calc:2", false),
        ExecutionResult::Error("Executor plugin 'calculator' not found".to_string())
    );
    assert_eq!(router.frecency().launches("calc:2").len(), 0);
}

#[test]
fn router_execute_without_owner_plugin() {
    let mut router = SearchRouter::new(FrecencyStore::default(), vec![MockPlugin { id: "sys" }]);
    assert_eq!(
        router.execute("sys:item", false),
        ExecutionResult::Error("Executor plugin 'system' not found".to_string())
    );
    assert_eq!(
        router.execute("foo:1", false),
        ExecutionResult::Error("Unknown execution action prefix".to_string())
    );
    assert_eq!(router.frecency().launches("sys:item").len(), 0);
}

fn result(id: &str, score: i32) -> SearchResult {
    SearchResult {
        id: id.to_string(),
        title: id.to_string(),
        description: None,
        icon: None,
        score,
        last_used: None,
    }
}

#[test]
fn ranking_is_stable_descending_and_capped() {
    let merged: Vec<SearchResult> = (0..20).map(|i| result(&format!("r{}", i), (i % 3) as i32)).collect();
    let ranked = rank_results("q", merged);
    assert_eq!(ranked.len(), 15);
    for w in ranked.windows(2) {
        assert!(w[0].score >= w[1].score);
    }
    assert_eq!(ranked[0].id, "r2");
    assert_eq!(ranked[1].id, "r5");
    assert!(rank_results("", vec![]).is_empty());
}

#[test]
fn frecency_keeps_recent_launches() {
    let mut store = FrecencyStore::default();
    for t in 0..60u64 {
        store.register_use_at("app:x", t);
    }
    let l = store.launches("app:x");
    assert_eq!(l.len(), 50);
    assert_eq!(l[0], 10);
    assert_eq!(l[49], 59);
    assert!(store.launches("app:y").is_empty());
    assert_eq!(store.ids().len(), 1);
}

#[test]
fn router_without_plugins_offers_only_the_fallback() {
    let router: SearchRouter<MockPlugin> = SearchRouter::new(FrecencyStore::new(), Vec::new());
    let r = router.query(" rust ", |_| 5);
    assert_eq!(r.len(), 1);
    assert_eq!(r[0].id, "web:Google:rust");
    assert_eq!(r[0].score, 100);
    assert!(router.query("", |_| 5).is_empty());
}

#[test]
fn ranking_keeps_plugin_order_among_equal_scores() {
    let ranked = rank_results(
        "q",
        vec![result("a", 5), result("b", 7), result("c", 5), result("d", 7)],
    );
    let ids: Vec<&str> = ranked.iter().map(|r| r.id.as_str()).collect();
    assert_eq!(ids, vec!["b", "d", "a", "c"]);
}

#[test]
fn ranking_keeps_the_highest_scores() {
    let all: Vec<SearchResult> = (0..16).map(|i| result(&format!("r{}", i), i)).collect();
    let ranked = rank_results("q", all);
    assert_eq!(ranked.len(), 15);
    assert_eq!(ranked[0].score, 15);
    assert_eq!(ranked[14].score, 1);
    assert!(ranked.iter().all(|r| r.id != "r0"));
}

#[test]
fn every_engine_prefix_addresses_its_engine() {
    let plugin = WebSearchPlugin::new();
    for (prefix, name) in [
        ("!g", "Google"),
        ("!ddg", "DuckDuckGo"),
        ("!w", "Wikipedia"),
        ("!gh", "GitHub"),
        ("?", "DuckDuckGo Search"),
    ] {
        assert!(plugin.accepts(prefix));
        let results = plugin.query(&format!("{} x", prefix));
        assert_eq!(results[0].id, format!("web:{}:x", name));
    }
    assert!(!plugin.accepts("!gx"));
    assert!(!plugin.accepts("?x"));
    assert!(plugin.accepts("   !w"));
}
