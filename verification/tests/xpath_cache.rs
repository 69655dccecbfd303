use element_selector::cache::{app_prefix_of, clear_xpath_cache, xpath_cache_stats, CompiledStrategy, XPathCache};

#[test]
fn application_prefixes() {
    assert_eq!(app_prefix_of("Chrome_WidgetWin_0"), "Chrome");
    assert_eq!(app_prefix_of("mmui::MainWindow"), "mmui");
    assert_eq!(app_prefix_of("Notepad"), "Notepad");
    assert_eq!(app_prefix_of(""), "");
}

#[test]
fn lookup_after_store_gives_stored_strategy() {
    let mut c = XPathCache::new();
    assert_eq!(xpath_cache_stats(&c), (0, 0));
    assert!(c.lookup("//Button", "Chrome").is_none());
    c.store("//Button", "Chrome", CompiledStrategy::ChildHwndEnum(2), 40);
    let e = c.lookup("//Button", "Chrome").expect("stored");
    assert_eq!(e.strategy, CompiledStrategy::ChildHwndEnum(2));
    assert_eq!(e.avg_time_ms, 40);
    assert_eq!(e.hit_count, 1);
    assert!(c.lookup("//Button", "Edge").is_none());
    assert_eq!(xpath_cache_stats(&c), (1, 1));
    assert_eq!(c.prior_average("//Button", "Chrome"), Some(40));
    assert_eq!(c.prior_average("//Text", "Chrome"), None);
}

#[test]
fn storing_again_keeps_hits_and_replaces_strategy() {
    let mut c = XPathCache::new();
    c.store("/A", "app", CompiledStrategy::RawViewBfs, 10);
    c.lookup("/A", "app");
    c.lookup("/A", "app");
    c.store("/A", "app", CompiledStrategy::ContentRoot, 20);
    assert_eq!(c.len(), 1);
    let e = c.lookup("/A", "app").unwrap();
    assert_eq!(e.strategy, CompiledStrategy::ContentRoot);
    assert_eq!(e.avg_time_ms, 20);
    assert_eq!(e.hit_count, 3);
}

#[test]
fn full_cache_evicts_least_recently_used() {
    let mut c = XPathCache::new();
    for i in 0..256 {
        c.store(&format!("/N{}", i), "app", CompiledStrategy::ControlViewDirect, i);
    }
    assert_eq!(c.len(), 256);
    assert!(c.lookup("/N0", "app").is_some());
    c.store("/New", "app", CompiledStrategy::SiblingWindow, 1);
    assert_eq!(c.len(), 256);
    assert!(c.lookup("/N1", "app").is_none());
    assert!(c.lookup("/N0", "app").is_some());
    assert!(c.lookup("/New", "app").is_some());
}

#[test]
fn clearing_empties_the_cache() {
    let mut c = XPathCache::new();
    c.store("/A", "x", CompiledStrategy::WindowFastPath, 0);
    c.lookup("/A", "x");
    clear_xpath_cache(&mut c);
    assert_eq!(xpath_cache_stats(&c), (0, 0));
    assert!(c.lookup("/A", "x").is_none());
}

#[test]
fn stats_count_distinct_stores_and_hits() {
    let mut c = XPathCache::new();
    c.store("//Other", "x", CompiledStrategy::ContentRoot, 1);
    clear_xpath_cache(&mut c);
    c.store("/A", "app", CompiledStrategy::RawViewBfs, 10);
    c.store("/B", "app", CompiledStrategy::ControlViewDirect, 20);
    c.store("/A", "other", CompiledStrategy::WindowFastPath, 30);
    for (x, a) in [("/A", "app"), ("/B", "app"), ("/A", "other"), ("/A", "app"), ("/B", "app")] {
        assert!(c.lookup(x, a).is_some());
    }
    assert_eq!(xpath_cache_stats(&c), (3, 5));
}
