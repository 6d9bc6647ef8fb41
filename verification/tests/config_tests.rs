use stock_widget::config::{default_opacity, AppConfig, NameMap, WindowState};

fn symbols(c: &AppConfig) -> Vec<String> {
    c.symbols.clone()
}

#[test]
fn default_config_watches_five_tickers() {
    let c = AppConfig::default();
    assert_eq!(symbols(&c), vec!["AAPL", "GOOGL", "MSFT", "SPY", "QQQ"]);
    assert_eq!(c.names.len(), 0);
    assert_eq!(c.opacity, 209);
    assert_eq!(default_opacity(), 209);
    assert_eq!(c.window, WindowState { x: 100, y: 100, width: 340, height: 120 });
}

#[test]
fn default_window_state() {
    let w = WindowState::default();
    assert_eq!((w.x, w.y, w.width, w.height), (100, 100, 340, 120));
}

#[test]
fn add_symbol_upper_cases_and_trims() {
    let mut c = AppConfig::default();
    c.add_symbol("  tsla \t");
    assert_eq!(symbols(&c).last().unwrap(), "TSLA");
    assert_eq!(c.symbols.len(), 6);
}

#[test]
fn add_symbol_keeps_one_copy() {
    let mut c = AppConfig::default();
    c.add_symbol("aapl");
    c.add_symbol(" AAPL ");
    assert_eq!(symbols(&c), vec!["AAPL", "GOOGL", "MSFT", "SPY", "QQQ"]);
    c.add_symbol("600519");
    c.add_symbol("600519");
    assert_eq!(c.symbols.len(), 6);
    assert_eq!(c.symbols[5], "600519");
}

#[test]
fn add_uppercased_symbol_only_trims() {
    let mut c = AppConfig::default();
    c.add_uppercased_symbol(" abc ");
    assert_eq!(c.symbols[5], "abc");
}

#[test]
fn remove_symbol_forgets_name() {
    let mut c = AppConfig::default();
    c.names.insert("MSFT".to_string(), "Microsoft".to_string());
    c.names.insert("SPY".to_string(), "SPDR".to_string());
    c.remove_symbol(" msft");
    assert_eq!(symbols(&c), vec!["AAPL", "GOOGL", "SPY", "QQQ"]);
    assert!(!c.names.contains_key(&"MSFT".to_string()));
    assert_eq!(c.names.get(&"SPY".to_string()).unwrap(), "SPDR");
    assert_eq!(c.names.len(), 1);
}

#[test]
fn remove_symbol_removes_every_copy() {
    let mut c = AppConfig::default();
    c.symbols.push("AAPL".to_string());
    c.remove_symbol("aapl");
    assert_eq!(symbols(&c), vec!["GOOGL", "MSFT", "SPY", "QQQ"]);
}

#[test]
fn remove_unknown_symbol_changes_nothing() {
    let mut c = AppConfig::default();
    c.remove_symbol("NOPE");
    assert_eq!(symbols(&c), vec!["AAPL", "GOOGL", "MSFT", "SPY", "QQQ"]);
}

#[test]
fn remove_after_add_restores() {
    let mut c = AppConfig::default();
    c.add_symbol("nvda");
    c.remove_symbol("NVDA");
    assert_eq!(symbols(&c), vec!["AAPL", "GOOGL", "MSFT", "SPY", "QQQ"]);
    assert_eq!(c.names.len(), 0);
}

#[test]
fn remove_uppercased_symbol_is_case_sensitive() {
    let mut c = AppConfig::default();
    c.remove_uppercased_symbol("aapl");
    assert_eq!(c.symbols.len(), 5);
    c.remove_uppercased_symbol("AAPL ");
    assert_eq!(c.symbols.len(), 4);
}

#[test]
fn record_names_keeps_known_names() {
    let mut c = AppConfig::default();
    c.names.insert("AAPL".to_string(), "Apple".to_string());
    let found = vec![
        ("AAPL".to_string(), "APPLE INC".to_string()),
        ("MSFT".to_string(), "".to_string()),
        ("SPY".to_string(), "SPDR S&P 500".to_string()),
        ("SPY".to_string(), "other".to_string()),
    ];
    c.record_names(&found);
    assert_eq!(c.names.get(&"AAPL".to_string()).unwrap(), "Apple");
    assert!(!c.names.contains_key(&"MSFT".to_string()));
    assert_eq!(c.names.get(&"SPY".to_string()).unwrap(), "SPDR S&P 500");
    assert_eq!(c.names.len(), 2);
}

#[test]
fn name_map_insert_replaces() {
    let mut m = NameMap::new();
    m.insert("A".to_string(), "1".to_string());
    m.insert("B".to_string(), "2".to_string());
    m.insert("A".to_string(), "3".to_string());
    assert_eq!(m.len(), 2);
    assert_eq!(m.get(&"A".to_string()).unwrap(), "3");
    let mut pairs = m.pairs();
    pairs.sort();
    assert_eq!(pairs, vec![("A".to_string(), "3".to_string()), ("B".to_string(), "2".to_string())]);
    m.remove(&"A".to_string());
    assert_eq!(m.len(), 1);
    assert!(m.get(&"A".to_string()).is_none());
}

#[test]
fn add_symbol_ignores_ascii_case() {
    let mut a = AppConfig::default();
    let mut b = AppConfig::default();
    a.add_symbol("Brk.b ");
    b.add_symbol("brk.b");
    assert_eq!(symbols(&a), symbols(&b));
    assert_eq!(symbols(&a)[5], "BRK.B");
}

#[test]
fn remove_symbol_at_deletes_listed_string() {
    let mut c = AppConfig::default();
    c.symbols = vec!["aapl".to_string(), "MSFT".to_string(), "aapl".to_string()];
    c.names.insert("AAPL".to_string(), "Apple".to_string());
    assert!(c.remove_symbol_at(0));
    assert_eq!(symbols(&c), vec!["MSFT"]);
    assert!(!c.names.contains_key(&"AAPL".to_string()));
    assert!(!c.remove_symbol_at(1));
    assert_eq!(symbols(&c), vec!["MSFT"]);
}
