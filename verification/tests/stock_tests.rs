use stock_widget::stock::{parse_quote_body, parse_quote_fields, quote_url, tencent_code_of, to_tencent_symbol};

fn quote_line(var: &str, name: &str, code: &str, change: &str, pct: &str, price: &str, fields: usize) -> String {
    let mut f: Vec<String> = (0..fields).map(|i| format!("f{}", i)).collect();
    f[0] = "1".to_string();
    f[1] = name.to_string();
    f[2] = code.to_string();
    f[31] = change.to_string();
    f[32] = pct.to_string();
    f[33] = price.to_string();
    format!("v_{}=\"{}\";", var, f.join("~"))
}

#[test]
fn shanghai_and_shenzhen_codes() {
    assert_eq!(to_tencent_symbol("600519"), "sh600519");
    assert_eq!(to_tencent_symbol("500000"), "sh500000");
    assert_eq!(to_tencent_symbol("499999"), "sz499999");
    assert_eq!(to_tencent_symbol(" 000001 "), "sz000001");
}

#[test]
fn us_tickers_are_lower_cased() {
    assert_eq!(to_tencent_symbol("AAPL"), "us_aapl");
    assert_eq!(to_tencent_symbol(" msft\n"), "us_msft");
    assert_eq!(to_tencent_symbol("qqq"), "us_qqq");
    assert_eq!(to_tencent_symbol("a"), "us_a");
}

#[test]
fn other_symbols_are_kept_upper_cased() {
    assert_eq!(to_tencent_symbol("brk.b"), "BRK.B");
    assert_eq!(to_tencent_symbol("toolong"), "TOOLONG");
    assert_eq!(to_tencent_symbol("12345"), "12345");
    assert_eq!(to_tencent_symbol("1234567"), "1234567");
    assert_eq!(to_tencent_symbol(""), "");
    assert_eq!(to_tencent_symbol("   "), "");
}

#[test]
fn only_six_digits_are_a_shares() {
    assert_eq!(to_tencent_symbol("+12345"), "+12345");
    assert_eq!(to_tencent_symbol("-12345"), "-12345");
    assert_eq!(to_tencent_symbol("12345A"), "12345A");
    assert_eq!(to_tencent_symbol("abcdef"), "ABCDEF");
    assert_eq!(to_tencent_symbol("999999"), "sh999999");
    assert_eq!(to_tencent_symbol("000000"), "sz000000");
    assert_eq!(to_tencent_symbol("\u{ff11}23456"), "\u{ff11}23456");
}

#[test]
fn tencent_code_of_takes_normalized_input() {
    assert_eq!(tencent_code_of("AB"), "us_ab");
    assert_eq!(tencent_code_of(" AB"), " AB");
    assert_eq!(tencent_code_of("9XXXX9"), "9XXXX9");
}

#[test]
fn parse_line_reads_fields() {
    let line = quote_line("sh600519", "贵州茅台", "sh600519", "-12.50", "-0.73", "1700.00", 50);
    let q = parse_quote_fields(&line).unwrap();
    assert_eq!(q.symbol, "600519");
    assert_eq!(q.name, "贵州茅台");
    assert_eq!(q.change, "-12.50");
    assert_eq!(q.change_percent, "-0.73");
    assert_eq!(q.price, "1700.00");
}

#[test]
fn parse_line_strips_market_prefixes() {
    let us = quote_line("us_aapl", "Apple", "us_AAPL.OQ", "1", "2", "3", 45);
    assert_eq!(parse_quote_fields(&us).unwrap().symbol, "AAPL.OQ");
    let sz = quote_line("sz000001", "Bank", "sz000001", "1", "2", "3", 45);
    assert_eq!(parse_quote_fields(&sz).unwrap().symbol, "000001");
    let other = quote_line("x", "X", "hk00700", "1", "2", "3", 45);
    assert_eq!(parse_quote_fields(&other).unwrap().symbol, "hk00700");
}

#[test]
fn parse_line_rejects_short_records() {
    let line = quote_line("x", "X", "sh1", "1", "2", "3", 44);
    assert!(parse_quote_fields(&line).is_none());
    assert!(parse_quote_fields("").is_none());
    assert!(parse_quote_fields("   ").is_none());
    assert!(parse_quote_fields("v_pv_none_match=1;").is_none());
}

#[test]
fn parse_line_without_closing_quote_reads_to_end() {
    let line = quote_line("x", "N", "sz1", "1", "2", "3", 45);
    let open = line.trim_end_matches("\";");
    let q = parse_quote_fields(open).unwrap();
    assert_eq!(q.name, "N");
    assert_eq!(q.symbol, "1");
}

#[test]
fn parse_body_skips_bad_lines() {
    let a = quote_line("sh600519", "A", "sh600519", "1", "2", "3", 50);
    let b = quote_line("us_aapl", "B", "us_AAPL", "4", "5", "6", 50);
    let body = format!("{}\r\nv_pv_none_match=\"1\";\r\n{}\n", a, b);
    let qs = parse_quote_body(&body);
    assert_eq!(qs.len(), 2);
    assert_eq!(qs[0].name, "A");
    assert_eq!(qs[1].symbol, "AAPL");
    assert_eq!(qs[1].price, "6");
    assert!(parse_quote_body("").is_empty());
}

#[test]
fn quote_url_joins_codes() {
    let syms = vec!["AAPL".to_string(), "600519".to_string(), " spy ".to_string()];
    assert_eq!(quote_url(&syms).unwrap(), "https://qt.gtimg.cn/q=us_aapl,sh600519,us_spy");
    assert_eq!(quote_url(&vec!["000001".to_string()]).unwrap(), "https://qt.gtimg.cn/q=sz000001");
    assert!(quote_url(&Vec::new()).is_none());
}
