use tab5_stock_backend::config::{
    default_watchlist, normalize_display_symbol, normalize_provider_symbol, parse_watchlist,
    read_token_setting, read_u64_setting, QuoteProviderKind, Settings, WatchItem,
};
use tab5_stock_backend::models::Market;

#[test]
fn parses_watchlist_symbols_and_names() {
    let parsed = parse_watchlist("600519.SH:贵州茅台,00700.HK:腾讯控股").unwrap();

    assert_eq!(parsed[0].symbol, "600519.SH");
    assert_eq!(parsed[0].name, "贵州茅台");
    assert_eq!(parsed[0].market, Market::Cn);
    assert_eq!(parsed[1].market, Market::Hk);
}

#[test]
fn keeps_hk_display_symbol_but_normalizes_provider_symbol() {
    let parsed = parse_watchlist("00700.HK:腾讯控股").unwrap();

    assert_eq!(parsed[0].symbol, "00700.HK");
    assert_eq!(parsed[0].provider_symbol, "700.HK");
}

#[test]
fn watchlist_entries_are_trimmed_and_blank_entries_skipped() {
    let parsed = parse_watchlist("  600519.SH : 贵州茅台 , ,\t,09988.hk").unwrap();
    assert_eq!(parsed.len(), 2);
    assert_eq!(parsed[0].symbol, "600519.SH");
    assert_eq!(parsed[0].name, "贵州茅台");
    assert_eq!(parsed[1].symbol, "09988.hk");
    assert_eq!(parsed[1].name, "09988.hk");
    assert_eq!(parsed[1].provider_symbol, "9988.HK");
    assert_eq!(parsed[1].market, Market::Hk);
}

#[test]
fn watchlist_name_falls_back_to_symbol_and_extra_parts_are_ignored() {
    let parsed = parse_watchlist("000001.SZ:,600000.SH:浦发银行:extra").unwrap();
    assert_eq!(parsed[0].name, "000001.SZ");
    assert_eq!(parsed[1].name, "浦发银行");
}

#[test]
fn watchlist_entry_without_symbol_is_rejected() {
    let err = parse_watchlist("600519.SH:贵州茅台, :名字 ,00700.HK").unwrap_err();
    assert_eq!(err, "invalid WATCHLIST entry `:名字`");
}

#[test]
fn empty_watchlist_value_parses_to_nothing() {
    assert!(parse_watchlist("").unwrap().is_empty());
    assert!(parse_watchlist(" , ").unwrap().is_empty());
}

#[test]
fn provider_symbols_are_normalized() {
    assert_eq!(normalize_provider_symbol("00700.HK"), "700.HK");
    assert_eq!(normalize_provider_symbol("000.hk"), "0.HK");
    assert_eq!(normalize_provider_symbol("600519.sh"), "600519.SH");
    assert_eq!(normalize_provider_symbol("000001.SH"), "000001.SH");
    assert_eq!(normalize_provider_symbol("AAPL"), "AAPL");
    assert_eq!(normalize_provider_symbol("a.b.c"), "a.B.C");
    assert_eq!(normalize_provider_symbol(normalize_provider_symbol("00700.hk").as_str()), "700.HK");
}

#[test]
fn watch_item_new_derives_provider_symbol() {
    let item = WatchItem::new("09988.HK", "阿里巴巴-W", Market::Hk);
    assert_eq!(item.symbol, "09988.HK");
    assert_eq!(item.provider_symbol, "9988.HK");
    assert_eq!(item.name, "阿里巴巴-W");
    assert_eq!(item.market, Market::Hk);
}

#[test]
fn default_watchlist_has_demo_symbols() {
    let list = default_watchlist();
    let symbols: Vec<&str> = list.iter().map(|item| item.symbol.as_str()).collect();
    assert_eq!(symbols, vec!["000001.SH", "399001.SZ", "600519.SH", "00700.HK", "09988.HK"]);
    assert_eq!(list[0].name, "上证指数");
    assert_eq!(list[3].provider_symbol, "700.HK");
    assert_eq!(list[4].provider_symbol, "9988.HK");
    assert_eq!(list[2].market, Market::Cn);
    assert_eq!(list[4].market, Market::Hk);
}

#[test]
fn provider_kind_names_round_trip() {
    assert_eq!(QuoteProviderKind::Mock.as_str(), "mock");
    assert_eq!(QuoteProviderKind::Longbridge.as_str(), "longbridge");
    assert_eq!(QuoteProviderKind::parse("mock"), Ok(QuoteProviderKind::Mock));
    assert_eq!(QuoteProviderKind::parse("LongBridge"), Ok(QuoteProviderKind::Longbridge));
    for kind in [QuoteProviderKind::Mock, QuoteProviderKind::Longbridge] {
        assert_eq!(QuoteProviderKind::parse(kind.as_str()), Ok(kind));
    }
}

#[test]
fn unknown_provider_is_rejected_with_lowercased_name() {
    assert_eq!(
        QuoteProviderKind::parse("Yahoo"),
        Err("unsupported QUOTE_PROVIDER `yahoo`".to_string())
    );
}

#[test]
fn display_symbols_are_normalized_or_rejected() {
    assert_eq!(normalize_display_symbol(" 09988.hk ").unwrap(), "09988.HK");
    assert_eq!(normalize_display_symbol("000002.SZ").unwrap(), "000002.SZ");
    assert_eq!(
        normalize_display_symbol("600519").unwrap_err(),
        "invalid symbol `600519`: expected CODE.SH, CODE.SZ or CODE.HK"
    );
    assert!(normalize_display_symbol("AB.SH").is_err());
    assert!(normalize_display_symbol(".SH").is_err());
    assert!(normalize_display_symbol("600519.NY").is_err());
}

#[test]
fn admin_input_becomes_watch_item() {
    let item = WatchItem::from_input("00700.hk", Some("  腾讯控股 ")).unwrap();
    assert_eq!(item.symbol, "00700.HK");
    assert_eq!(item.provider_symbol, "700.HK");
    assert_eq!(item.name, "腾讯控股");
    assert_eq!(item.market, Market::Hk);
    let unnamed = WatchItem::from_input("600519.SH", Some("   ")).unwrap();
    assert_eq!(unnamed.name, "600519.SH");
    assert_eq!(unnamed.market, Market::Cn);
    assert!(WatchItem::from_input("600519", None).is_err());
}

#[test]
fn u64_settings_use_defaults_and_report_errors() {
    assert_eq!(read_u64_setting("STALE_AFTER_SECS", None, 20), Ok(20));
    assert_eq!(read_u64_setting("STALE_AFTER_SECS", Some("  "), 20), Ok(20));
    assert_eq!(read_u64_setting("STALE_AFTER_SECS", Some("45"), 20), Ok(45));
    assert_eq!(read_u64_setting("STALE_AFTER_SECS", Some("+7"), 20), Ok(7));
    assert_eq!(
        read_u64_setting("STALE_AFTER_SECS", Some(" 45"), 20),
        Err("invalid STALE_AFTER_SECS: invalid digit found in string".to_string())
    );
    assert_eq!(
        read_u64_setting("MOCK_INTERVAL_MS", Some("-1"), 3000),
        Err("invalid MOCK_INTERVAL_MS: invalid digit found in string".to_string())
    );
    assert_eq!(
        read_u64_setting("MOCK_INTERVAL_MS", Some("18446744073709551616"), 3000),
        Err("invalid MOCK_INTERVAL_MS: number too large to fit in target type".to_string())
    );
    assert_eq!(read_u64_setting("X", Some("18446744073709551615"), 0), Ok(u64::MAX));
    assert_eq!(
        read_u64_setting("X", Some("+"), 0),
        Err("invalid X: invalid digit found in string".to_string())
    );
}

#[test]
fn u64_settings_agree_with_std_parsing() {
    for text in ["0", "42", "+42", "007", "1x", "x1", "+", "-", "-0", "99999999999999999999", "18446744073709551615"] {
        let ours = read_u64_setting("N", Some(text), 0);
        match text.parse::<u64>() {
            Ok(n) => assert_eq!(ours, Ok(n)),
            Err(err) => assert_eq!(ours, Err(format!("invalid N: {err}"))),
        }
    }
}

#[test]
fn device_token_is_trimmed_and_blank_is_unset() {
    assert_eq!(read_token_setting(Some("  secret ")), Some("secret".to_string()));
    assert_eq!(read_token_setting(Some("   ")), None);
    assert_eq!(read_token_setting(None), None);
}

#[test]
fn settings_resolve_with_defaults() {
    let settings = Settings::resolve(None, None, None, None, None).unwrap();
    assert_eq!(settings.provider, QuoteProviderKind::Mock);
    assert_eq!(settings.stale_after_secs, 20);
    assert_eq!(settings.mock_interval_ms, 3000);
    assert_eq!(settings.watchlist.len(), 5);
    assert_eq!(settings.watchlist[0].symbol, "000001.SH");
    assert_eq!(settings.device_token, None);
}

#[test]
fn settings_resolve_given_values() {
    let settings = Settings::resolve(
        Some("LONGBRIDGE"),
        Some("5"),
        Some("250"),
        Some("00700.HK:腾讯控股"),
        Some(" tok "),
    )
    .unwrap();
    assert_eq!(settings.provider, QuoteProviderKind::Longbridge);
    assert_eq!(settings.stale_after_secs, 5);
    assert_eq!(settings.mock_interval_ms, 250);
    assert_eq!(settings.watchlist.len(), 1);
    assert_eq!(settings.watchlist[0].provider_symbol, "700.HK");
    assert_eq!(settings.device_token, Some("tok".to_string()));
}

#[test]
fn settings_report_the_first_invalid_value() {
    let err = Settings::resolve(Some("other"), Some("x"), None, None, None).err().unwrap();
    assert_eq!(err, "unsupported QUOTE_PROVIDER `other`");
    let err = Settings::resolve(None, Some("x"), Some("y"), None, None).err().unwrap();
    assert_eq!(err, "invalid STALE_AFTER_SECS: invalid digit found in string");
    let err = Settings::resolve(None, None, Some("y"), Some(":x"), None).err().unwrap();
    assert_eq!(err, "invalid MOCK_INTERVAL_MS: invalid digit found in string");
    let err = Settings::resolve(None, None, None, Some(":x"), None).err().unwrap();
    assert_eq!(err, "invalid WATCHLIST entry `:x`");
}

#[test]
fn blank_watchlist_setting_uses_default_list() {
    let settings = Settings::resolve(None, None, None, Some(" , "), None).unwrap();
    assert_eq!(settings.watchlist.len(), 5);
}
