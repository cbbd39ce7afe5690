use dashboard::models::{
    account_merge_plan, crypto_price_source, PriceSource, elapsed_secs, format_span, initial_ticker_symbol, is_session_dependent,
    most_outdated_account, most_outdated_field, most_outdated_ticker, normalize_crypto_symbol,
    priced_ticker_for, rate_for_currency, revalued_in_chf, scroll_down, scroll_up,
    valuation_of, AccountCategory, AccountMap, AccountSync, FxCurrency, OutdatedField, Slot,
    StatusColor, SyncStatus, Valuation,
};

const SEC: i128 = 1_000_000_000;
const NOW: i128 = 1_700_000_000 * SEC;

fn strings(v: &[&str]) -> Vec<String> {
    v.iter().map(|s| s.to_string()).collect()
}

#[test]
fn test_app_state_initialization_and_scroll() {
    let stocks = ["GME", "SOFI"];
    let cryptos = ["https://coinmarketcap.com/currencies/bitcoin/"];
    let mut symbols: Vec<String> = stocks.iter().map(|s| initial_ticker_symbol(s)).collect();
    symbols.extend(cryptos.iter().map(|s| initial_ticker_symbol(s)));
    assert_eq!(symbols.len(), 3);
    assert_eq!(symbols[0], "GME");
    assert_eq!(symbols[1], "SOFI");
    assert_eq!(symbols[2], "BITCOIN");

    let mut offset = 0usize;
    assert_eq!(offset, 0);
    scroll_down(&mut offset, symbols.len(), 0);
    assert_eq!(offset, 1);
    scroll_up(&mut offset);
    assert_eq!(offset, 0);
    scroll_up(&mut offset);
    assert_eq!(offset, 0);
}

#[test]
fn scrolling_stops_at_the_last_row() {
    let mut offset = 1usize;
    scroll_down(&mut offset, 2, 1);
    assert_eq!(offset, 1);
    scroll_down(&mut offset, 1, 3);
    assert_eq!(offset, 2);
    let mut top = 0usize;
    scroll_down(&mut top, 0, 0);
    assert_eq!(top, 0);
    let mut last = usize::MAX;
    scroll_down(&mut last, usize::MAX, 0);
    assert_eq!(last, usize::MAX);
}

#[test]
fn test_update_account_balances_preserves_other_accounts() {
    // the holdings are ST; replacing UH appends it, replacing ST keeps UH in place
    let plan = account_merge_plan(&strings(&[]), "ST", 1);
    assert_eq!(plan, vec![Slot::New(0)]);

    let plan = account_merge_plan(&strings(&["ST"]), "UH", 1);
    assert_eq!(plan, vec![Slot::Old(0), Slot::New(0)]);

    let plan = account_merge_plan(&strings(&["ST", "UH"]), "ST", 1);
    assert_eq!(plan, vec![Slot::New(0), Slot::Old(1)]);
    assert_eq!(plan.len(), 2);
}

#[test]
fn replacing_an_account_puts_its_new_items_where_its_first_item_was() {
    let plan = account_merge_plan(&strings(&["IB", "ST", "IB", "UH"]), "IB", 3);
    assert_eq!(plan, vec![Slot::New(0), Slot::New(1), Slot::New(2), Slot::Old(1), Slot::Old(3)]);
    let plan = account_merge_plan(&strings(&["IB", "ST"]), "ST", 0);
    assert_eq!(plan, vec![Slot::Old(0)]);
}

#[test]
fn test_sync_status_live_and_stale() {
    let mut sync: AccountSync = AccountMap::new();
    assert!(is_session_dependent("UH"));
    assert!(is_session_dependent("FP"));
    assert!(is_session_dependent("SQ"));
    assert!(is_session_dependent("REV"));
    assert!(is_session_dependent("UBS"));
    assert!(!is_session_dependent("CB"));
    assert!(!is_session_dependent("IB"));
    assert!(!is_session_dependent("ST"));
    assert!(!is_session_dependent("MW"));
    assert!(!is_session_dependent("CW"));
    assert!(!is_session_dependent("Kraken"));

    assert!(!sync.is_account_stale("UH"));
    sync.mark_account_stale("UH");
    assert!(sync.is_account_stale("UH"));

    // an update of the account's balances marks it live
    sync.mark_account_live("UH");
    assert!(!sync.is_account_stale("UH"));
    assert_eq!(sync.get("UH"), Some(SyncStatus::Live));

    sync.mark_account_stale("UH");
    assert!(sync.is_account_stale("UH"));
    sync.mark_account_live("UH");
    assert!(!sync.is_account_stale("UH"));
}

#[test]
fn account_map_insert_if_absent_keeps_the_first_value() {
    let mut m: AccountMap<i128> = AccountMap::new();
    m.insert_if_absent("IB", 5);
    m.insert_if_absent("IB", 7);
    assert_eq!(m.get("IB"), Some(5));
    m.insert("IB", 9);
    assert_eq!(m.get("IB"), Some(9));
    assert_eq!(m.get("ST"), None);
}

fn field(name: &str, session: bool, stale: bool, quote: bool, secs: u64) -> OutdatedField {
    OutdatedField {
        name: name.to_string(),
        is_session: session,
        is_stale: stale,
        is_quote: quote,
        elapsed_secs: secs,
        gathered_time: NOW - (secs as i128) * SEC,
    }
}

#[test]
fn test_outdated_field_displays_and_colors() {
    let field_sec = field("BTC", false, false, true, 42);
    assert_eq!(field_sec.age_display(), "42s");
    assert_eq!(field_sec.status_color(), StatusColor::Yellow);

    let field_min = field("UBS*", true, false, false, 863);
    assert_eq!(field_min.age_display(), "14m 23s");
    assert_eq!(field_min.status_color(), StatusColor::LightCyan);

    let field_hour = field("FP*", true, true, false, 7320);
    assert_eq!(field_hour.age_display(), "2h 02m");
    assert_eq!(field_hour.status_color(), StatusColor::LightRed);

    let field_day = field("IB", false, false, false, 100000);
    assert_eq!(field_day.age_display(), "1d 03h");
}

#[test]
fn spans_are_written_in_their_two_largest_units() {
    assert_eq!(format_span(0), "0s");
    assert_eq!(format_span(59), "59s");
    assert_eq!(format_span(60), "1m 00s");
    assert_eq!(format_span(3599), "59m 59s");
    assert_eq!(format_span(3600), "1h 00m");
    assert_eq!(format_span(86400), "1d 00h");
}

#[test]
fn elapsed_time_is_whole_seconds_and_never_negative() {
    assert_eq!(elapsed_secs(NOW, NOW - 1_500_000_000), 1);
    assert_eq!(elapsed_secs(NOW, NOW + SEC), 0);
}

#[test]
fn test_most_outdated_field_selection() {
    let accounts = strings(&["IB", "UBS"]);
    let mut gathered: AccountMap<i128> = AccountMap::new();
    gathered.insert("IB", NOW - 300 * SEC);
    gathered.insert("UBS", NOW - 600 * SEC);
    let sync: AccountSync = AccountMap::new();

    let oldest_acc = most_outdated_account(&accounts, &gathered, &sync, NOW).unwrap();
    assert_eq!(oldest_acc.name, "UBS*");
    assert!(oldest_acc.elapsed_secs >= 600);

    let symbols = strings(&["BTC-USD"]);
    let times = vec![Some(NOW - 900 * SEC)];
    let ticker = most_outdated_ticker(&symbols, &times, NOW);
    let oldest = most_outdated_field(Some(oldest_acc), ticker).unwrap();
    assert_eq!(oldest.name, "BTC-USD");
    assert!(oldest.is_quote);
    assert!(oldest.elapsed_secs >= 900);
}

#[test]
fn an_account_never_gathered_counts_as_gathered_now() {
    let accounts = strings(&["Chase"]);
    let gathered: AccountMap<i128> = AccountMap::new();
    let sync: AccountSync = AccountMap::new();
    let f = most_outdated_account(&accounts, &gathered, &sync, NOW).unwrap();
    assert_eq!(f.name, "Chase");
    assert_eq!(f.elapsed_secs, 0);
    assert!(!f.is_quote);
}

#[test]
fn crypto_symbols_are_normalised() {
    assert_eq!(normalize_crypto_symbol("monero"), "XMR");
    assert_eq!(normalize_crypto_symbol("Bitcoin"), "BTC");
    assert_eq!(normalize_crypto_symbol("usdc"), "USD");
    assert_eq!(normalize_crypto_symbol("chia-network"), "XCH");
    assert_eq!(normalize_crypto_symbol("sol"), "SOL");
}

#[test]
fn holdings_are_valued_by_symbol_and_category() {
    assert_eq!(valuation_of("usdt", AccountCategory::Crypto), Valuation::Fiat(FxCurrency::Usd));
    assert_eq!(valuation_of("GBP", AccountCategory::Cash), Valuation::Fiat(FxCurrency::Gbp));
    assert_eq!(valuation_of("ETH", AccountCategory::Crypto), Valuation::PricedInUsd);
    assert_eq!(valuation_of("AAPL", AccountCategory::Stocks), Valuation::Unchanged);
    assert_eq!(rate_for_currency("aud"), FxCurrency::Aud);
    assert_eq!(rate_for_currency("JPY"), FxCurrency::Usd);
    assert!(!revalued_in_chf("SQ"));
    assert!(revalued_in_chf("IB"));
}

#[test]
fn a_holding_is_priced_by_the_first_priced_ticker_of_its_symbol() {
    let symbols = strings(&["XMR", "monero", "BTC"]);
    assert_eq!(priced_ticker_for(&symbols, &vec![false, true, true], "XMR"), Some(1));
    assert_eq!(priced_ticker_for(&symbols, &vec![true, true, true], "XMR"), Some(0));
    assert_eq!(priced_ticker_for(&symbols, &vec![true, true, false], "BTC"), None);
}

#[test]
fn categories_have_display_names() {
    assert_eq!(AccountCategory::Crypto.name(), "Crypto");
    assert_eq!(AccountCategory::Retirement.name(), "Retirement");
}

#[test]
fn normalizing_twice_changes_nothing() {
    for sym in ["monero", "XMR", "Bitcoin", "usdt", "chia-network", "sol", "Basic-Attention-Token", ""] {
        let once = normalize_crypto_symbol(sym);
        assert_eq!(normalize_crypto_symbol(&once), once);
    }
}

#[test]
fn crypto_prices_come_from_unit_cache_then_tickers() {
    let symbols = strings(&["bitcoin", "BTC", "ETH"]);
    let priced = vec![false, true, true];
    assert_eq!(crypto_price_source("USD", true, &symbols, &priced), PriceSource::Unit);
    assert_eq!(crypto_price_source("BTC", true, &symbols, &priced), PriceSource::Cached);
    assert_eq!(crypto_price_source("BTC", false, &symbols, &priced), PriceSource::Ticker(1));
    assert_eq!(crypto_price_source("XMR", false, &symbols, &priced), PriceSource::Unknown);
}
