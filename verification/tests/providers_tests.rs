use dashboard::ibkr::{parse_ibkr_send_request_xml, parse_ibkr_statement_xml, FlexRecord};
use dashboard::models::AccountCategory;
use dashboard::providers::{
    blob_mojos, chia_db_file_name, chia_mojo_total, clean_bearer_token, crypto_quote_plan,
    debugger_url, extract_next_data, group_by_currency, is_chia_wallet_db,
    message_token_candidates, normalize_kraken_asset, portfolio_name, rate_quote_urls,
    slug_to_symbol, stock_quote_plan, stock_reply_verdict, tab_message, usd_pair_for, CryptoSource,
    DebugTarget, QuoteOutcome, QuoteReply, SessionSite, SilenceAction, TabMessage,
};

#[test]
fn test_extract_next_data() {
    let sample_html = r#"
            <html>
                <head>
                    <script id="__NEXT_DATA__" type="application/json">{"props":{"sample":123}}</script>
                </head>
            </html>
        "#;
    let data = extract_next_data(sample_html);
    assert_eq!(data, Some(r#"{"props":{"sample":123}}"#.to_string()));
}

#[test]
fn next_data_needs_marker_and_closing_tag() {
    assert_eq!(extract_next_data("<script>{}</script>"), None);
    assert_eq!(extract_next_data("<script id=\"__NEXT_DATA__\">{}"), None);
    assert_eq!(extract_next_data("<script id=\"__NEXT_DATA__\">  {\"a\":1}\n</script>"), Some("{\"a\":1}".to_string()));
}

#[test]
fn test_slug_to_symbol() {
    assert_eq!(slug_to_symbol("monero"), "XMR");
    assert_eq!(slug_to_symbol("ethereum"), "ETH");
    assert_eq!(slug_to_symbol("bitcoin"), "BTC");
    assert_eq!(slug_to_symbol("basic-attention-token"), "BAT");
    assert_eq!(slug_to_symbol("dogecoin"), "DOGE");
    assert_eq!(slug_to_symbol("chia"), "XCH");
    assert_eq!(slug_to_symbol("the-graph"), "GRT");
    assert_eq!(slug_to_symbol("stellar"), "XLM");
    assert_eq!(slug_to_symbol("atom"), "ATOM");
}

#[test]
fn slugs_are_matched_ignoring_case() {
    assert_eq!(slug_to_symbol("Monero"), "XMR");
    assert_eq!(slug_to_symbol("POLYGON"), "MATIC");
}

#[test]
fn test_normalize_kraken_asset() {
    assert_eq!(normalize_kraken_asset("ZCHF"), "CHF");
    assert_eq!(normalize_kraken_asset("ZUSD"), "USD");
    assert_eq!(normalize_kraken_asset("ZEUR"), "EUR");
    assert_eq!(normalize_kraken_asset("ZGBP"), "GBP");
    assert_eq!(normalize_kraken_asset("XXBT"), "BTC");
    assert_eq!(normalize_kraken_asset("XETH"), "ETH");
    assert_eq!(normalize_kraken_asset("XXMR"), "XMR");
    assert_eq!(normalize_kraken_asset("SOL"), "SOL");
    assert_eq!(normalize_kraken_asset("USDC"), "USDC");
}

#[test]
fn kraken_codes_are_upper_cased_first() {
    assert_eq!(normalize_kraken_asset("xdg"), "DOGE");
    assert_eq!(normalize_kraken_asset("zeur"), "EUR");
    assert_eq!(normalize_kraken_asset("dot"), "DOT");
}

#[test]
fn test_parse_ibkr_send_request_xml_success() {
    let xml = r#"<FlexStatementResponse timestamp="05 September, 2026">
            <Status>Success</Status>
            <ReferenceCode>9876543210</ReferenceCode>
            <Url>https://ndcdyn.interactivebrokers.com/Universal/servlet/FlexStatementService.GetStatement</Url>
        </FlexStatementResponse>"#;
    let res = parse_ibkr_send_request_xml(xml);
    assert_eq!(res, Ok("9876543210".to_string()));
}

#[test]
fn test_parse_ibkr_send_request_xml_error() {
    let xml = r#"<FlexStatementResponse timestamp="05 September, 2026">
            <Status>Warn</Status>
            <ErrorCode>1018</ErrorCode>
            <ErrorMessage>Token has expired or is invalid</ErrorMessage>
        </FlexStatementResponse>"#;
    let res = parse_ibkr_send_request_xml(xml);
    assert_eq!(res, Err("Token has expired or is invalid".to_string()));
}

#[test]
fn send_request_reply_without_code_or_message() {
    assert_eq!(
        parse_ibkr_send_request_xml("<R><Status>Pending</Status></R>"),
        Err("IBKR response status: Pending".to_string())
    );
    assert_eq!(parse_ibkr_send_request_xml("<R></R>"), Err("Invalid IBKR XML response".to_string()));
    assert_eq!(
        parse_ibkr_send_request_xml("<R><Status>success</Status><ReferenceCode>7</ReferenceCode></R>"),
        Ok("7".to_string())
    );
    assert!(parse_ibkr_send_request_xml("<R><Status>Success</Status></X>")
        .unwrap_err()
        .starts_with("XML parse error: "));
}

/// The holdings a statement's records give, numbers parsed as `f64` (positions and cash below a
/// millionth and a ten-thousandth are left out, as for the dashboard's holdings).
fn holdings(records: &[FlexRecord]) -> Vec<(AccountCategory, String, f64, String, f64)> {
    let num = |s: &Option<String>| s.as_deref().and_then(|t| t.parse::<f64>().ok());
    let mut out = Vec::new();
    for r in records {
        match r {
            FlexRecord::Position { symbol, position, mark_price, currency, position_value } => {
                let p = num(position).unwrap_or(0.0);
                let m = num(mark_price).unwrap_or(0.0);
                if p.abs() > 0.000001 {
                    out.push((AccountCategory::Stocks, symbol.clone(), p, currency.clone(), num(position_value).unwrap_or(p * m)));
                }
            }
            FlexRecord::Cash { currency, ending_cash } => {
                let c = num(ending_cash).unwrap_or(0.0);
                if c.abs() > 0.0001 {
                    out.push((AccountCategory::Cash, currency.clone(), c, currency.clone(), c));
                }
            }
        }
    }
    out
}

#[test]
fn test_parse_ibkr_statement_xml() {
    let xml = r#"<FlexQueryResponse queryName="Portfolio" type="AF">
            <FlexStatements count="1">
                <FlexStatement accountId="U1234567">
                    <OpenPositions>
                        <OpenPosition accountId="U1234567" currency="USD" symbol="AAPL" position="10" markPrice="175.50" positionValue="1755.00" />
                        <OpenPosition accountId="U1234567" currency="CHF" symbol="NESN" position="20" markPrice="98.20" positionValue="1964.00" />
                    </OpenPositions>
                    <CashReport>
                        <CashReportCurrency accountId="U1234567" currency="USD" endingCash="2500.50" />
                        <CashReportCurrency accountId="U1234567" currency="CHF" endingCash="850.00" />
                        <CashReportCurrency accountId="U1234567" currency="EUR" endingCash="0.00" />
                    </CashReport>
                </FlexStatement>
            </FlexStatements>
        </FlexQueryResponse>"#;

    let holdings = holdings(&parse_ibkr_statement_xml(xml));
    assert_eq!(holdings.len(), 4);
    assert_eq!(holdings[0].0, AccountCategory::Stocks);
    assert_eq!(holdings[0].1, "AAPL");
    assert_eq!(holdings[0].2, 10.0);
    assert_eq!(holdings[0].3, "USD");
    assert_eq!(holdings[0].4, 1755.0);

    assert_eq!(holdings[1].0, AccountCategory::Stocks);
    assert_eq!(holdings[1].1, "NESN");
    assert_eq!(holdings[1].2, 20.0);
    assert_eq!(holdings[1].3, "CHF");
    assert_eq!(holdings[1].4, 1964.0);

    assert_eq!(holdings[2].0, AccountCategory::Cash);
    assert_eq!(holdings[2].1, "USD");
    assert_eq!(holdings[2].2, 2500.50);

    assert_eq!(holdings[3].0, AccountCategory::Cash);
    assert_eq!(holdings[3].1, "CHF");
    assert_eq!(holdings[3].2, 850.00);
}

#[test]
fn statement_records_keep_numbers_as_written() {
    let xml = r#"<S><OpenPosition symbol="VT" position="3" currency="usd"/><OpenPosition position="1"/><CashSummaryItem currency="BASE_SUMMARY" endingCash="9"/><ChangeInCash currency="gbp"/></S>"#;
    let records = parse_ibkr_statement_xml(xml);
    assert_eq!(records.len(), 2);
    match &records[0] {
        FlexRecord::Position { symbol, position, mark_price, currency, position_value } => {
            assert_eq!(symbol, "VT");
            assert_eq!(position.as_deref(), Some("3"));
            assert_eq!(mark_price, &None);
            assert_eq!(currency, "USD");
            assert_eq!(position_value, &None);
        }
        _ => panic!("expected a position"),
    }
    match &records[1] {
        FlexRecord::Cash { currency, ending_cash } => {
            assert_eq!(currency, "GBP");
            assert_eq!(ending_cash, &None);
        }
        _ => panic!("expected cash"),
    }
}

#[test]
fn stock_targets_name_tickers_and_pairs() {
    let plan = stock_quote_plan("https://www.marketwatch.com/investing/stock/xmrusd/");
    assert_eq!(plan.ticker, "XMRUSD");
    assert_eq!(
        plan.urls,
        vec![
            "https://query1.finance.yahoo.com/v8/finance/chart/XMR-USD".to_string(),
            "https://query2.finance.yahoo.com/v8/finance/chart/XMR-USD".to_string(),
            "https://query1.finance.yahoo.com/v8/finance/chart/XMRUSD".to_string(),
            "https://query2.finance.yahoo.com/v8/finance/chart/XMRUSD".to_string(),
        ]
    );
    let plan = stock_quote_plan("  gme ");
    assert_eq!(plan.ticker, "GME");
    assert_eq!(plan.urls.len(), 2);
    let plan = stock_quote_plan("BTC-USD");
    assert_eq!(plan.urls.len(), 2);
    let plan = stock_quote_plan("USD");
    assert_eq!(plan.urls.len(), 2);
    assert_eq!(rate_quote_urls("USDCHF=X")[1], "https://query2.finance.yahoo.com/v8/finance/chart/USDCHF=X");
}

#[test]
fn chart_replies_decide_the_quote() {
    assert_eq!(stock_reply_verdict("GME", &QuoteReply::Priced(Some("GME.X".to_string()))), Some(("GME.X".to_string(), QuoteOutcome::Priced)));
    assert_eq!(stock_reply_verdict("GME", &QuoteReply::Priced(None)), Some(("GME".to_string(), QuoteOutcome::Priced)));
    assert_eq!(stock_reply_verdict("GME", &QuoteReply::NotFound), Some(("GME".to_string(), QuoteOutcome::Delisted)));
    assert_eq!(stock_reply_verdict("GME", &QuoteReply::Unusable), None);
}

#[test]
fn crypto_targets_name_slugs_and_pages() {
    let plan = crypto_quote_plan("https://coinmarketcap.com/currencies/Monero/");
    assert_eq!(plan.slug, "monero");
    assert_eq!(plan.symbol, "XMR");
    assert_eq!(plan.pair, "XMR-USD");
    assert_eq!(plan.page_url, "https://coinmarketcap.com/currencies/Monero/");
    assert_eq!(plan.gecko_url, "https://api.coingecko.com/api/v3/simple/price?ids=monero&vs_currencies=usd");
    let plan = crypto_quote_plan(" solana ");
    assert_eq!(plan.symbol, "SOLANA");
    assert_eq!(plan.page_url, "https://coinmarketcap.com/currencies/solana/");
}

#[test]
fn crypto_quotes_ask_coinmarketcap_first() {
    let plan = crypto_quote_plan("bitcoin");
    assert_eq!(plan.order, vec![CryptoSource::Page, CryptoSource::Gecko, CryptoSource::Pair]);
}

#[test]
fn tab_messages_keep_only_the_probe_reply_and_announced_headers() {
    let headers = vec![("Authorization".to_string(), Some("Bearer abc".to_string()))];
    let m = tab_message(Some(3), None, Some("tok".to_string()), headers.clone());
    assert_eq!(m.storage_value, Some("tok".to_string()));
    assert!(m.request_headers.is_empty());
    let m = tab_message(Some(2), None, Some("tok".to_string()), vec![]);
    assert_eq!(m.storage_value, None);
    let m = tab_message(None, Some("Network.requestWillBeSent".to_string()), None, headers.clone());
    assert_eq!(m.storage_value, None);
    assert_eq!(m.request_headers, headers);
    assert_eq!(message_token_candidates(&m), vec!["abc".to_string()]);
    let m = tab_message(None, Some("Network.responseReceived".to_string()), None, headers);
    assert!(m.request_headers.is_empty());
}

#[test]
fn usd_and_stablecoins_need_no_quote() {
    assert_eq!(usd_pair_for("USD"), None);
    assert_eq!(usd_pair_for("usdc"), None);
    assert_eq!(usd_pair_for("monero"), Some("XMR-USD".to_string()));
}

fn target(url: &str, kind: &str, ws: Option<&str>) -> DebugTarget {
    DebugTarget { url: url.to_string(), kind: kind.to_string(), websocket: ws.map(|s| s.to_string()) }
}

#[test]
fn the_first_debuggable_page_of_the_site_is_used() {
    let targets = vec![
        target("https://wallet.uphold.com/x", "service_worker", Some("ws://a")),
        target("https://wallet.uphold.com/dashboard", "page", None),
        target("https://example.com", "page", Some("ws://b")),
        target("https://wallet.uphold.com/dashboard", "page", Some("ws://c")),
        target("https://wallet.uphold.com/other", "page", Some("ws://d")),
    ];
    assert_eq!(debugger_url(&targets, SessionSite::Uphold.page_needle()), Some("ws://c".to_string()));
    assert_eq!(debugger_url(&targets, "finpension.ch"), None);
    assert!(SessionSite::Uphold.opens_missing_tab());
    assert!(!SessionSite::Finpension.opens_missing_tab());
    assert_eq!(SessionSite::Uphold.on_silence(), SilenceAction::Reload);
    assert_eq!(SessionSite::Swissquote.on_silence(), SilenceAction::Stop);
    assert_eq!(SessionSite::Finpension.listen_secs(), 5);
}

#[test]
fn tab_messages_offer_tokens_in_order() {
    let m = TabMessage {
        storage_value: Some("stored".to_string()),
        request_headers: vec![
            ("Accept".to_string(), Some("*/*".to_string())),
            ("AUTHORIZATION".to_string(), Some("Bearer Bearer  abc ".to_string())),
            ("authorization".to_string(), Some("Basic xyz".to_string())),
            ("Authorization".to_string(), None),
            ("authorization".to_string(), Some("Bearer def".to_string())),
        ],
    };
    assert_eq!(message_token_candidates(&m), vec!["stored".to_string(), "abc".to_string(), "def".to_string()]);
    let empty = TabMessage { storage_value: None, request_headers: vec![] };
    assert!(message_token_candidates(&empty).is_empty());
}

#[test]
fn typed_tokens_are_cleaned() {
    assert_eq!(clean_bearer_token("  Bearer eyJ.abc  "), "eyJ.abc");
    assert_eq!(clean_bearer_token("eyJ"), "eyJ");
    assert_eq!(clean_bearer_token("   "), "");
}

#[test]
fn coin_amounts_are_big_endian() {
    assert_eq!(blob_mojos(&vec![]), 0);
    assert_eq!(blob_mojos(&vec![0x01, 0x00]), 256);
    assert_eq!(blob_mojos(&vec![0x00, 0x00, 0x00, 0xE8, 0xD4, 0xA5, 0x10, 0x00]), 1_000_000_000_000);
    let mut long = vec![0xFFu8; 16];
    long.insert(0, 0x7F);
    assert_eq!(blob_mojos(&long), u128::MAX);
    assert_eq!(chia_mojo_total(&vec![vec![1], vec![2, 0]]), Some(513));
    assert_eq!(chia_mojo_total(&vec![vec![0xFF; 16], vec![1]]), None);
}

#[test]
fn balances_are_grouped_by_currency_in_order() {
    let cs: Vec<String> = ["GBP", "EUR", "GBP", "USD", "EUR"].iter().map(|s| s.to_string()).collect();
    let groups = group_by_currency(&cs);
    assert_eq!(
        groups,
        vec![
            ("GBP".to_string(), vec![0, 2]),
            ("EUR".to_string(), vec![1, 4]),
            ("USD".to_string(), vec![3]),
        ]
    );
    assert!(group_by_currency(&vec![]).is_empty());
}

#[test]
fn chia_wallet_files() {
    assert_eq!(chia_db_file_name(" 12345\n"), "blockchain_wallet_v2_r1_mainnet_12345.sqlite");
    assert!(is_chia_wallet_db("blockchain_wallet_v2_r1_mainnet_1.sqlite"));
    assert!(!is_chia_wallet_db("blockchain_wallet_v2_r1_mainnet_1.sqlite-wal"));
    assert!(!is_chia_wallet_db("wallet.sqlite"));
}

#[test]
fn portfolios_are_named_by_the_first_name_given() {
    let n = |v: &[Option<&str>], i: usize| portfolio_name(&v.iter().map(|o| o.map(|s| s.to_string())).collect(), i);
    assert_eq!(n(&[Some("Custom Equity 99"), None, None, None], 0), "Custom Equity 99");
    assert_eq!(n(&[None, None, None, Some("Finpension Equity 100")], 1), "Finpension Equity 100");
    assert_eq!(n(&[None, Some("Global"), Some("Welt"), None], 1), "Global");
    assert_eq!(n(&[None, None, None, None], 2), "Portfolio 3");
}
