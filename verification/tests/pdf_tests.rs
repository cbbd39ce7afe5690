use dashboard::models::{AccountCategory, AccountMap};
use dashboard::pdf::{escape_latex, get_data_collection_timeframe, latex_typesettable};
use dashboard::statement::{
    statement_latex, ClassFigures, HoldingLine, QuoteLine, StatementInput, SummaryFigures,
    TimeframeLines,
};

const SEC: i128 = 1_000_000_000;
const NOW: i128 = 1_700_000_000 * SEC;

fn strings(v: &[&str]) -> Vec<String> {
    v.iter().map(|s| s.to_string()).collect()
}

#[test]
fn test_escape_latex() {
    assert_eq!(escape_latex("Stocks & Bonds"), "Stocks \\& Bonds");
    assert_eq!(escape_latex("100% Cash"), "100\\% Cash");
    assert_eq!(escape_latex("$USD_Balance#1"), "\\$USD\\_Balance\\#1");
    assert_eq!(escape_latex("{special}"), "\\{special\\}");
}

#[test]
fn test_escape_latex_degrades_unicode() {
    assert_eq!(escape_latex("Café"), "Café");
    assert_eq!(escape_latex("Łódź"), "Łódź");
    assert_eq!(escape_latex("Mum's €5 – envelope"), "Mum's €5 – envelope");
    assert_eq!(escape_latex("Piggy 🐷\tbank"), "Piggy ? bank");
    assert_eq!(escape_latex("Bitcoin ₿"), "Bitcoin ?");
    assert_eq!(escape_latex("Ħal Ưu Ŧ"), "?al ?u ?");
}

#[test]
fn escaping_spells_out_tilde_caret_and_backslash() {
    assert_eq!(escape_latex("a~b^c\\d"), "a\\textasciitilde{}b\\textasciicircum{}c\\textbackslash{}d");
    // escaping works character by character
    assert_eq!(escape_latex("50% & more"), format!("{}{}", escape_latex("50% "), escape_latex("& more")));
}

#[test]
fn typesettable_characters() {
    assert!(latex_typesettable('a'));
    assert!(latex_typesettable('é'));
    assert!(!latex_typesettable('\u{AD}'));
    assert!(!latex_typesettable('Ħ'));
    assert!(latex_typesettable('€'));
    assert!(!latex_typesettable('₿'));
}

fn figures() -> SummaryFigures {
    let f = |a: &str| ClassFigures { chf: a.to_string(), usd: a.to_string(), weight: "0.0".to_string() };
    SummaryFigures {
        crypto: f("0.00"),
        stocks: f("9'720.00"),
        cash: f("0.00"),
        retirement: f("0.00"),
        total_chf: "9'720.00".to_string(),
        total_usd: "12'000.00".to_string(),
        usd_chf: "0.810".to_string(),
        eur_chf: "0.940".to_string(),
        gbp_chf: "1.090".to_string(),
        aud_chf: "0.584".to_string(),
    }
}

fn holding(account: &str, category: AccountCategory, symbol: &str, manual: bool, gathered: Option<&str>) -> HoldingLine {
    HoldingLine {
        account: account.to_string(),
        category,
        symbol: symbol.to_string(),
        quantity: "100.0000".to_string(),
        native_value: "12'000.00".to_string(),
        native_currency: "USD".to_string(),
        value_chf: "9'720.00".to_string(),
        manual,
        gathered: gathered.map(|s| s.to_string()),
        stale: false,
    }
}

#[test]
fn test_generate_latex_contains_holdings_and_timestamps() {
    let input = StatementInput {
        generated: "05.09.2026 10:00:00".to_string(),
        generated_minutes: "05.09.2026 10:00".to_string(),
        timeframe: None,
        figures: figures(),
        holdings: vec![
            holding("Swissquote", AccountCategory::Stocks, "VT", false, Some("05.09.2026 09:59:00")),
            holding("Chase", AccountCategory::Cash, "GBP", true, None),
        ],
        quotes: vec![],
    };
    let tex = statement_latex(&input);
    assert!(tex.contains("Swissquote"));
    assert!(tex.contains("VT"));
    let chase_row = tex.lines().find(|l| l.contains("Chase")).expect("Chase row");
    assert!(chase_row.contains("(Manual)"), "{chase_row}");
    assert!(!chase_row.contains("Live") && !chase_row.contains("Stale"), "{chase_row}");
    assert!(tex.contains("Portfolio Holdings Statement"));
    assert!(tex.contains("Detailed Holdings Inventory"));
    assert!(tex.contains("Executive Summary"));
}

#[test]
fn test_data_collection_timeframe() {
    let accounts = strings(&["IB", "SQ", "Chase"]);
    let mut gathered: AccountMap<i128> = AccountMap::new();
    gathered.insert("IB", NOW - 3600 * SEC);
    gathered.insert("SQ", NOW);
    let tf = get_data_collection_timeframe(&accounts, &gathered, &vec![], &vec![]).unwrap();
    assert_eq!(tf.oldest_source, "IB");
    assert_eq!(tf.latest_source, "SQ");
    assert!(tf.span_secs >= 3600);

    let input = StatementInput {
        generated: "05.09.2026 10:00:00".to_string(),
        generated_minutes: "05.09.2026 10:00".to_string(),
        timeframe: Some(TimeframeLines {
            oldest_time: "05.09.2026 09:00:00".to_string(),
            oldest_source: tf.oldest_source.clone(),
            latest_time: "05.09.2026 10:00:00".to_string(),
            latest_source: tf.latest_source.clone(),
            span_secs: tf.span_secs,
        }),
        figures: figures(),
        holdings: vec![],
        quotes: vec![],
    };
    let tex = statement_latex(&input);
    assert!(tex.contains("Data Collection Timeframe"));
    assert!(tex.contains("Oldest: IB"));
    assert!(tex.contains("Latest: SQ"));
    assert!(tex.contains("\\textbf{Timespan:} 1h 00m"));
}

#[test]
fn no_gathering_gives_no_timeframe() {
    let accounts = strings(&["Chase"]);
    let gathered: AccountMap<i128> = AccountMap::new();
    assert!(get_data_collection_timeframe(&accounts, &gathered, &vec![], &vec![]).is_none());
}

#[test]
fn ties_pick_the_first_oldest_and_the_last_latest() {
    let accounts = strings(&["A", "B"]);
    let mut gathered: AccountMap<i128> = AccountMap::new();
    gathered.insert("A", NOW);
    gathered.insert("B", NOW);
    let symbols = strings(&["BTC"]);
    let times = vec![Some(NOW)];
    let tf = get_data_collection_timeframe(&accounts, &gathered, &symbols, &times).unwrap();
    assert_eq!(tf.oldest_source, "A");
    assert_eq!(tf.latest_source, "BTC");
    assert_eq!(tf.span_secs, 0);
}

#[test]
fn empty_statement_says_so_and_lists_no_quotes() {
    let input = StatementInput {
        generated: "01.01.2026 00:00:00".to_string(),
        generated_minutes: "01.01.2026 00:00".to_string(),
        timeframe: None,
        figures: figures(),
        holdings: vec![],
        quotes: vec![],
    };
    let tex = statement_latex(&input);
    assert!(tex.starts_with("\\documentclass[10pt,a4paper]{article}\n"));
    assert!(tex.ends_with("\n\\end{document}\n"));
    assert!(tex.contains("\\multicolumn{8}{c}{\\textit{No holdings loaded}} \\\\\n"));
    assert!(tex.contains("Live Snapshot (\\textbf{01.01.2026 00:00:00})"));
    assert!(!tex.contains("Reference Market Quotes Snapshot"));
}

#[test]
fn rows_are_numbered_escaped_and_marked() {
    let mut stale = holding("IB_1", AccountCategory::Stocks, "AAPL", false, Some("01.01.2026 09:00:00"));
    stale.stale = true;
    let input = StatementInput {
        generated: "01.01.2026 10:00:00".to_string(),
        generated_minutes: "01.01.2026 10:00".to_string(),
        timeframe: None,
        figures: figures(),
        holdings: vec![holding("ST", AccountCategory::Cash, "GBP", false, None), stale],
        quotes: vec![
            QuoteLine { symbol: "BTC".to_string(), is_crypto: true, price: "79850.12".to_string(), delay_ms: 12, gathered: Some("01.01.2026 09:59:59".to_string()) },
            QuoteLine { symbol: "GME".to_string(), is_crypto: false, price: "unloaded".to_string(), delay_ms: 0, gathered: None },
        ],
    };
    let tex = statement_latex(&input);
    assert!(tex.contains("1 & ST & \\textcolor{cash}{\\textbf{Cash}} & GBP & 100.0000 & 12'000.00 USD & 9'720.00 & Not recorded \\\\\n"));
    assert!(tex.contains("2 & IB\\_1 & \\textcolor{stocks}{\\textbf{Stocks}} & AAPL & 100.0000 & 12'000.00 USD & 9'720.00 & 01.01.2026 09:00:00 (\\textcolor{stale}{\\textbf{Stale}}) \\\\\n"));
    assert!(tex.contains("BTC & Crypto & 79850.12 & 12 ms & 01.01.2026 09:59:59 \\\\\n"));
    assert!(tex.contains("GME & Stock & unloaded & - & unloaded \\\\\n"));
    assert!(tex.contains("\\textcolor{stocks}{\\textbf{Stocks}} & 9'720.00 & 9'720.00 & 0.0\\% \\\\\n"));
    assert!(tex.contains("USD/CHF 0.810 \\quad$\\cdot$\\quad EUR/CHF 0.940"));
}
