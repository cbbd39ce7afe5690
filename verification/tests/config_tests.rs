use dashboard::config::{
    cash_list_to_save, custom_cash, get_monero_addresses, is_currency_code, is_reserved_automated_account,
    parse_amount_currency, parse_custom_cash_entry, rejected_cash_names, validate_custom_cash_item,
    Amount, CustomCashItem, StringOrVec,
};

fn value(a: &Amount) -> f64 {
    match a {
        Amount::Numeral(t) => t.parse().unwrap(),
        Amount::NotFinite => f64::NAN,
    }
}

fn amount_of(x: f64) -> Amount {
    if x.is_finite() {
        Amount::Numeral(format!("{}", x))
    } else {
        Amount::NotFinite
    }
}

fn string_or_vec(v: &serde_json::Value) -> StringOrVec {
    match v {
        serde_json::Value::String(s) => StringOrVec::Single(s.clone()),
        serde_json::Value::Array(a) => StringOrVec::Multiple(
            a.iter().map(|x| x.as_str().unwrap().to_string()).collect(),
        ),
        _ => panic!("not a string or list"),
    }
}

fn cash_items(v: &serde_json::Value) -> Vec<CustomCashItem> {
    v.as_array()
        .unwrap()
        .iter()
        .map(|c| CustomCashItem {
            name: c["name"].as_str().unwrap().to_string(),
            amount: amount_of(c["amount"].as_f64().unwrap()),
            currency: c["currency"].as_str().unwrap().to_string(),
        })
        .collect()
}

#[test]
fn test_string_or_vec_parsing() {
    let single: serde_json::Value = serde_json::from_str(r#"{"monero_wallet_address": "addr1"}"#).unwrap();
    assert_eq!(string_or_vec(&single["monero_wallet_address"]).into_vec(), vec!["addr1"]);

    let multi: serde_json::Value =
        serde_json::from_str(r#"{"monero_wallet_address": ["addr1", "addr2"]}"#).unwrap();
    assert_eq!(string_or_vec(&multi["monero_wallet_address"]).into_vec(), vec!["addr1", "addr2"]);
}

#[test]
fn monero_addresses_of_the_config_entry() {
    assert!(get_monero_addresses(None).is_empty());
    assert!(get_monero_addresses(Some(StringOrVec::Single(String::new()))).is_empty());
    assert_eq!(get_monero_addresses(Some(StringOrVec::Single("addr1".to_string()))), vec!["addr1"]);
    assert_eq!(
        get_monero_addresses(Some(StringOrVec::Multiple(vec!["a".to_string(), "b".to_string()]))),
        vec!["a", "b"]
    );
}

#[test]
fn test_parse_custom_cash_entry() {
    let e1 = parse_custom_cash_entry("Chase 1234.50 GBP").unwrap();
    assert_eq!((e1.name.as_str(), value(&e1.amount), e1.currency.as_str()), ("Chase", 1234.50, "GBP"));

    let e2 = parse_custom_cash_entry("Chase UK: £1,500").unwrap();
    assert_eq!((e2.name.as_str(), value(&e2.amount), e2.currency.as_str()), ("Chase UK", 1500.0, "GBP"));

    let e3 = parse_custom_cash_entry("Safe 500").unwrap();
    assert_eq!((e3.name.as_str(), value(&e3.amount), e3.currency.as_str()), ("Safe", 500.0, "CHF"));

    let e4 = parse_custom_cash_entry("Emergency EUR 1000").unwrap();
    assert_eq!((e4.name.as_str(), value(&e4.amount), e4.currency.as_str()), ("Emergency", 1000.0, "EUR"));

    let e5 = parse_custom_cash_entry("Account 2 1500 GBP").unwrap();
    assert_eq!((e5.name.as_str(), value(&e5.amount)), ("Account 2", 1500.0));

    let e6 = parse_custom_cash_entry("Infinity Bank 500 CHF").unwrap();
    assert_eq!((e6.name.as_str(), value(&e6.amount)), ("Infinity Bank", 500.0));

    assert!(parse_custom_cash_entry("1500 GBP").unwrap_err().contains("include a name"));
    assert!(parse_custom_cash_entry("Chase 1.500,50 EUR").is_err());
    assert!(parse_custom_cash_entry("Chase 1234,567").is_err());
    assert_eq!(value(&parse_custom_cash_entry("Chase 1'234.50 GBP").unwrap().amount), 1234.50);

    let e7 = parse_custom_cash_entry("Chase £1,500 GBP").unwrap();
    assert_eq!((e7.name.as_str(), value(&e7.amount), e7.currency.as_str()), ("Chase", 1500.0, "GBP"));
    assert!(parse_custom_cash_entry("Chase $500 GBP").unwrap_err().contains("contradicts"));

    let e8 = parse_custom_cash_entry("Gbp Account 5").unwrap();
    assert_eq!((e8.name.as_str(), e8.currency.as_str()), ("Gbp Account", "CHF"));
    assert!(parse_custom_cash_entry("Wallet 500 DKK").unwrap_err().contains("Unsupported currency"));
    assert_eq!(parse_custom_cash_entry("ATM 500").unwrap().name, "ATM");

    assert!(parse_custom_cash_entry("UBS 500 CHF").unwrap_err().contains("automated account"));
    assert!(parse_custom_cash_entry("ST 100 GBP").is_err());
    assert!(parse_custom_cash_entry("Wallet 100000 JPY").unwrap_err().contains("Unsupported currency"));
    assert!(parse_custom_cash_entry("").is_err());
    assert!(parse_custom_cash_entry("just words").is_err());
}

#[test]
fn test_parse_amount_currency() {
    let p = |s: &str| {
        let (a, c) = parse_amount_currency(s).unwrap();
        (value(&a), c)
    };
    assert_eq!(p("1500 GBP"), (1500.0, "GBP".to_string()));
    assert_eq!(p("1250.50"), (1250.50, "CHF".to_string()));
    assert_eq!(p("£500"), (500.0, "GBP".to_string()));
    assert_eq!(p("$2,500.25"), (2500.25, "USD".to_string()));
    assert_eq!(p("€300"), (300.0, "EUR".to_string()));
    assert_eq!(p("CHF 4000"), (4000.0, "CHF".to_string()));
    assert_eq!(p("5000 aud"), (5000.0, "AUD".to_string()));
    assert!(parse_amount_currency("").is_err());
    assert!(parse_amount_currency("invalid").is_err());
    assert!(parse_amount_currency("1500 pounds").is_err());
    assert!(parse_amount_currency("Chase 1500 GBP").is_err());
    assert!(parse_amount_currency("1500 DKK").unwrap_err().contains("Unsupported currency"));
    assert!(parse_amount_currency("1500,50 EUR").is_err());
    assert!(parse_amount_currency("1,5").is_err());
    assert!(parse_amount_currency("1234,567").is_err());
    assert_eq!(p("1,500,000 USD").0, 1_500_000.0);
    assert_eq!(p("£1500 GBP"), (1500.0, "GBP".to_string()));
    assert!(parse_amount_currency("£500$").is_err());
}

#[test]
fn test_config_custom_cash_list_validated() {
    let json_list: serde_json::Value = serde_json::from_str(
        r#"{
            "cash_misc": [
                {"name": "Chase", "amount": 1234.50, "currency": "gbp"},
                {"name": "ST", "amount": 100.0, "currency": "GBP"},
                {"name": "Wallet", "amount": 5.0, "currency": "JPY"},
                {"name": "Physical Cash", "amount": 250.0, "currency": "CHF"},
                {"name": "chase", "amount": 5.0, "currency": "GBP"}
            ]
        }"#,
    )
    .unwrap();
    let items = custom_cash(&cash_items(&json_list["cash_misc"]));
    assert_eq!(items.len(), 2, "reserved names, unsupported currencies and repeated names are collapsed");
    assert_eq!(
        (items[0].name.as_str(), value(&items[0].amount), items[0].currency.as_str()),
        ("chase", 5.0, "GBP")
    );
    assert_eq!(items[1].name, "Physical Cash");

    assert!(custom_cash(&Vec::new()).is_empty());
}

#[test]
fn reserved_accounts_are_recognised_in_any_case() {
    assert!(is_reserved_automated_account("UH"));
    assert!(is_reserved_automated_account(" kraken "));
    assert!(is_reserved_automated_account("ubs"));
    assert!(!is_reserved_automated_account("Chase"));
    assert!(!is_reserved_automated_account(""));
}

#[test]
fn currency_codes_are_three_letters() {
    assert!(is_currency_code("GBP"));
    assert!(is_currency_code("gbp"));
    assert!(!is_currency_code("GB"));
    assert!(!is_currency_code("G8P"));
    assert!(!is_currency_code("EURO"));
}

#[test]
fn validation_errors_name_their_cause() {
    let item = |name: &str, amount: Amount, cur: &str| CustomCashItem {
        name: name.to_string(),
        amount,
        currency: cur.to_string(),
    };
    assert_eq!(
        validate_custom_cash_item(&item("  ", amount_of(1.0), "CHF")).unwrap_err(),
        "Name cannot be empty"
    );
    assert_eq!(
        validate_custom_cash_item(&item("IB", amount_of(1.0), "CHF")).unwrap_err(),
        "'IB' is an automated account and cannot be added or modified as a custom cash field"
    );
    assert_eq!(
        validate_custom_cash_item(&item("Safe", Amount::NotFinite, "CHF")).unwrap_err(),
        "Amount must be a finite number"
    );
    assert!(validate_custom_cash_item(&item("Safe", amount_of(1.0), "JPY"))
        .unwrap_err()
        .starts_with("Unsupported currency 'JPY'"));
    assert!(validate_custom_cash_item(&item("Safe", amount_of(1.0), "CHF")).is_ok());
}

#[test]
fn saving_keeps_rejected_entries_after_the_app_fields() {
    let chase = CustomCashItem { name: "Chase".to_string(), amount: amount_of(1234.5), currency: "GBP".to_string() };
    let wallet = CustomCashItem { name: "Wallet".to_string(), amount: amount_of(5.0), currency: "JPY".to_string() };
    let safe = CustomCashItem { name: "Safe".to_string(), amount: amount_of(1.0), currency: "CHF".to_string() };
    let saved = cash_list_to_save(&vec![chase], &vec![wallet, safe]);
    let names: Vec<&str> = saved.iter().map(|c| c.name.as_str()).collect();
    assert_eq!(names, vec!["Chase", "Wallet"]);

    let rejected = rejected_cash_names(&saved);
    assert_eq!(rejected, vec!["Wallet".to_string()]);
}
