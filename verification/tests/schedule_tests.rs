use dashboard::schedule::{
    key_action, poll_interval_after, pricing_for, should_poll, Exchange, Key, KeyAction,
    PolledAccount, Pricing,
};

#[test]
fn keys_quit_and_scroll() {
    assert_eq!(key_action(Key::Char('q')), KeyAction::Quit);
    assert_eq!(key_action(Key::Char('Q')), KeyAction::Quit);
    assert_eq!(key_action(Key::Char('j')), KeyAction::ScrollDown);
    assert_eq!(key_action(Key::Down), KeyAction::ScrollDown);
    assert_eq!(key_action(Key::Char('k')), KeyAction::ScrollUp);
    assert_eq!(key_action(Key::Up), KeyAction::ScrollUp);
    assert_eq!(key_action(Key::Char('x')), KeyAction::Nothing);
    assert_eq!(key_action(Key::Other), KeyAction::Nothing);
}

#[test]
fn accounts_are_polled_once_their_interval_has_passed() {
    assert!(should_poll(None, 60));
    assert!(!should_poll(Some(59), 60));
    assert!(should_poll(Some(60), 60));
}

#[test]
fn interactive_brokers_backs_off_on_failure() {
    let mut i = 600;
    i = poll_interval_after(PolledAccount::InteractiveBrokers, false, i);
    assert_eq!(i, 900);
    i = poll_interval_after(PolledAccount::InteractiveBrokers, false, i);
    assert_eq!(i, 1800);
    i = poll_interval_after(PolledAccount::InteractiveBrokers, false, i);
    assert_eq!(i, 3600);
    i = poll_interval_after(PolledAccount::InteractiveBrokers, false, i);
    assert_eq!(i, 7200);
    i = poll_interval_after(PolledAccount::InteractiveBrokers, false, i);
    assert_eq!(i, 7200);
    assert_eq!(poll_interval_after(PolledAccount::InteractiveBrokers, true, i), 600);
    assert_eq!(poll_interval_after(PolledAccount::Starling, false, 60), 120);
    assert_eq!(poll_interval_after(PolledAccount::Starling, true, 120), 60);
    assert_eq!(poll_interval_after(PolledAccount::Finpension, false, 600), 120);
    assert_eq!(poll_interval_after(PolledAccount::Finpension, true, 120), 600);
}

fn fiat(p: Pricing) -> Option<String> {
    match p {
        Pricing::Fiat(c) => Some(c),
        Pricing::InUsd => None,
    }
}

#[test]
fn exchange_balances_are_fiat_or_priced_in_usd() {
    assert_eq!(fiat(pricing_for(Exchange::Uphold, "EUR")), Some("EUR".to_string()));
    assert_eq!(fiat(pricing_for(Exchange::Uphold, "AUD")), None);
    assert_eq!(fiat(pricing_for(Exchange::Kraken, "CHF")), Some("CHF".to_string()));
    assert_eq!(fiat(pricing_for(Exchange::Kraken, "BTC")), None);
    assert_eq!(fiat(pricing_for(Exchange::Coinbase, "USDC")), Some("USD".to_string()));
    assert_eq!(fiat(pricing_for(Exchange::Coinbase, "EUR")), None);
}
