//! The decisions of the dashboard's loops: what a key does, when an account is polled again and
//! how the polling backs off, and how an account's holdings are priced.
use vstd::prelude::*;
use crate::text;

verus! {

/// A key press, as far as the dashboard reads it.
#[derive(Clone, Copy, PartialEq, Eq, Structural, Debug)]
pub enum Key {
    Char(char),
    Up,
    Down,
    Other,
}

/// What a key press does.
#[derive(Clone, Copy, PartialEq, Eq, Structural, Debug)]
pub enum KeyAction {
    Quit,
    ScrollDown,
    ScrollUp,
    Nothing,
}

/// `q` or `Q` quits, `j` or Down scrolls down, `k` or Up scrolls up; other keys do nothing.
pub open spec fn key_effect(k: Key) -> KeyAction {
    match k {
        Key::Char(c) => if c == 'q' || c == 'Q' {
            KeyAction::Quit
        } else if c == 'j' {
            KeyAction::ScrollDown
        } else if c == 'k' {
            KeyAction::ScrollUp
        } else {
            KeyAction::Nothing
        },
        Key::Down => KeyAction::ScrollDown,
        Key::Up => KeyAction::ScrollUp,
        Key::Other => KeyAction::Nothing,
    }
}

/// What the key `k` does.
pub fn key_action(k: Key) -> (a: KeyAction)
    ensures
        a == key_effect(k),
{
    match k {
        Key::Char(c) => if c == 'q' || c == 'Q' {
            KeyAction::Quit
        } else if c == 'j' {
            KeyAction::ScrollDown
        } else if c == 'k' {
            KeyAction::ScrollUp
        } else {
            KeyAction::Nothing
        },
        Key::Down => KeyAction::ScrollDown,
        Key::Up => KeyAction::ScrollUp,
        Key::Other => KeyAction::Nothing,
    }
}

/// Whether an account is polled now: never polled, or polled at least `interval` ago (both in
/// nanoseconds).
pub fn should_poll(since_last: Option<u128>, interval: u128) -> (b: bool)
    ensures
        b == match since_last {
            Some(t) => t >= interval,
            None => true,
        },
{
    match since_last {
        Some(t) => !(t < interval),
        None => true,
    }
}

/// The accounts whose polling interval changes with success.
#[derive(Clone, Copy, PartialEq, Eq, Structural, Debug)]
pub enum PolledAccount {
    Starling,
    InteractiveBrokers,
    Finpension,
}

/// The interval in seconds before the next poll of `a`, after a poll that succeeded or failed,
/// when the interval was `current`. A failed Interactive Brokers poll backs off: at least 15
/// minutes, then doubling up to two hours.
pub open spec fn next_interval(a: PolledAccount, succeeded: bool, current: nat) -> nat {
    match a {
        PolledAccount::Starling => if succeeded {
            60
        } else {
            120
        },
        PolledAccount::Finpension => if succeeded {
            600
        } else {
            120
        },
        PolledAccount::InteractiveBrokers => if succeeded {
            600
        } else if current < 900 {
            900
        } else if current * 2 < 7200 {
            current * 2
        } else {
            7200
        },
    }
}

/// The interval in seconds before the next poll of `a`.
pub fn poll_interval_after(a: PolledAccount, succeeded: bool, current: u64) -> (r: u64)
    requires
        current <= u64::MAX / 2,
    ensures
        r == next_interval(a, succeeded, current as nat),
{
    match a {
        PolledAccount::Starling => if succeeded {
            60
        } else {
            120
        },
        PolledAccount::Finpension => if succeeded {
            600
        } else {
            120
        },
        PolledAccount::InteractiveBrokers => if succeeded {
            600
        } else if current < 900 {
            900
        } else if current * 2 < 7200 {
            current * 2
        } else {
            7200
        },
    }
}

/// The Interactive Brokers interval never leaves [10 minutes, 2 hours], and failures never
/// shorten it below 15 minutes.
pub proof fn law_backoff_bounds(succeeded: bool, current: nat)
    requires
        600 <= current <= 7200,
    ensures
        600 <= next_interval(PolledAccount::InteractiveBrokers, succeeded, current) <= 7200,
        !succeeded ==> next_interval(PolledAccount::InteractiveBrokers, succeeded, current) >= 900,
        !succeeded ==> next_interval(PolledAccount::InteractiveBrokers, succeeded, current)
            >= current,
{
}

/// How the value of a holding is found.
pub enum Pricing {
    /// A fiat balance, worth its amount in this currency.
    Fiat(String),
    /// A crypto balance, worth its amount times its USD price.
    InUsd,
}

/// The fiat currencies an exchange account holds as cash.
#[derive(Clone, Copy, PartialEq, Eq, Structural, Debug)]
pub enum Exchange {
    Uphold,
    Kraken,
    Coinbase,
}

/// How a balance in `cur` on exchange `e` is valued: Uphold and Kraken hold USD, EUR, GBP and
/// CHF as fiat; Coinbase holds USD and counts USDC as USD; anything else is priced in USD.
pub open spec fn pricing_of(e: Exchange, cur: Seq<char>) -> Option<Seq<char>> {
    match e {
        Exchange::Uphold | Exchange::Kraken => if cur == "USD"@ || cur == "EUR"@ || cur == "GBP"@
            || cur == "CHF"@ {
            Some(cur)
        } else {
            None
        },
        Exchange::Coinbase => if cur == "USD"@ || cur == "USDC"@ {
            Some("USD"@)
        } else {
            None
        },
    }
}

/// How a balance in `currency` on exchange `e` is valued.
pub fn pricing_for(e: Exchange, currency: &str) -> (r: Pricing)
    ensures
        match r {
            Pricing::Fiat(c) => pricing_of(e, currency@) == Some(c@),
            Pricing::InUsd => pricing_of(e, currency@) is None,
        },
{
    let c = text::chars_of(currency);
    match e {
        Exchange::Uphold | Exchange::Kraken => {
            if text::chars_eq_str(&c, "USD") || text::chars_eq_str(&c, "EUR") || text::chars_eq_str(
                &c,
                "GBP",
            ) || text::chars_eq_str(&c, "CHF") {
                Pricing::Fiat(currency.to_owned())
            } else {
                Pricing::InUsd
            }
        },
        Exchange::Coinbase => {
            if text::chars_eq_str(&c, "USD") || text::chars_eq_str(&c, "USDC") {
                Pricing::Fiat("USD".to_owned())
            } else {
                Pricing::InUsd
            }
        },
    }
}

} // verus!
