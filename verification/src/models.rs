//! Portfolio bookkeeping that involves no prices: account categories, the live/stale state of
//! accounts, per-account maps, symbol normalisation, how an account's holdings are replaced, and
//! which data source is the most outdated.
use vstd::prelude::*;
use crate::text;

verus! {

/// The asset class of a holding.
#[derive(Clone, Copy, PartialEq, Eq, Structural, Debug)]
pub enum AccountCategory {
    Crypto,
    Stocks,
    Cash,
    Retirement,
}

impl AccountCategory {
    pub open spec fn label(self) -> Seq<char> {
        match self {
            AccountCategory::Crypto => "Crypto"@,
            AccountCategory::Stocks => "Stocks"@,
            AccountCategory::Cash => "Cash"@,
            AccountCategory::Retirement => "Retirement"@,
        }
    }

    /// The category's display name.
    pub fn name(&self) -> (r: String)
        ensures
            r@ == self.label(),
    {
        let s = match self {
            AccountCategory::Crypto => "Crypto",
            AccountCategory::Stocks => "Stocks",
            AccountCategory::Cash => "Cash",
            AccountCategory::Retirement => "Retirement",
        };
        s.to_owned()
    }
}

/// Whether an account's last update succeeded.
#[derive(Clone, Copy, PartialEq, Eq, Structural, Debug)]
pub enum SyncStatus {
    Live,
    Stale,
}

// ---------------------------------------------------------------------------------------------
// Per-account maps
// ---------------------------------------------------------------------------------------------

/// The map that a list of (account, value) pairs stands for; later pairs win.
pub open spec fn pairs_map<V>(ps: Seq<(String, V)>) -> Map<Seq<char>, V>
    decreases ps.len(),
{
    if ps.len() == 0 {
        Map::empty()
    } else {
        pairs_map(ps.drop_last()).insert(ps.last().0@, ps.last().1)
    }
}

pub open spec fn distinct_keys<V>(ps: Seq<(String, V)>) -> bool {
    forall|i: int, j: int| 0 <= i < j < ps.len() ==> (#[trigger] ps[i]).0@ != (#[trigger] ps[j]).0@
}

proof fn lemma_pairs_map_keys<V>(ps: Seq<(String, V)>)
    ensures
        forall|k: Seq<char>|
            pairs_map(ps).contains_key(k) <==> exists|i: int| 0 <= i < ps.len() && (#[trigger] ps[i]).0@ == k,
    decreases ps.len(),
{
    if ps.len() > 0 {
        let d = ps.drop_last();
        lemma_pairs_map_keys(d);
        assert forall|k: Seq<char>|
            pairs_map(ps).contains_key(k) implies exists|i: int| 0 <= i < ps.len() && (#[trigger] ps[i]).0@ == k by {
            if k == ps.last().0@ {
                assert(ps[ps.len() - 1].0@ == k);
            } else {
                assert(pairs_map(d).contains_key(k));
                let i = choose|i: int| 0 <= i < d.len() && (#[trigger] d[i]).0@ == k;
                assert(ps[i] == d[i]);
            }
        }
        assert forall|k: Seq<char>|
            (exists|i: int| 0 <= i < ps.len() && (#[trigger] ps[i]).0@ == k) implies pairs_map(ps).contains_key(k) by {
            let i = choose|i: int| 0 <= i < ps.len() && (#[trigger] ps[i]).0@ == k;
            if i < ps.len() - 1 {
                assert(d[i] == ps[i]);
                assert(pairs_map(d).contains_key(k));
            }
        }
    }
}

proof fn lemma_pairs_map_value<V>(ps: Seq<(String, V)>, i: int)
    requires
        distinct_keys(ps),
        0 <= i < ps.len(),
    ensures
        pairs_map(ps).contains_key(ps[i].0@),
        pairs_map(ps)[ps[i].0@] == ps[i].1,
    decreases ps.len(),
{
    if i < ps.len() - 1 {
        assert(ps.drop_last()[i] == ps[i]);
        assert(distinct_keys(ps.drop_last())) by {
            assert forall|a: int, b: int| 0 <= a < b < ps.drop_last().len() implies (
            #[trigger] ps.drop_last()[a]).0@ != (#[trigger] ps.drop_last()[b]).0@ by {
                assert(ps.drop_last()[a] == ps[a]);
                assert(ps.drop_last()[b] == ps[b]);
            }
        }
        lemma_pairs_map_value(ps.drop_last(), i);
        assert(ps[i].0@ != ps.last().0@);
    }
}

proof fn lemma_pairs_map_update<V>(ps: Seq<(String, V)>, i: int, p: (String, V))
    requires
        distinct_keys(ps),
        0 <= i < ps.len(),
        p.0@ == ps[i].0@,
    ensures
        pairs_map(ps.update(i, p)) == pairs_map(ps).insert(p.0@, p.1),
        distinct_keys(ps.update(i, p)),
    decreases ps.len(),
{
    let qs = ps.update(i, p);
    assert(distinct_keys(qs)) by {
        assert forall|a: int, b: int| 0 <= a < b < qs.len() implies (#[trigger] qs[a]).0@ != (
        #[trigger] qs[b]).0@ by {
            assert(ps[a].0@ != ps[b].0@);
        }
    }
    if i == ps.len() - 1 {
        assert(qs.drop_last() =~= ps.drop_last());
        assert(pairs_map(qs) =~= pairs_map(ps).insert(p.0@, p.1));
    } else {
        let d = ps.drop_last();
        assert(distinct_keys(d)) by {
            assert forall|a: int, b: int| 0 <= a < b < d.len() implies (#[trigger] d[a]).0@ != (
            #[trigger] d[b]).0@ by {
                assert(d[a] == ps[a]);
                assert(d[b] == ps[b]);
            }
        }
        lemma_pairs_map_update(d, i, p);
        assert(qs.drop_last() =~= d.update(i, p));
        assert(ps[i].0@ != ps.last().0@);
        assert(pairs_map(qs) =~= pairs_map(ps).insert(p.0@, p.1));
    }
}

/// Values kept per account name (a map keyed by the account's characters).
pub struct AccountMap<V> {
    entries: Vec<(String, V)>,
}

impl<V> AccountMap<V> {
    pub closed spec fn view(&self) -> Map<Seq<char>, V> {
        pairs_map(self.entries@)
    }

    #[verifier::type_invariant]
    closed spec fn keys_distinct(&self) -> bool {
        distinct_keys(self.entries@)
    }
}

impl<V: Copy> AccountMap<V> {
    pub fn new() -> (r: Self)
        ensures
            r.view() == Map::<Seq<char>, V>::empty(),
    {
        AccountMap { entries: Vec::new() }
    }

    fn index_of(&self, account: &str) -> (r: Option<usize>)
        ensures
            match r {
                Some(i) => i < self.entries.len() && self.entries@[i as int].0@ == account@,
                None => forall|i: int|
                    0 <= i < self.entries.len() ==> (#[trigger] self.entries@[i]).0@ != account@,
            },
    {
        let a = text::chars_of(account);
        let mut i: usize = 0;
        while i < self.entries.len()
            invariant
                i <= self.entries.len(),
                a@ == account@,
                forall|j: int| 0 <= j < i ==> (#[trigger] self.entries@[j]).0@ != account@,
            decreases self.entries.len() - i,
        {
            let k = text::chars_of(self.entries[i].0.as_str());
            if text::chars_eq(&k, &a) {
                return Some(i);
            }
            i += 1;
        }
        None
    }

    /// The value kept for `account`, if any.
    pub fn get(&self, account: &str) -> (r: Option<V>)
        ensures
            r == (if self.view().contains_key(account@) {
                Some(self.view()[account@])
            } else {
                None::<V>
            }),
    {
        proof {
            use_type_invariant(self);
            lemma_pairs_map_keys(self.entries@);
        }
        match self.index_of(account) {
            Some(i) => {
                proof {
                    lemma_pairs_map_value(self.entries@, i as int);
                }
                Some(self.entries[i].1)
            },
            None => None,
        }
    }

    /// Keeps `v` for `account`, replacing what was kept for it.
    pub fn insert(&mut self, account: &str, v: V)
        ensures
            final(self).view() == old(self).view().insert(account@, v),
    {
        proof {
            use_type_invariant(&*self);
            lemma_pairs_map_keys(self.entries@);
        }
        let key = account.to_owned();
        match self.index_of(account) {
            Some(i) => {
                proof {
                    lemma_pairs_map_update(self.entries@, i as int, (key, v));
                }
                let mut es = Vec::new();
                std::mem::swap(&mut es, &mut self.entries);
                es.set(i, (key, v));
                self.entries = es;
            },
            None => {
                let ghost before = self.entries@;
                let mut es = Vec::new();
                std::mem::swap(&mut es, &mut self.entries);
                es.push((key, v));
                proof {
                    assert(es@.drop_last() =~= before);
                    assert(distinct_keys(es@)) by {
                        assert forall|a: int, b: int| 0 <= a < b < es@.len() implies (
                        #[trigger] es@[a]).0@ != (#[trigger] es@[b]).0@ by {
                            if b == es@.len() - 1 {
                                assert(es@[a] == before[a]);
                            } else {
                                assert(es@[a] == before[a]);
                                assert(es@[b] == before[b]);
                            }
                        }
                    }
                }
                self.entries = es;
            },
        }
    }

    /// Keeps `v` for `account` unless something is kept for it already.
    pub fn insert_if_absent(&mut self, account: &str, v: V)
        ensures
            final(self).view() == (if old(self).view().contains_key(account@) {
                old(self).view()
            } else {
                old(self).view().insert(account@, v)
            }),
    {
        match self.get(account) {
            Some(_) => {},
            None => self.insert(account, v),
        }
    }
}

/// The live/stale state of each account.
pub type AccountSync = AccountMap<SyncStatus>;

impl AccountMap<SyncStatus> {
    pub fn mark_account_live(&mut self, account: &str)
        ensures
            final(self).view() == old(self).view().insert(account@, SyncStatus::Live),
    {
        self.insert(account, SyncStatus::Live)
    }

    pub fn mark_account_stale(&mut self, account: &str)
        ensures
            final(self).view() == old(self).view().insert(account@, SyncStatus::Stale),
    {
        self.insert(account, SyncStatus::Stale)
    }

    /// Whether the account's last update failed.
    pub fn is_account_stale(&self, account: &str) -> (b: bool)
        ensures
            b == (self.view().contains_key(account@) && self.view()[account@]
                == SyncStatus::Stale),
    {
        match self.get(account) {
            Some(SyncStatus::Stale) => true,
            _ => false,
        }
    }
}

/// Marking an account stale makes it stale, marking it live makes it not stale, and neither
/// changes what any other account reports.
pub proof fn law_sync_read_after_write(
    m: Map<Seq<char>, SyncStatus>,
    account: Seq<char>,
    other: Seq<char>,
    s: SyncStatus,
)
    requires
        other != account,
    ensures
        m.insert(account, s)[account] == s,
        m.insert(account, s).contains_key(account),
        m.insert(account, s).contains_key(other) == m.contains_key(other),
        m.contains_key(other) ==> m.insert(account, s)[other] == m[other],
{
}

// ---------------------------------------------------------------------------------------------
// Symbols and accounts
// ---------------------------------------------------------------------------------------------

/// The canonical ticker for a crypto symbol or name, compared upper-cased (stablecoins count as
/// USD); any other symbol is returned upper-cased.
pub open spec fn canonical_symbol(u: Seq<char>) -> Seq<char> {
    if u == "XMR"@ || u == "MONERO"@ {
        "XMR"@
    } else if u == "BTC"@ || u == "BITCOIN"@ {
        "BTC"@
    } else if u == "ETH"@ || u == "ETHEREUM"@ {
        "ETH"@
    } else if u == "BAT"@ || u == "BASIC-ATTENTION-TOKEN"@ {
        "BAT"@
    } else if u == "XCH"@ || u == "CHIA"@ || u == "CHIA-NETWORK"@ {
        "XCH"@
    } else if u == "DOGE"@ || u == "DOGECOIN"@ {
        "DOGE"@
    } else if u == "USDC"@ || u == "USD"@ || u == "USDT"@ {
        "USD"@
    } else {
        u
    }
}

fn canonical_symbol_of(u: &Vec<char>) -> (r: Vec<char>)
    ensures
        r@ == canonical_symbol(u@),
{
    if text::chars_eq_str(u, "XMR") || text::chars_eq_str(u, "MONERO") {
        text::chars_of("XMR")
    } else if text::chars_eq_str(u, "BTC") || text::chars_eq_str(u, "BITCOIN") {
        text::chars_of("BTC")
    } else if text::chars_eq_str(u, "ETH") || text::chars_eq_str(u, "ETHEREUM") {
        text::chars_of("ETH")
    } else if text::chars_eq_str(u, "BAT") || text::chars_eq_str(u, "BASIC-ATTENTION-TOKEN") {
        text::chars_of("BAT")
    } else if text::chars_eq_str(u, "XCH") || text::chars_eq_str(u, "CHIA") || text::chars_eq_str(
        u,
        "CHIA-NETWORK",
    ) {
        text::chars_of("XCH")
    } else if text::chars_eq_str(u, "DOGE") || text::chars_eq_str(u, "DOGECOIN") {
        text::chars_of("DOGE")
    } else if text::chars_eq_str(u, "USDC") || text::chars_eq_str(u, "USD") || text::chars_eq_str(
        u,
        "USDT",
    ) {
        text::chars_of("USD")
    } else {
        text::copy_chars(u)
    }
}

/// `normalize_crypto_symbol(sym)`: the canonical ticker of `sym` upper-cased.
pub open spec fn normalized_symbol(sym: Seq<char>) -> Seq<char> {
    canonical_symbol(text::upper_text(sym))
}

/// Maps crypto names and tickers to one canonical ticker (`monero` and `XMR` to `XMR`, stablecoins
/// to `USD`); other symbols come back upper-cased.
pub fn normalize_crypto_symbol(sym: &str) -> (r: String)
    ensures
        r@ == normalized_symbol(sym@),
{
    let v = text::chars_of(sym);
    let u = text::to_uppercase(&v);
    let c = canonical_symbol_of(&u);
    text::string_of(&c)
}

proof fn lemma_ascii_upper_fixed(s: Seq<char>)
    requires
        text::is_ascii(s),
    ensures
        text::is_ascii(text::ascii_upper(s)),
        text::ascii_upper(text::ascii_upper(s)) == text::ascii_upper(s),
{
    let u = text::ascii_upper(s);
    assert forall|i: int| 0 <= i < u.len() implies (#[trigger] u[i] as u32) < 128 by {
        assert((s[i] as u32) < 128);
    }
    assert(text::ascii_upper(u) =~= u);
}

/// A canonical ticker is upper-case ASCII and its own canonical ticker.
proof fn lemma_canonical_ticker_fixed(l: Seq<char>)
    requires
        l == "XMR"@ || l == "BTC"@ || l == "ETH"@ || l == "BAT"@ || l == "XCH"@ || l == "DOGE"@
            || l == "USD"@,
    ensures
        text::is_ascii(l),
        text::ascii_upper(l) == l,
        canonical_symbol(l) == l,
{
    reveal_strlit("XMR");
    reveal_strlit("MONERO");
    reveal_strlit("BTC");
    reveal_strlit("BITCOIN");
    reveal_strlit("ETH");
    reveal_strlit("ETHEREUM");
    reveal_strlit("BAT");
    reveal_strlit("BASIC-ATTENTION-TOKEN");
    reveal_strlit("XCH");
    reveal_strlit("CHIA");
    reveal_strlit("CHIA-NETWORK");
    reveal_strlit("DOGE");
    reveal_strlit("DOGECOIN");
    reveal_strlit("USDC");
    reveal_strlit("USD");
    reveal_strlit("USDT");
    assert(text::ascii_upper(l) =~= l);
    if l == "BTC"@ {
        assert(l[0] != "XMR"@[0]);
    } else if l == "ETH"@ {
        assert(l[0] != "XMR"@[0] && l[0] != "BTC"@[0]);
    } else if l == "BAT"@ {
        assert(l[0] != "XMR"@[0] && l[1] != "BTC"@[1] && l[0] != "ETH"@[0]);
    } else if l == "XCH"@ {
        assert(l[1] != "XMR"@[1] && l[0] != "BTC"@[0] && l[0] != "ETH"@[0] && l[0] != "BAT"@[0]);
    } else if l == "DOGE"@ {
        assert(l[0] != "BASIC-ATTENTION-TOKEN"@[0] && l[0] != "CHIA"@[0] && l[0] != "MONERO"@[0]);
    } else if l == "USD"@ {
        assert(l[0] != "XMR"@[0] && l[0] != "BTC"@[0] && l[0] != "ETH"@[0] && l[0] != "BAT"@[0]
            && l[0] != "XCH"@[0]);
    }
}

proof fn lemma_canonical_table()
    ensures
        canonical_symbol("XMR"@) == "XMR"@,
        canonical_symbol("MONERO"@) == "XMR"@,
        canonical_symbol("BTC"@) == "BTC"@,
        canonical_symbol("BITCOIN"@) == "BTC"@,
        canonical_symbol("ETH"@) == "ETH"@,
        canonical_symbol("ETHEREUM"@) == "ETH"@,
        canonical_symbol("BAT"@) == "BAT"@,
        canonical_symbol("BASIC-ATTENTION-TOKEN"@) == "BAT"@,
        canonical_symbol("XCH"@) == "XCH"@,
        canonical_symbol("CHIA"@) == "XCH"@,
        canonical_symbol("CHIA-NETWORK"@) == "XCH"@,
        canonical_symbol("DOGE"@) == "DOGE"@,
        canonical_symbol("DOGECOIN"@) == "DOGE"@,
        canonical_symbol("USDC"@) == "USD"@,
        canonical_symbol("USD"@) == "USD"@,
        canonical_symbol("USDT"@) == "USD"@,
{
    reveal_strlit("XMR");
    reveal_strlit("MONERO");
    reveal_strlit("BTC");
    reveal_strlit("BITCOIN");
    reveal_strlit("ETH");
    reveal_strlit("ETHEREUM");
    reveal_strlit("BAT");
    reveal_strlit("BASIC-ATTENTION-TOKEN");
    reveal_strlit("XCH");
    reveal_strlit("CHIA");
    reveal_strlit("CHIA-NETWORK");
    reveal_strlit("DOGE");
    reveal_strlit("DOGECOIN");
    reveal_strlit("USDC");
    reveal_strlit("USD");
    reveal_strlit("USDT");
    assert("XMR"@.len() == 3);
    assert("MONERO"@.len() == 6);
    assert("BTC"@.len() == 3);
    assert("BITCOIN"@.len() == 7);
    assert("ETH"@.len() == 3);
    assert("ETHEREUM"@.len() == 8);
    assert("BAT"@.len() == 3);
    assert("BASIC-ATTENTION-TOKEN"@.len() == 21);
    assert("XCH"@.len() == 3);
    assert("CHIA"@.len() == 4);
    assert("CHIA-NETWORK"@.len() == 12);
    assert("DOGE"@.len() == 4);
    assert("DOGECOIN"@.len() == 8);
    assert("USDC"@.len() == 4);
    assert("USD"@.len() == 3);
    assert("USDT"@.len() == 4);
    assert("XMR"@[0] == 'X');
    assert("XMR"@[1] == 'M');
    assert("XMR"@[2] == 'R');
    assert("MONERO"@[0] == 'M');
    assert("MONERO"@[1] == 'O');
    assert("MONERO"@[2] == 'N');
    assert("MONERO"@[3] == 'E');
    assert("BTC"@[0] == 'B');
    assert("BTC"@[1] == 'T');
    assert("BTC"@[2] == 'C');
    assert("BITCOIN"@[0] == 'B');
    assert("BITCOIN"@[1] == 'I');
    assert("BITCOIN"@[2] == 'T');
    assert("BITCOIN"@[3] == 'C');
    assert("ETH"@[0] == 'E');
    assert("ETH"@[1] == 'T');
    assert("ETH"@[2] == 'H');
    assert("ETHEREUM"@[0] == 'E');
    assert("ETHEREUM"@[1] == 'T');
    assert("ETHEREUM"@[2] == 'H');
    assert("ETHEREUM"@[3] == 'E');
    assert("BAT"@[0] == 'B');
    assert("BAT"@[1] == 'A');
    assert("BAT"@[2] == 'T');
    assert("BASIC-ATTENTION-TOKEN"@[0] == 'B');
    assert("BASIC-ATTENTION-TOKEN"@[1] == 'A');
    assert("BASIC-ATTENTION-TOKEN"@[2] == 'S');
    assert("BASIC-ATTENTION-TOKEN"@[3] == 'I');
    assert("XCH"@[0] == 'X');
    assert("XCH"@[1] == 'C');
    assert("XCH"@[2] == 'H');
    assert("CHIA"@[0] == 'C');
    assert("CHIA"@[1] == 'H');
    assert("CHIA"@[2] == 'I');
    assert("CHIA"@[3] == 'A');
    assert("CHIA-NETWORK"@[0] == 'C');
    assert("CHIA-NETWORK"@[1] == 'H');
    assert("CHIA-NETWORK"@[2] == 'I');
    assert("CHIA-NETWORK"@[3] == 'A');
    assert("DOGE"@[0] == 'D');
    assert("DOGE"@[1] == 'O');
    assert("DOGE"@[2] == 'G');
    assert("DOGE"@[3] == 'E');
    assert("DOGECOIN"@[0] == 'D');
    assert("DOGECOIN"@[1] == 'O');
    assert("DOGECOIN"@[2] == 'G');
    assert("DOGECOIN"@[3] == 'E');
    assert("USDC"@[0] == 'U');
    assert("USDC"@[1] == 'S');
    assert("USDC"@[2] == 'D');
    assert("USDC"@[3] == 'C');
    assert("USD"@[0] == 'U');
    assert("USD"@[1] == 'S');
    assert("USD"@[2] == 'D');
    assert("USDT"@[0] == 'U');
    assert("USDT"@[1] == 'S');
    assert("USDT"@[2] == 'D');
    assert("USDT"@[3] == 'T');
}

/// A coin's name and its ticker, in any ASCII case, normalise to the same ticker: `monero` and
/// `XMR` to `XMR`, `bitcoin` and `BTC` to `BTC`, `ethereum` and `ETH` to `ETH`,
/// `basic-attention-token` and `BAT` to `BAT`, `chia`, `chia-network` and `XCH` to `XCH`,
/// `dogecoin` and `DOGE` to `DOGE`, and the stablecoins `USDC`, `USDT` with `USD` to `USD`.
pub proof fn law_coin_names_match_tickers(sym: Seq<char>)
    requires
        text::is_ascii(sym),
    ensures
        text::ascii_upper(sym) == "XMR"@ ==> normalized_symbol(sym) == "XMR"@,
        text::ascii_upper(sym) == "MONERO"@ ==> normalized_symbol(sym) == "XMR"@,
        text::ascii_upper(sym) == "BTC"@ ==> normalized_symbol(sym) == "BTC"@,
        text::ascii_upper(sym) == "BITCOIN"@ ==> normalized_symbol(sym) == "BTC"@,
        text::ascii_upper(sym) == "ETH"@ ==> normalized_symbol(sym) == "ETH"@,
        text::ascii_upper(sym) == "ETHEREUM"@ ==> normalized_symbol(sym) == "ETH"@,
        text::ascii_upper(sym) == "BAT"@ ==> normalized_symbol(sym) == "BAT"@,
        text::ascii_upper(sym) == "BASIC-ATTENTION-TOKEN"@ ==> normalized_symbol(sym) == "BAT"@,
        text::ascii_upper(sym) == "XCH"@ ==> normalized_symbol(sym) == "XCH"@,
        text::ascii_upper(sym) == "CHIA"@ ==> normalized_symbol(sym) == "XCH"@,
        text::ascii_upper(sym) == "CHIA-NETWORK"@ ==> normalized_symbol(sym) == "XCH"@,
        text::ascii_upper(sym) == "DOGE"@ ==> normalized_symbol(sym) == "DOGE"@,
        text::ascii_upper(sym) == "DOGECOIN"@ ==> normalized_symbol(sym) == "DOGE"@,
        text::ascii_upper(sym) == "USDC"@ ==> normalized_symbol(sym) == "USD"@,
        text::ascii_upper(sym) == "USD"@ ==> normalized_symbol(sym) == "USD"@,
        text::ascii_upper(sym) == "USDT"@ ==> normalized_symbol(sym) == "USD"@,
{
    lemma_canonical_table();
}

/// Normalising a symbol twice gives what normalising it once gave: a canonical ticker maps to
/// itself, and so does any other upper-cased symbol (for symbols written in ASCII, whose
/// upper-casing is the ASCII mapping).
pub proof fn law_normalize_idempotent(sym: Seq<char>)
    requires
        text::is_ascii(sym),
    ensures
        normalized_symbol(normalized_symbol(sym)) == normalized_symbol(sym),
{
    let u = text::ascii_upper(sym);
    lemma_ascii_upper_fixed(sym);
    let c = canonical_symbol(u);
    if c == u {
    } else {
        lemma_canonical_ticker_fixed(c);
    }
}

/// The first ticker whose symbol normalises to `norm` and that has a price, or -1.
pub open spec fn first_priced_ticker(symbols: Seq<Seq<char>>, priced: Seq<bool>, norm: Seq<char>) -> int
    decreases symbols.len(),
{
    if symbols.len() == 0 {
        -1
    } else {
        let p = first_priced_ticker(symbols.drop_last(), priced.drop_last(), norm);
        if p >= 0 {
            p
        } else if normalized_symbol(symbols.last()) == norm && priced[symbols.len() - 1] {
            symbols.len() - 1
        } else {
            -1
        }
    }
}

proof fn lemma_first_priced_prefix(symbols: Seq<Seq<char>>, priced: Seq<bool>, norm: Seq<char>, i: int)
    requires
        0 <= i <= symbols.len() == priced.len(),
    ensures
        first_priced_ticker(symbols.take(i), priced.take(i), norm) >= 0 ==> first_priced_ticker(
            symbols,
            priced,
            norm,
        ) == first_priced_ticker(symbols.take(i), priced.take(i), norm),
    decreases symbols.len() - i,
{
    if i < symbols.len() {
        assert(symbols.drop_last().take(i) =~= symbols.take(i));
        assert(priced.drop_last().take(i) =~= priced.take(i));
        lemma_first_priced_prefix(symbols.drop_last(), priced.drop_last(), norm, i);
    } else {
        assert(symbols.take(i) =~= symbols);
        assert(priced.take(i) =~= priced);
    }
}

/// The ticker whose price values a crypto holding whose symbol normalises to `norm`: the first
/// ticker with that normalised symbol and a price (`priced[i]`).
pub fn priced_ticker_for(symbols: &Vec<String>, priced: &Vec<bool>, norm: &str) -> (r: Option<usize>)
    requires
        symbols.len() == priced.len(),
    ensures
        match r {
            Some(i) => i as int == first_priced_ticker(string_views(symbols@), priced@, norm@),
            None => first_priced_ticker(string_views(symbols@), priced@, norm@) == -1,
        },
{
    let ghost sv = string_views(symbols@);
    let nv = text::chars_of(norm);
    let mut i: usize = 0;
    assert(sv.take(0) =~= Seq::<Seq<char>>::empty());
    while i < symbols.len()
        invariant
            i <= symbols.len() == priced.len(),
            sv == string_views(symbols@),
            nv@ == norm@,
            first_priced_ticker(sv.take(i as int), priced@.take(i as int), norm@) == -1,
        decreases symbols.len() - i,
    {
        assert(sv.take(i + 1).drop_last() =~= sv.take(i as int));
        assert(priced@.take(i + 1).drop_last() =~= priced@.take(i as int));
        assert(sv.take(i + 1).last() == symbols@[i as int]@);
        let n = normalize_crypto_symbol(symbols[i].as_str());
        let m = text::chars_of(n.as_str());
        if text::chars_eq(&m, &nv) && priced[i] {
            proof {
                lemma_first_priced_prefix(sv, priced@, norm@, i + 1);
            }
            return Some(i);
        }
        i += 1;
    }
    assert(sv.take(symbols.len() as int) =~= sv);
    assert(priced@.take(symbols.len() as int) =~= priced@);
    None
}

/// Where the USD price of a crypto symbol comes from: it is 1 (USD and the stablecoins), the
/// price cache holds it, the ticker at this index has it, or nothing knows it.
#[derive(Clone, Copy, Debug, PartialEq, Eq, Structural)]
pub enum PriceSource {
    Unit,
    Cached,
    Ticker(usize),
    Unknown,
}

/// The price source for the normalised symbol `norm`: 1 for USD, else the cache when it holds
/// `norm` (`cached`), else the first priced ticker that normalises to `norm`.
pub open spec fn price_source_of(
    norm: Seq<char>,
    cached: bool,
    symbols: Seq<Seq<char>>,
    priced: Seq<bool>,
) -> PriceSource {
    if norm == "USD"@ {
        PriceSource::Unit
    } else if cached {
        PriceSource::Cached
    } else {
        let i = first_priced_ticker(symbols, priced, norm);
        if i >= 0 {
            PriceSource::Ticker(i as usize)
        } else {
            PriceSource::Unknown
        }
    }
}

/// Where `get_crypto_price` takes the price of the normalised symbol `norm` from, given whether
/// the price cache holds `norm` and the tickers' symbols and whether each has a price.
pub fn crypto_price_source(norm: &str, cached: bool, symbols: &Vec<String>, priced: &Vec<bool>) -> (r:
    PriceSource)
    requires
        symbols.len() == priced.len(),
    ensures
        r == price_source_of(norm@, cached, string_views(symbols@), priced@),
{
    let nv = text::chars_of(norm);
    if text::chars_eq_str(&nv, "USD") {
        PriceSource::Unit
    } else if cached {
        PriceSource::Cached
    } else {
        match priced_ticker_for(symbols, priced, norm) {
            Some(i) => PriceSource::Ticker(i),
            None => PriceSource::Unknown,
        }
    }
}

/// The accounts whose data comes from a browser session.
pub open spec fn session_account(account: Seq<char>) -> bool {
    account == "UH"@ || account == "FP"@ || account == "SQ"@ || account == "REV"@ || account
        == "UBS"@
}

/// Whether the account's data comes from a browser session.
pub fn is_session_dependent(account: &str) -> (b: bool)
    ensures
        b == session_account(account@),
{
    let a = text::chars_of(account);
    text::chars_eq_str(&a, "UH") || text::chars_eq_str(&a, "FP") || text::chars_eq_str(&a, "SQ")
        || text::chars_eq_str(&a, "REV") || text::chars_eq_str(&a, "UBS")
}

/// The symbol a ticker starts with before its first quote: the last path segment of the target
/// (trailing slashes ignored), upper-cased.
pub open spec fn initial_symbol(target: Seq<char>) -> Seq<char> {
    text::upper_text(text::split_on(text::strip_end(target, text::CharClass::Slash), text::CharClass::Slash).last())
}

pub(crate) fn strip_end_chars(v: &Vec<char>, k: text::CharClass) -> (r: Vec<char>)
    ensures
        r@ == text::strip_end(v@, k),
{
    let mut j: usize = v.len();
    assert(v@.subrange(0, j as int) =~= v@);
    while j > 0 && text::is_in_class(k, v[j - 1])
        invariant
            j <= v.len(),
            text::strip_end(v@, k) == text::strip_end(v@.subrange(0, j as int), k),
        decreases j,
    {
        let ghost t = v@.subrange(0, j as int);
        assert(t.drop_last() =~= v@.subrange(0, j - 1));
        j -= 1;
    }
    text::copy_range(v, 0, j)
}

/// The symbol of a new ticker for `target`, a URL or a bare symbol.
pub fn initial_ticker_symbol(target: &str) -> (r: String)
    ensures
        r@ == initial_symbol(target@),
{
    let v = text::chars_of(target);
    let t = strip_end_chars(&v, text::CharClass::Slash);
    let parts = text::split_chars(&t, text::CharClass::Slash);
    proof {
        text::lemma_split_on_nonempty(t@, text::CharClass::Slash);
    }
    let last = &parts[parts.len() - 1];
    let u = text::to_uppercase(last);
    text::string_of(&u)
}

// ---------------------------------------------------------------------------------------------
// Valuation decisions
// ---------------------------------------------------------------------------------------------

/// The rate that converts an amount in some currency to CHF.
#[derive(Clone, Copy, PartialEq, Eq, Structural, Debug)]
pub enum FxCurrency {
    Chf,
    Usd,
    Eur,
    Gbp,
    Aud,
}

/// The rate applied to `currency` (compared upper-cased); an unknown currency is valued at USD.
pub open spec fn fx_currency(currency: Seq<char>) -> FxCurrency {
    let u = text::upper_text(currency);
    if u == "CHF"@ {
        FxCurrency::Chf
    } else if u == "USD"@ {
        FxCurrency::Usd
    } else if u == "EUR"@ {
        FxCurrency::Eur
    } else if u == "GBP"@ {
        FxCurrency::Gbp
    } else if u == "AUD"@ {
        FxCurrency::Aud
    } else {
        FxCurrency::Usd
    }
}

/// Which of the CHF rates converts an amount in `currency` (`FxRates::to_chf`).
pub fn rate_for_currency(currency: &str) -> (r: FxCurrency)
    ensures
        r == fx_currency(currency@),
{
    let v = text::chars_of(currency);
    let u = text::to_uppercase(&v);
    if text::chars_eq_str(&u, "CHF") {
        FxCurrency::Chf
    } else if text::chars_eq_str(&u, "USD") {
        FxCurrency::Usd
    } else if text::chars_eq_str(&u, "EUR") {
        FxCurrency::Eur
    } else if text::chars_eq_str(&u, "GBP") {
        FxCurrency::Gbp
    } else if text::chars_eq_str(&u, "AUD") {
        FxCurrency::Aud
    } else {
        FxCurrency::Usd
    }
}

/// How a holding's native value is refreshed.
#[derive(Clone, Copy, PartialEq, Eq, Structural, Debug)]
pub enum Valuation {
    /// The holding is cash in this currency: its native value is its amount.
    Fiat(FxCurrency),
    /// A crypto holding: its native value is amount times the USD price, when a price is known.
    PricedInUsd,
    /// The native value is left as it is.
    Unchanged,
}

/// The valuation of a holding with this symbol and category: the fiat currencies CHF, USD (and
/// the stablecoins), EUR and GBP are cash; other crypto symbols are priced in USD.
pub open spec fn valuation(symbol: Seq<char>, category: AccountCategory) -> Valuation {
    let n = normalized_symbol(symbol);
    if n == "USD"@ {
        Valuation::Fiat(FxCurrency::Usd)
    } else if n == "EUR"@ {
        Valuation::Fiat(FxCurrency::Eur)
    } else if n == "GBP"@ {
        Valuation::Fiat(FxCurrency::Gbp)
    } else if n == "CHF"@ {
        Valuation::Fiat(FxCurrency::Chf)
    } else if category == AccountCategory::Crypto {
        Valuation::PricedInUsd
    } else {
        Valuation::Unchanged
    }
}

pub fn valuation_of(symbol: &str, category: AccountCategory) -> (r: Valuation)
    ensures
        r == valuation(symbol@, category),
{
    let n = normalize_crypto_symbol(symbol);
    let v = text::chars_of(n.as_str());
    if text::chars_eq_str(&v, "USD") {
        Valuation::Fiat(FxCurrency::Usd)
    } else if text::chars_eq_str(&v, "EUR") {
        Valuation::Fiat(FxCurrency::Eur)
    } else if text::chars_eq_str(&v, "GBP") {
        Valuation::Fiat(FxCurrency::Gbp)
    } else if text::chars_eq_str(&v, "CHF") {
        Valuation::Fiat(FxCurrency::Chf)
    } else if category == AccountCategory::Crypto {
        Valuation::PricedInUsd
    } else {
        Valuation::Unchanged
    }
}

/// Whether a holding's CHF value is recomputed from its native value; Swissquote reports CHF
/// values itself.
pub fn revalued_in_chf(account: &str) -> (b: bool)
    ensures
        b == (account@ != "SQ"@),
{
    let a = text::chars_of(account);
    !text::chars_eq_str(&a, "SQ")
}


// ---------------------------------------------------------------------------------------------
// Replacing an account's holdings
// ---------------------------------------------------------------------------------------------

/// Where an item of an updated holdings list comes from.
#[derive(Clone, Copy, PartialEq, Eq, Structural, Debug)]
pub enum Slot {
    /// The old item at this index.
    Old(usize),
    /// The new item at this index.
    New(usize),
}

/// The first index of `a` in `accs`, or `accs.len()` when it does not occur.
pub open spec fn first_index_of(accs: Seq<Seq<char>>, a: Seq<char>) -> int
    decreases accs.len(),
{
    if accs.len() == 0 {
        0
    } else {
        let f = first_index_of(accs.drop_last(), a);
        if f < accs.len() - 1 {
            f
        } else if accs.last() == a {
            accs.len() - 1
        } else {
            accs.len() as int
        }
    }
}

/// The old items at indices `lo` and up whose account is not `a`, in order.
pub open spec fn kept_from(accs: Seq<Seq<char>>, a: Seq<char>, lo: int) -> Seq<Slot>
    decreases accs.len(),
{
    if accs.len() == 0 || accs.len() <= lo {
        Seq::<Slot>::empty()
    } else {
        let r = kept_from(accs.drop_last(), a, lo);
        if accs.last() == a {
            r
        } else {
            r.push(Slot::Old((accs.len() - 1) as usize))
        }
    }
}

pub open spec fn old_slots(n: int) -> Seq<Slot> {
    Seq::new(n as nat, |i: int| Slot::Old(i as usize))
}

pub open spec fn new_slots(n: int) -> Seq<Slot> {
    Seq::new(n as nat, |j: int| Slot::New(j as usize))
}

/// The holdings after account `a` reports `n` new items: the new items take the place of the
/// account's first old item (or go last when it had none), the account's other old items are
/// dropped, and every other account's items stay in order.
pub open spec fn merge_plan(accs: Seq<Seq<char>>, a: Seq<char>, n: int) -> Seq<Slot> {
    let f = first_index_of(accs, a);
    old_slots(f) + new_slots(n) + kept_from(accs, a, f + 1)
}

pub open spec fn string_views(v: Seq<String>) -> Seq<Seq<char>> {
    v.map_values(|s: String| s@)
}

proof fn lemma_first_index_bounds(accs: Seq<Seq<char>>, a: Seq<char>)
    ensures
        0 <= first_index_of(accs, a) <= accs.len(),
        first_index_of(accs, a) < accs.len() ==> accs[first_index_of(accs, a)] == a,
        forall|i: int| 0 <= i < first_index_of(accs, a) ==> accs[i] != a,
    decreases accs.len(),
{
    if accs.len() > 0 {
        lemma_first_index_bounds(accs.drop_last(), a);
        assert forall|i: int| 0 <= i < first_index_of(accs, a) implies accs[i] != a by {
            if i < accs.len() - 1 {
                assert(accs[i] == accs.drop_last()[i]);
            }
        }
        if first_index_of(accs, a) < accs.len() - 1 {
            assert(accs[first_index_of(accs, a)] == accs.drop_last()[first_index_of(accs, a)]);
        }
    }
}

/// Where each item of an account's updated holdings comes from: `accounts` are the accounts of
/// the old items, in order; `account` reported `n_new` new items.
pub fn account_merge_plan(accounts: &Vec<String>, account: &str, n_new: usize) -> (r: Vec<Slot>)
    ensures
        r@ == merge_plan(string_views(accounts@), account@, n_new as int),
{
    let ghost accs = string_views(accounts@);
    let a = text::chars_of(account);
    let mut r: Vec<Slot> = Vec::new();
    let mut inserted = false;
    let mut i: usize = 0;
    assert(accs.take(0) =~= Seq::<Seq<char>>::empty());
    assert(r@ =~= old_slots(0));
    while i < accounts.len()
        invariant
            i <= accounts.len(),
            accs == string_views(accounts@),
            a@ == account@,
            inserted == (first_index_of(accs.take(i as int), account@) < i),
            !inserted ==> first_index_of(accs.take(i as int), account@) == i,
            inserted ==> r@ == old_slots(first_index_of(accs.take(i as int), account@)) + new_slots(
                n_new as int,
            ) + kept_from(accs.take(i as int), account@, first_index_of(accs.take(i as int), account@) + 1),
            !inserted ==> r@ == old_slots(i as int),
        decreases accounts.len() - i,
    {
        let ghost pre = accs.take(i as int);
        let ghost nxt = accs.take(i + 1);
        assert(nxt.drop_last() =~= pre);
        assert(nxt.last() == accounts@[i as int]@);
        let ghost f = first_index_of(pre, account@);
        let k = text::chars_of(accounts[i].as_str());
        if text::chars_eq(&k, &a) {
            if !inserted {
                let ghost before = r@;
                let mut j: usize = 0;
                while j < n_new
                    invariant
                        j <= n_new,
                        r@ == before + new_slots(j as int),
                    decreases n_new - j,
                {
                    r.push(Slot::New(j));
                    j += 1;
                    assert(r@ =~= before + new_slots(j as int));
                }
                inserted = true;
                assert(first_index_of(nxt, account@) == i);
                assert(kept_from(nxt, account@, i + 1) =~= Seq::<Slot>::empty());
                assert(r@ =~= old_slots(i as int) + new_slots(n_new as int) + kept_from(
                    nxt,
                    account@,
                    i + 1,
                ));
            } else {
                assert(first_index_of(nxt, account@) == f);
                assert(kept_from(nxt, account@, f + 1) == kept_from(pre, account@, f + 1));
            }
        } else {
            let ghost before = r@;
            r.push(Slot::Old(i));
            if inserted {
                assert(first_index_of(nxt, account@) == f);
                assert(kept_from(nxt, account@, f + 1) == kept_from(pre, account@, f + 1).push(
                    Slot::Old(i),
                ));
                assert(r@ =~= old_slots(f) + new_slots(n_new as int) + kept_from(
                    nxt,
                    account@,
                    f + 1,
                ));
            } else {
                assert(first_index_of(nxt, account@) == i + 1);
                assert(r@ =~= old_slots(i + 1));
            }
        }
        i += 1;
    }
    assert(accs.take(accounts.len() as int) =~= accs);
    if !inserted {
        let ghost before = r@;
        let mut j: usize = 0;
        while j < n_new
            invariant
                j <= n_new,
                r@ == before + new_slots(j as int),
            decreases n_new - j,
        {
            r.push(Slot::New(j));
            j += 1;
            assert(r@ =~= before + new_slots(j as int));
        }
        proof {
            lemma_kept_from_empty(accs, account@, accs.len() as int + 1);
        }
        assert(r@ =~= old_slots(accs.len() as int) + new_slots(n_new as int) + kept_from(
            accs,
            account@,
            accs.len() as int + 1,
        ));
    }
    r
}

proof fn lemma_kept_from_empty(accs: Seq<Seq<char>>, a: Seq<char>, lo: int)
    requires
        lo >= accs.len(),
    ensures
        kept_from(accs, a, lo) == Seq::<Slot>::empty(),
    decreases accs.len(),
{
}

/// After an account reports new items, every old item of another account is still there, no old
/// item of that account is, and each new item is there exactly once, right where the account's
/// first old item was.
pub proof fn law_merge_keeps_other_accounts(accs: Seq<Seq<char>>, a: Seq<char>, n: int)
    requires
        0 <= n <= usize::MAX,
        accs.len() <= usize::MAX,
    ensures
        forall|i: int|
            0 <= i < accs.len() ==> (merge_plan(accs, a, n).contains(Slot::Old(i as usize)) <==> accs[i]
                != a),
        forall|q: int|
            first_index_of(accs, a) <= q < first_index_of(accs, a) + n ==> #[trigger] merge_plan(
                accs,
                a,
                n,
            )[q] == Slot::New((q - first_index_of(accs, a)) as usize),
{
    lemma_first_index_bounds(accs, a);
    let f = first_index_of(accs, a);
    let plan = merge_plan(accs, a, n);
    lemma_kept_from_members(accs, a, f + 1);
    assert forall|i: int| 0 <= i < accs.len() implies (plan.contains(Slot::Old(i as usize))
        <==> accs[i] != a) by {
        if i < f {
            assert(plan[i] == Slot::Old(i as usize));
        } else if accs[i] != a {
            let k = kept_from(accs, a, f + 1);
            let p = choose|p: int| 0 <= p < k.len() && k[p] == Slot::Old(i as usize);
            assert(plan[f + n + p] == Slot::Old(i as usize));
        } else {
            if plan.contains(Slot::Old(i as usize)) {
                let q = choose|q: int| 0 <= q < plan.len() && plan[q] == Slot::Old(i as usize);
                if q < f {
                    assert(plan[q] == Slot::Old(q as usize));
                } else if q < f + n {
                    assert(plan[q] == Slot::New((q - f) as usize));
                } else {
                    assert(kept_from(accs, a, f + 1)[q - f - n] == Slot::Old(i as usize));
                }
            }
        }
    }
}

proof fn lemma_kept_from_members(accs: Seq<Seq<char>>, a: Seq<char>, lo: int)
    requires
        lo >= 0,
        accs.len() <= usize::MAX,
    ensures
        forall|i: int|
            lo <= i < accs.len() && accs[i] != a ==> kept_from(accs, a, lo).contains(
                Slot::Old(i as usize),
            ),
        forall|p: int|
            #![trigger kept_from(accs, a, lo)[p]]
            0 <= p < kept_from(accs, a, lo).len() ==> exists|i: int|
                #![trigger accs[i]]
                lo <= i < accs.len() && accs[i] != a && kept_from(accs, a, lo)[p] == Slot::Old(
                    i as usize,
                ),
    decreases accs.len(),
{
    if accs.len() > lo {
        let d = accs.drop_last();
        lemma_kept_from_members(d, a, lo);
        let r = kept_from(d, a, lo);
        let k = kept_from(accs, a, lo);
        assert forall|i: int| lo <= i < accs.len() && accs[i] != a implies k.contains(
            Slot::Old(i as usize),
        ) by {
            if i < accs.len() - 1 {
                assert(d[i] == accs[i]);
                let p = choose|p: int| 0 <= p < r.len() && r[p] == Slot::Old(i as usize);
                assert(k[p] == Slot::Old(i as usize));
            } else {
                assert(k[k.len() - 1] == Slot::Old(i as usize));
            }
        }
        assert forall|p: int| #![trigger k[p]] 0 <= p < k.len() implies exists|i: int|
            #![trigger accs[i]]
            lo <= i < accs.len() && accs[i] != a && k[p] == Slot::Old(i as usize) by {
            if p < r.len() {
                let i = choose|i: int| #![trigger d[i]] lo <= i < d.len() && d[i] != a && r[p] == Slot::Old(i as usize);
                assert(accs[i] == d[i]);
            } else {
                assert(accs[accs.len() - 1] != a);
            }
        }
    } else {
        lemma_kept_from_empty(accs, a, lo);
    }
}


// ---------------------------------------------------------------------------------------------
// Ages of the data
// ---------------------------------------------------------------------------------------------

/// A point in time as nanoseconds since the Unix epoch, within the range of `SystemTime` (whole
/// seconds fit an `i64`).
pub open spec fn is_time(t: i128) -> bool {
    -9_223_372_036_854_775_808_000_000_000 <= t < 9_223_372_036_854_775_808_000_000_000
}

/// Whole seconds from `then` to `now`; zero when `then` is later.
pub open spec fn elapsed(now: i128, then: i128) -> nat {
    if now >= then {
        ((now - then) / 1_000_000_000) as nat
    } else {
        0
    }
}

/// Whole seconds from `then` to `now` (`SystemTime::duration_since`, zero when `then` is later).
pub fn elapsed_secs(now: i128, then: i128) -> (r: u64)
    requires
        is_time(now),
        is_time(then),
    ensures
        r == elapsed(now, then),
{
    if now >= then {
        let d: i128 = now - then;
        assert(d / 1_000_000_000 < 18_446_744_073_709_551_616) by (nonlinear_arith)
            requires
                0 <= d < 18_446_744_073_709_551_616_000_000_000,
        ;
        (d / 1_000_000_000) as u64
    } else {
        0
    }
}

/// `n` with at least two digits (`{:02}`), for `n < 100`.
pub open spec fn two_digits(n: nat) -> Seq<char> {
    if n < 10 {
        seq!['0'] + text::decimal(n)
    } else {
        text::decimal(n)
    }
}

/// A duration in its two largest units: `42s`, `14m 23s`, `2h 02m`, `1d 03h`.
pub open spec fn span_text(s: nat) -> Seq<char> {
    if s < 60 {
        text::decimal(s) + "s"@
    } else if s < 3600 {
        text::decimal(s / 60) + "m "@ + two_digits(s % 60) + "s"@
    } else if s < 86400 {
        text::decimal(s / 3600) + "h "@ + two_digits((s % 3600) / 60) + "m"@
    } else {
        text::decimal(s / 86400) + "d "@ + two_digits((s % 86400) / 3600) + "h"@
    }
}

fn push_two_digits(r: &mut Vec<char>, n: u64)
    requires
        n < 100,
    ensures
        final(r)@ == old(r)@ + two_digits(n as nat),
{
    if n < 10 {
        r.push('0');
    }
    let d = text::decimal_of(n);
    text::append_chars(r, &d);
    if n < 10 {
        assert(final(r)@ =~= old(r)@ + two_digits(n as nat));
    }
}

/// The text of a duration of `secs` seconds in its two largest units.
pub fn format_span(secs: u64) -> (r: String)
    ensures
        r@ == span_text(secs as nat),
{
    let mut v: Vec<char>;
    if secs < 60 {
        v = text::decimal_of(secs);
        text::append_str(&mut v, "s");
    } else if secs < 3600 {
        v = text::decimal_of(secs / 60);
        text::append_str(&mut v, "m ");
        push_two_digits(&mut v, secs % 60);
        text::append_str(&mut v, "s");
    } else if secs < 86400 {
        v = text::decimal_of(secs / 3600);
        text::append_str(&mut v, "h ");
        push_two_digits(&mut v, (secs % 3600) / 60);
        text::append_str(&mut v, "m");
    } else {
        v = text::decimal_of(secs / 86400);
        text::append_str(&mut v, "d ");
        push_two_digits(&mut v, (secs % 86400) / 3600);
        text::append_str(&mut v, "h");
    }
    text::string_of(&v)
}

/// The colour that marks a data source's state.
#[derive(Clone, Copy, PartialEq, Eq, Structural, Debug)]
pub enum StatusColor {
    LightRed,
    LightCyan,
    Yellow,
}

/// A data source (an account or a quote) and how long ago its data was gathered.
pub struct OutdatedField {
    pub name: String,
    pub is_session: bool,
    pub is_stale: bool,
    pub is_quote: bool,
    pub elapsed_secs: u64,
    /// When the data was gathered, in nanoseconds since the Unix epoch.
    pub gathered_time: i128,
}

pub struct OutdatedView {
    pub name: Seq<char>,
    pub is_session: bool,
    pub is_stale: bool,
    pub is_quote: bool,
    pub elapsed_secs: nat,
    pub gathered_time: i128,
}

impl View for OutdatedField {
    type V = OutdatedView;

    open spec fn view(&self) -> OutdatedView {
        OutdatedView {
            name: self.name@,
            is_session: self.is_session,
            is_stale: self.is_stale,
            is_quote: self.is_quote,
            elapsed_secs: self.elapsed_secs as nat,
            gathered_time: self.gathered_time,
        }
    }
}

impl OutdatedField {
    /// How long ago the data was gathered, in its two largest units.
    pub fn age_display(&self) -> (r: String)
        ensures
            r@ == span_text(self.elapsed_secs as nat),
    {
        format_span(self.elapsed_secs)
    }

    /// Stale sources are light red, live session feeds light cyan, other live sources yellow.
    pub fn status_color(&self) -> (c: StatusColor)
        ensures
            c == (if self.is_stale {
                StatusColor::LightRed
            } else if self.is_session {
                StatusColor::LightCyan
            } else {
                StatusColor::Yellow
            }),
    {
        if self.is_stale {
            StatusColor::LightRed
        } else if self.is_session {
            StatusColor::LightCyan
        } else {
            StatusColor::Yellow
        }
    }
}

/// The index that `Iterator::max_by_key` picks: the last of the maximal keys (-1 when empty).
pub open spec fn last_max_index(keys: Seq<nat>) -> int
    decreases keys.len(),
{
    if keys.len() == 0 {
        -1
    } else {
        let p = last_max_index(keys.drop_last());
        if p < 0 || keys.last() >= keys[p] {
            keys.len() - 1
        } else {
            p
        }
    }
}

pub open spec fn ages(fs: Seq<OutdatedView>) -> Seq<nat> {
    fs.map_values(|f: OutdatedView| f.elapsed_secs)
}

pub open spec fn field_views(fs: Seq<OutdatedField>) -> Seq<OutdatedView> {
    fs.map_values(|f: OutdatedField| f@)
}

/// The most outdated of `fs`, the last of them on a tie.
pub open spec fn most_outdated(fs: Seq<OutdatedView>) -> Option<OutdatedView> {
    let i = last_max_index(ages(fs));
    if i < 0 {
        None
    } else {
        Some(fs[i])
    }
}

proof fn lemma_last_max_index_bounds(keys: Seq<nat>)
    ensures
        -1 <= last_max_index(keys) < keys.len(),
        keys.len() > 0 ==> last_max_index(keys) >= 0,
    decreases keys.len(),
{
    if keys.len() > 0 {
        lemma_last_max_index_bounds(keys.drop_last());
    }
}

fn pick_most_outdated(fs: Vec<OutdatedField>) -> (r: Option<OutdatedField>)
    ensures
        match r {
            Some(f) => most_outdated(field_views(fs@)) == Some(f@),
            None => most_outdated(field_views(fs@)) is None,
        },
{
    let ghost ks = ages(field_views(fs@));
    let mut best: Option<usize> = None;
    let mut i: usize = 0;
    assert(ks.take(0) =~= Seq::<nat>::empty());
    while i < fs.len()
        invariant
            i <= fs.len(),
            ks == ages(field_views(fs@)),
            match best {
                Some(b) => b < i && last_max_index(ks.take(i as int)) == b,
                None => i == 0 && last_max_index(ks.take(i as int)) == -1,
            },
        decreases fs.len() - i,
    {
        assert(ks.take(i + 1).drop_last() =~= ks.take(i as int));
        assert(ks.take(i + 1).last() == fs@[i as int].elapsed_secs);
        match best {
            Some(b) => {
                assert(ks.take(i as int)[b as int] == fs@[b as int].elapsed_secs);
                if fs[i].elapsed_secs >= fs[b].elapsed_secs {
                    best = Some(i);
                }
            },
            None => {
                best = Some(i);
            },
        }
        i += 1;
    }
    assert(ks.take(fs.len() as int) =~= ks);
    match best {
        Some(b) => {
            let mut fs = fs;
            let f = fs.remove(b);
            Some(f)
        },
        None => None,
    }
}

/// The view of an account's entry in a per-account map, when it has one.
pub open spec fn lookup<V>(m: Map<Seq<char>, V>, a: Seq<char>) -> Option<V> {
    if m.contains_key(a) {
        Some(m[a])
    } else {
        None
    }
}

/// The outdated-field candidate for account `a`: its name carries a `*` for a session feed, and
/// an account with no recorded time counts as gathered `now`.
pub open spec fn account_field(
    a: Seq<char>,
    gathered: Map<Seq<char>, i128>,
    sync: Map<Seq<char>, SyncStatus>,
    now: i128,
) -> OutdatedView {
    let t = match lookup(gathered, a) {
        Some(t) => t,
        None => now,
    };
    OutdatedView {
        name: if session_account(a) {
            a + "*"@
        } else {
            a
        },
        is_session: session_account(a),
        is_stale: lookup(sync, a) == Some(SyncStatus::Stale),
        is_quote: false,
        elapsed_secs: elapsed(now, t),
        gathered_time: t,
    }
}

/// One candidate per account, in the order the accounts first occur.
pub open spec fn account_candidates(
    accs: Seq<Seq<char>>,
    gathered: Map<Seq<char>, i128>,
    sync: Map<Seq<char>, SyncStatus>,
    now: i128,
) -> Seq<OutdatedView>
    decreases accs.len(),
{
    if accs.len() == 0 {
        Seq::<OutdatedView>::empty()
    } else {
        let r = account_candidates(accs.drop_last(), gathered, sync, now);
        if accs.drop_last().contains(accs.last()) {
            r
        } else {
            r.push(account_field(accs.last(), gathered, sync, now))
        }
    }
}

pub open spec fn times_valid(m: Map<Seq<char>, i128>) -> bool {
    forall|k: Seq<char>| m.contains_key(k) ==> is_time(#[trigger] m[k])
}

fn seen_before(accs: &Vec<String>, i: usize) -> (b: bool)
    requires
        i < accs.len(),
    ensures
        b == string_views(accs@).take(i as int).contains(accs@[i as int]@),
{
    let ghost sv = string_views(accs@);
    let a = text::chars_of(accs[i].as_str());
    let mut j: usize = 0;
    while j < i
        invariant
            j <= i < accs.len(),
            sv == string_views(accs@),
            a@ == accs@[i as int]@,
            forall|k: int| 0 <= k < j ==> sv[k] != a@,
        decreases i - j,
    {
        let b = text::chars_of(accs[j].as_str());
        if text::chars_eq(&a, &b) {
            assert(sv.take(i as int)[j as int] == a@);
            return true;
        }
        j += 1;
    }
    assert forall|k: int| 0 <= k < sv.take(i as int).len() implies sv.take(i as int)[k] != a@ by {
        assert(sv.take(i as int)[k] == sv[k]);
    }
    false
}

/// The most outdated account among the accounts of the holdings (`accounts`, in order, repeats
/// allowed), measured at `now`; on a tie the later account.
#[verifier::spinoff_prover]
pub fn most_outdated_account(
    accounts: &Vec<String>,
    gathered: &AccountMap<i128>,
    sync: &AccountSync,
    now: i128,
) -> (r: Option<OutdatedField>)
    requires
        is_time(now),
        times_valid(gathered.view()),
    ensures
        match r {
            Some(f) => most_outdated(
                account_candidates(string_views(accounts@), gathered.view(), sync.view(), now),
            ) == Some(f@),
            None => most_outdated(
                account_candidates(string_views(accounts@), gathered.view(), sync.view(), now),
            ) is None,
        },
{
    let ghost sv = string_views(accounts@);
    let mut cands: Vec<OutdatedField> = Vec::new();
    let mut i: usize = 0;
    assert(sv.take(0) =~= Seq::<Seq<char>>::empty());
    while i < accounts.len()
        invariant
            i <= accounts.len(),
            sv == string_views(accounts@),
            is_time(now),
            times_valid(gathered.view()),
            field_views(cands@) == account_candidates(sv.take(i as int), gathered.view(), sync.view(), now),
        decreases accounts.len() - i,
    {
        assert(sv.take(i + 1).drop_last() =~= sv.take(i as int));
        assert(sv.take(i + 1).last() == accounts@[i as int]@);
        if !seen_before(accounts, i) {
            let acc = &accounts[i];
            let t = match gathered.get(acc.as_str()) {
                Some(t) => t,
                None => now,
            };
            let sess = is_session_dependent(acc.as_str());
            let stale = sync.is_account_stale(acc.as_str());
            let mut nm = text::chars_of(acc.as_str());
            if sess {
                nm.push('*');
            }
            let f = OutdatedField {
                name: text::string_of(&nm),
                is_session: sess,
                is_stale: stale,
                is_quote: false,
                elapsed_secs: elapsed_secs(now, t),
                gathered_time: t,
            };
            let ghost before = cands@;
            assert(f@ == account_field(accounts@[i as int]@, gathered.view(), sync.view(), now)) by {
                if sess {
                    assert(nm@ =~= accounts@[i as int]@ + "*"@) by {
                        reveal_strlit("*");
                    }
                }
            }
            cands.push(f);
            assert(field_views(cands@) =~= field_views(before).push(f@));
        }
        i += 1;
    }
    assert(sv.take(accounts.len() as int) =~= sv);
    pick_most_outdated(cands)
}

/// The candidate for a ticker gathered at time `t`.
pub open spec fn ticker_field(symbol: Seq<char>, t: i128, now: i128) -> OutdatedView {
    OutdatedView {
        name: symbol,
        is_session: false,
        is_stale: false,
        is_quote: true,
        elapsed_secs: elapsed(now, t),
        gathered_time: t,
    }
}

/// One candidate per ticker that has been gathered, in order.
pub open spec fn ticker_candidates(symbols: Seq<Seq<char>>, times: Seq<Option<i128>>, now: i128) -> Seq<
    OutdatedView,
>
    decreases symbols.len(),
{
    if symbols.len() == 0 || symbols.len() != times.len() {
        Seq::<OutdatedView>::empty()
    } else {
        let r = ticker_candidates(symbols.drop_last(), times.drop_last(), now);
        match times.last() {
            Some(t) => r.push(ticker_field(symbols.last(), t, now)),
            None => r,
        }
    }
}

pub open spec fn option_times_valid(ts: Seq<Option<i128>>) -> bool {
    forall|i: int| 0 <= i < ts.len() ==> (#[trigger] ts[i] matches Some(t) ==> is_time(t))
}

/// The most outdated of the tickers (`symbols[i]` last gathered at `times[i]`), measured at
/// `now`; on a tie the later ticker.
pub fn most_outdated_ticker(symbols: &Vec<String>, times: &Vec<Option<i128>>, now: i128) -> (r:
    Option<OutdatedField>)
    requires
        symbols.len() == times.len(),
        is_time(now),
        option_times_valid(times@),
    ensures
        match r {
            Some(f) => most_outdated(ticker_candidates(string_views(symbols@), times@, now)) == Some(
                f@,
            ),
            None => most_outdated(ticker_candidates(string_views(symbols@), times@, now)) is None,
        },
{
    let ghost sv = string_views(symbols@);
    let mut cands: Vec<OutdatedField> = Vec::new();
    let mut i: usize = 0;
    assert(sv.take(0) =~= Seq::<Seq<char>>::empty());
    while i < symbols.len()
        invariant
            i <= symbols.len() == times.len(),
            sv == string_views(symbols@),
            is_time(now),
            option_times_valid(times@),
            field_views(cands@) == ticker_candidates(sv.take(i as int), times@.take(i as int), now),
        decreases symbols.len() - i,
    {
        assert(sv.take(i + 1).drop_last() =~= sv.take(i as int));
        assert(times@.take(i + 1).drop_last() =~= times@.take(i as int));
        assert(sv.take(i + 1).last() == symbols@[i as int]@);
        match times[i] {
            Some(t) => {
                assert(times@[i as int] matches Some(t) ==> is_time(t));
                let f = OutdatedField {
                    name: symbols[i].clone(),
                    is_session: false,
                    is_stale: false,
                    is_quote: true,
                    elapsed_secs: elapsed_secs(now, t),
                    gathered_time: t,
                };
                let ghost before = cands@;
                cands.push(f);
                assert(field_views(cands@) =~= field_views(before).push(f@));
            },
            None => {},
        }
        i += 1;
    }
    assert(sv.take(symbols.len() as int) =~= sv);
    assert(times@.take(symbols.len() as int) =~= times@);
    pick_most_outdated(cands)
}

/// The more outdated of the most outdated account and ticker; the ticker on a tie.
pub open spec fn more_outdated(acc: Option<OutdatedView>, tick: Option<OutdatedView>) -> Option<
    OutdatedView,
> {
    match (acc, tick) {
        (Some(a), Some(t)) => if t.elapsed_secs >= a.elapsed_secs {
            Some(t)
        } else {
            Some(a)
        },
        (Some(a), None) => Some(a),
        (None, t) => t,
    }
}

pub open spec fn opt_field_view(f: Option<OutdatedField>) -> Option<OutdatedView> {
    match f {
        Some(f) => Some(f@),
        None => None,
    }
}

/// The most outdated data source of all: the more outdated of `account` and `ticker`.
pub fn most_outdated_field(account: Option<OutdatedField>, ticker: Option<OutdatedField>) -> (r:
    Option<OutdatedField>)
    ensures
        opt_field_view(r) == more_outdated(opt_field_view(account), opt_field_view(ticker)),
{
    match (account, ticker) {
        (Some(a), Some(t)) => if t.elapsed_secs >= a.elapsed_secs {
            Some(t)
        } else {
            Some(a)
        },
        (Some(a), None) => Some(a),
        (None, t) => t,
    }
}

// ---------------------------------------------------------------------------------------------
// Scrolling
// ---------------------------------------------------------------------------------------------

/// The scroll offset one row further down: it moves while another row of the longer table is
/// below it.
pub open spec fn scrolled_down(offset: nat, n_tickers: nat, n_balances: nat) -> nat {
    let m = if n_tickers >= n_balances {
        n_tickers
    } else {
        n_balances
    };
    if offset + 1 < m {
        offset + 1
    } else {
        offset
    }
}

/// Moves the scroll offset one row down while another row of the longer table is below it.
pub fn scroll_down(offset: &mut usize, n_tickers: usize, n_balances: usize)
    ensures
        *final(offset) == scrolled_down(*old(offset) as nat, n_tickers as nat, n_balances as nat),
{
    let m = if n_tickers >= n_balances {
        n_tickers
    } else {
        n_balances
    };
    if m > 0 && *offset < m - 1 {
        *offset = *offset + 1;
    }
}

/// Moves the scroll offset one row up, never below zero.
pub fn scroll_up(offset: &mut usize)
    ensures
        *final(offset) == (if *old(offset) > 0 {
            *old(offset) - 1
        } else {
            0
        }),
{
    if *offset > 0 {
        *offset = *offset - 1;
    }
}

/// Scrolling down never passes the last row of the longer table, and scrolling up after a
/// scroll down that moved returns to where it was.
pub proof fn law_scroll(offset: nat, n_tickers: nat, n_balances: nat)
    ensures
        ({
            let m = if n_tickers >= n_balances {
                n_tickers
            } else {
                n_balances
            };
            offset < m ==> scrolled_down(offset, n_tickers, n_balances) < m
        }),
        scrolled_down(offset, n_tickers, n_balances) != offset ==> (scrolled_down(
            offset,
            n_tickers,
            n_balances,
        ) - 1) == offset,
{
}

proof fn lemma_last_max_is_max(keys: Seq<nat>)
    ensures
        keys.len() > 0 ==> 0 <= last_max_index(keys) < keys.len() && forall|i: int|
            0 <= i < keys.len() ==> #[trigger] keys[i] <= keys[last_max_index(keys)],
    decreases keys.len(),
{
    if keys.len() > 0 {
        let d = keys.drop_last();
        lemma_last_max_is_max(d);
        lemma_last_max_index_bounds(d);
        assert forall|i: int| 0 <= i < keys.len() implies #[trigger] keys[i] <= keys[last_max_index(
            keys,
        )] by {
            if i < d.len() {
                assert(keys[i] == d[i]);
                if d.len() > 0 {
                    assert(keys[last_max_index(d)] == d[last_max_index(d)]);
                }
            }
        }
    }
}

/// The most outdated source is one of the candidates and none of them is older.
pub proof fn law_most_outdated_is_oldest(fs: Seq<OutdatedView>)
    requires
        fs.len() > 0,
    ensures
        most_outdated(fs) is Some,
        exists|j: int| 0 <= j < fs.len() && most_outdated(fs) == Some(#[trigger] fs[j]),
        forall|i: int|
            0 <= i < fs.len() ==> (#[trigger] fs[i]).elapsed_secs <= most_outdated(
                fs,
            )->0.elapsed_secs,
{
    lemma_last_max_is_max(ages(fs));
    let j = last_max_index(ages(fs));
    assert(most_outdated(fs) == Some(fs[j]));
    assert forall|i: int| 0 <= i < fs.len() implies (#[trigger] fs[i]).elapsed_secs <= most_outdated(
        fs,
    )->0.elapsed_secs by {
        assert(ages(fs)[i] == fs[i].elapsed_secs);
        assert(ages(fs)[j] == fs[j].elapsed_secs);
    }
}

} // verus!
