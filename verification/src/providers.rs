//! The decisions of the quote and balance providers that need no network: which symbol a target
//! names, which addresses are asked in which order, what a reply means, and how provider asset
//! codes are mapped to the dashboard's symbols.
use vstd::prelude::*;
use crate::text;
use crate::models;

verus! {

// ---------------------------------------------------------------------------------------------
// Byte lengths
// ---------------------------------------------------------------------------------------------

/// The number of bytes `c` takes in UTF-8.
pub open spec fn utf8_width(c: char) -> nat {
    if (c as u32) < 0x80 {
        1
    } else if (c as u32) < 0x800 {
        2
    } else if (c as u32) < 0x10000 {
        3
    } else {
        4
    }
}

/// The number of bytes of `s` in UTF-8 (`str::len`).
pub open spec fn utf8_len(s: Seq<char>) -> nat
    decreases s.len(),
{
    if s.len() == 0 {
        0
    } else {
        utf8_len(s.drop_last()) + utf8_width(s.last())
    }
}

proof fn lemma_utf8_len_prefix(s: Seq<char>, i: int)
    requires
        0 <= i <= s.len(),
    ensures
        utf8_len(s.take(i)) <= utf8_len(s),
    decreases s.len() - i,
{
    if i < s.len() {
        lemma_utf8_len_prefix(s.drop_last(), i);
        assert(s.drop_last().take(i) =~= s.take(i));
    } else {
        assert(s.take(i) =~= s);
    }
}

/// The UTF-8 length of `v`, or `cap + 1` when it is longer than `cap`.
fn utf8_len_capped(v: &Vec<char>, cap: usize) -> (n: usize)
    requires
        cap < usize::MAX - 4,
    ensures
        n == (if utf8_len(v@) <= cap { utf8_len(v@) } else { cap as nat + 1 }),
{
    let mut total: usize = 0;
    let mut i: usize = 0;
    assert(v@.take(0) =~= Seq::<char>::empty());
    while i < v.len()
        invariant
            i <= v.len(),
            cap < usize::MAX - 4,
            total == utf8_len(v@.take(i as int)),
            total <= cap,
        decreases v.len() - i,
    {
        assert(v@.take(i + 1).drop_last() =~= v@.take(i as int));
        let u = v[i] as u32;
        let w: usize = if u < 0x80 {
            1
        } else if u < 0x800 {
            2
        } else if u < 0x10000 {
            3
        } else {
            4
        };
        total = total + w;
        i += 1;
        if total > cap {
            proof {
                lemma_utf8_len_prefix(v@, i as int);
            }
            return cap + 1;
        }
    }
    assert(v@.take(v.len() as int) =~= v@);
    total
}

// ---------------------------------------------------------------------------------------------
// Crypto slugs and exchange asset codes
// ---------------------------------------------------------------------------------------------

/// The ticker of a CoinMarketCap slug the dashboard knows by name.
pub open spec fn known_slug(l: Seq<char>) -> Option<Seq<char>> {
    if l == "monero"@ {
        Some("XMR"@)
    } else if l == "bitcoin"@ {
        Some("BTC"@)
    } else if l == "ethereum"@ {
        Some("ETH"@)
    } else if l == "basic-attention-token"@ {
        Some("BAT"@)
    } else if l == "dogecoin"@ {
        Some("DOGE"@)
    } else if l == "chia"@ || l == "chia-network"@ {
        Some("XCH"@)
    } else if l == "the-graph"@ {
        Some("GRT"@)
    } else if l == "stellar"@ {
        Some("XLM"@)
    } else if l == "compound"@ {
        Some("COMP"@)
    } else if l == "numeraire"@ {
        Some("NMR"@)
    } else if l == "nucypher"@ {
        Some("NU"@)
    } else if l == "polygon"@ {
        Some("MATIC"@)
    } else if l == "skale-network"@ {
        Some("SKL"@)
    } else if l == "presearch"@ {
        Some("PRE"@)
    } else if l == "ampleforth"@ {
        Some("AMPL"@)
    } else if l == "celo"@ {
        Some("CELO"@)
    } else if l == "uma"@ {
        Some("UMA"@)
    } else if l == "grin"@ {
        Some("GRIN"@)
    } else {
        None
    }
}

/// The ticker for a slug: the known ticker of the lower-cased slug, else the slug upper-cased.
pub open spec fn slug_symbol(slug: Seq<char>) -> Seq<char> {
    let l = text::lower_text(slug);
    match known_slug(l) {
        Some(t) => t,
        None => text::upper_text(l),
    }
}


proof fn lemma_known_slug_table()
    ensures
        known_slug("monero"@) == Some("XMR"@),
        known_slug("bitcoin"@) == Some("BTC"@),
        known_slug("ethereum"@) == Some("ETH"@),
        known_slug("basic-attention-token"@) == Some("BAT"@),
        known_slug("dogecoin"@) == Some("DOGE"@),
        known_slug("chia"@) == Some("XCH"@),
        known_slug("chia-network"@) == Some("XCH"@),
        known_slug("the-graph"@) == Some("GRT"@),
        known_slug("stellar"@) == Some("XLM"@),
        known_slug("compound"@) == Some("COMP"@),
        known_slug("numeraire"@) == Some("NMR"@),
        known_slug("nucypher"@) == Some("NU"@),
        known_slug("polygon"@) == Some("MATIC"@),
        known_slug("skale-network"@) == Some("SKL"@),
        known_slug("presearch"@) == Some("PRE"@),
        known_slug("ampleforth"@) == Some("AMPL"@),
        known_slug("celo"@) == Some("CELO"@),
        known_slug("uma"@) == Some("UMA"@),
        known_slug("grin"@) == Some("GRIN"@),
{
    reveal_strlit("monero");
    reveal_strlit("bitcoin");
    reveal_strlit("ethereum");
    reveal_strlit("basic-attention-token");
    reveal_strlit("dogecoin");
    reveal_strlit("chia");
    reveal_strlit("chia-network");
    reveal_strlit("the-graph");
    reveal_strlit("stellar");
    reveal_strlit("compound");
    reveal_strlit("numeraire");
    reveal_strlit("nucypher");
    reveal_strlit("polygon");
    reveal_strlit("skale-network");
    reveal_strlit("presearch");
    reveal_strlit("ampleforth");
    reveal_strlit("celo");
    reveal_strlit("uma");
    reveal_strlit("grin");
    assert("monero"@[0] == 'm');
    assert("bitcoin"@[0] == 'b');
    assert("ethereum"@[0] == 'e');
    assert("basic-attention-token"@[0] == 'b');
    assert("dogecoin"@[0] == 'd');
    assert("chia"@[0] == 'c');
    assert("chia-network"@[0] == 'c');
    assert("the-graph"@[0] == 't');
    assert("stellar"@[0] == 's');
    assert("compound"@[0] == 'c');
    assert("numeraire"@[0] == 'n');
    assert("nucypher"@[0] == 'n');
    assert("polygon"@[0] == 'p');
    assert("skale-network"@[0] == 's');
    assert("presearch"@[0] == 'p');
    assert("ampleforth"@[0] == 'a');
    assert("celo"@[0] == 'c');
    assert("uma"@[0] == 'u');
    assert("grin"@[0] == 'g');
    assert("celo"@[1] == 'e');
    assert("chia"@[1] == 'h');
    assert("monero"@.len() == 6);
    assert("bitcoin"@.len() == 7);
    assert("ethereum"@.len() == 8);
    assert("basic-attention-token"@.len() == 21);
    assert("dogecoin"@.len() == 8);
    assert("chia"@.len() == 4);
    assert("chia-network"@.len() == 12);
    assert("the-graph"@.len() == 9);
    assert("stellar"@.len() == 7);
    assert("compound"@.len() == 8);
    assert("numeraire"@.len() == 9);
    assert("nucypher"@.len() == 8);
    assert("polygon"@.len() == 7);
    assert("skale-network"@.len() == 13);
    assert("presearch"@.len() == 9);
    assert("ampleforth"@.len() == 10);
    assert("celo"@.len() == 4);
    assert("uma"@.len() == 3);
    assert("grin"@.len() == 4);
}

/// Every slug of the table of known coins, in any ASCII case, maps to that coin's ticker (not to
/// the slug upper-cased): `monero` to `XMR`, `compound` to `COMP`, `polygon` to `MATIC`, and so on.
pub proof fn law_known_slugs_map_to_tickers(slug: Seq<char>)
    requires
        text::is_ascii(slug),
    ensures
        text::ascii_lower(slug) == "monero"@ ==> slug_symbol(slug) == "XMR"@,
        text::ascii_lower(slug) == "bitcoin"@ ==> slug_symbol(slug) == "BTC"@,
        text::ascii_lower(slug) == "ethereum"@ ==> slug_symbol(slug) == "ETH"@,
        text::ascii_lower(slug) == "basic-attention-token"@ ==> slug_symbol(slug) == "BAT"@,
        text::ascii_lower(slug) == "dogecoin"@ ==> slug_symbol(slug) == "DOGE"@,
        text::ascii_lower(slug) == "chia"@ ==> slug_symbol(slug) == "XCH"@,
        text::ascii_lower(slug) == "chia-network"@ ==> slug_symbol(slug) == "XCH"@,
        text::ascii_lower(slug) == "the-graph"@ ==> slug_symbol(slug) == "GRT"@,
        text::ascii_lower(slug) == "stellar"@ ==> slug_symbol(slug) == "XLM"@,
        text::ascii_lower(slug) == "compound"@ ==> slug_symbol(slug) == "COMP"@,
        text::ascii_lower(slug) == "numeraire"@ ==> slug_symbol(slug) == "NMR"@,
        text::ascii_lower(slug) == "nucypher"@ ==> slug_symbol(slug) == "NU"@,
        text::ascii_lower(slug) == "polygon"@ ==> slug_symbol(slug) == "MATIC"@,
        text::ascii_lower(slug) == "skale-network"@ ==> slug_symbol(slug) == "SKL"@,
        text::ascii_lower(slug) == "presearch"@ ==> slug_symbol(slug) == "PRE"@,
        text::ascii_lower(slug) == "ampleforth"@ ==> slug_symbol(slug) == "AMPL"@,
        text::ascii_lower(slug) == "celo"@ ==> slug_symbol(slug) == "CELO"@,
        text::ascii_lower(slug) == "uma"@ ==> slug_symbol(slug) == "UMA"@,
        text::ascii_lower(slug) == "grin"@ ==> slug_symbol(slug) == "GRIN"@,
{
    lemma_known_slug_table();
}

fn known_slug_of(l: &Vec<char>) -> (r: Option<Vec<char>>)
    ensures
        match r {
            Some(t) => known_slug(l@) == Some(t@),
            None => known_slug(l@) is None,
        },
{
    let t = if text::chars_eq_str(l, "monero") {
        "XMR"
    } else if text::chars_eq_str(l, "bitcoin") {
        "BTC"
    } else if text::chars_eq_str(l, "ethereum") {
        "ETH"
    } else if text::chars_eq_str(l, "basic-attention-token") {
        "BAT"
    } else if text::chars_eq_str(l, "dogecoin") {
        "DOGE"
    } else if text::chars_eq_str(l, "chia") || text::chars_eq_str(l, "chia-network") {
        "XCH"
    } else if text::chars_eq_str(l, "the-graph") {
        "GRT"
    } else if text::chars_eq_str(l, "stellar") {
        "XLM"
    } else if text::chars_eq_str(l, "compound") {
        "COMP"
    } else if text::chars_eq_str(l, "numeraire") {
        "NMR"
    } else if text::chars_eq_str(l, "nucypher") {
        "NU"
    } else if text::chars_eq_str(l, "polygon") {
        "MATIC"
    } else if text::chars_eq_str(l, "skale-network") {
        "SKL"
    } else if text::chars_eq_str(l, "presearch") {
        "PRE"
    } else if text::chars_eq_str(l, "ampleforth") {
        "AMPL"
    } else if text::chars_eq_str(l, "celo") {
        "CELO"
    } else if text::chars_eq_str(l, "uma") {
        "UMA"
    } else if text::chars_eq_str(l, "grin") {
        "GRIN"
    } else {
        return None;
    };
    Some(text::chars_of(t))
}

/// The ticker for a CoinMarketCap slug such as `monero` (`XMR`); unknown slugs are upper-cased.
pub fn slug_to_symbol(slug: &str) -> (r: String)
    ensures
        r@ == slug_symbol(slug@),
{
    let v = text::chars_of(slug);
    let l = text::to_lowercase(&v);
    match known_slug_of(&l) {
        Some(t) => text::string_of(&t),
        None => {
            let u = text::to_uppercase(&l);
            text::string_of(&u)
        },
    }
}

/// The dashboard symbol for an upper-cased Kraken asset code: four-byte codes with an `X` or `Z`
/// class prefix lose it (`XXBT` is `BTC`), and `XDG` is `DOGE`.
pub open spec fn kraken_symbol(u: Seq<char>) -> Seq<char> {
    if utf8_len(u) == 4 && (u[0] == 'Z' || u[0] == 'X') {
        let base = u.drop_first();
        if base == "XBT"@ {
            "BTC"@
        } else if base == "DG"@ {
            "DOGE"@
        } else {
            base
        }
    } else if u == "XXBT"@ {
        "BTC"@
    } else if u == "XDG"@ {
        "DOGE"@
    } else {
        u
    }
}

/// The dashboard symbol for a Kraken asset code (`ZCHF` is `CHF`, `XXBT` is `BTC`).
pub fn normalize_kraken_asset(asset: &str) -> (r: String)
    ensures
        r@ == kraken_symbol(text::upper_text(asset@)),
{
    let v = text::chars_of(asset);
    let u = text::to_uppercase(&v);
    let n = utf8_len_capped(&u, 4);
    let r = if n == 4 && (u[0] == 'Z' || u[0] == 'X') {
        let base = text::copy_range(&u, 1, u.len());
        assert(base@ =~= u@.drop_first());
        if text::chars_eq_str(&base, "XBT") {
            text::chars_of("BTC")
        } else if text::chars_eq_str(&base, "DG") {
            text::chars_of("DOGE")
        } else {
            base
        }
    } else if text::chars_eq_str(&u, "XXBT") {
        text::chars_of("BTC")
    } else if text::chars_eq_str(&u, "XDG") {
        text::chars_of("DOGE")
    } else {
        u
    };
    text::string_of(&r)
}

// ---------------------------------------------------------------------------------------------
// CoinMarketCap pages
// ---------------------------------------------------------------------------------------------

/// The attribute that marks the script holding a Next.js page's data.
pub open spec fn next_data_marker() -> Seq<char> {
    "id=\"__NEXT_DATA__\""@
}

/// The page data of a Next.js page: the trimmed text between the `>` that ends the tag marked
/// `id="__NEXT_DATA__"` and the next `</script>`; `None` when any of the three is missing.
pub open spec fn next_data(h: Seq<char>) -> Option<Seq<char>> {
    let pos = text::first_from(h, next_data_marker(), 0);
    if pos < 0 {
        None
    } else {
        let gt = text::first_from(h, seq!['>'], pos);
        if gt < 0 {
            None
        } else {
            let end = text::first_from(h, "</script>"@, gt + 1);
            if end < 0 {
                None
            } else {
                Some(text::trim(h.subrange(gt + 1, end)))
            }
        }
    }
}

proof fn lemma_first_from_bounds(s: Seq<char>, p: Seq<char>, from: int)
    requires
        text::first_from(s, p, from) >= 0,
    ensures
        from <= text::first_from(s, p, from),
        text::first_from(s, p, from) + p.len() <= s.len(),
    decreases s.len() + 1 - from,
{
    if !(from < 0 || from + p.len() > s.len()) && !text::occurs_at(s, p, from) {
        lemma_first_from_bounds(s, p, from + 1);
    }
}

/// The JSON that a CoinMarketCap page embeds in its `__NEXT_DATA__` script.
pub fn extract_next_data(html: &str) -> (r: Option<String>)
    ensures
        match r {
            Some(d) => next_data(html@) == Some(d@),
            None => next_data(html@) is None,
        },
{
    let h = text::chars_of(html);
    let marker = text::chars_of("id=\"__NEXT_DATA__\"");
    let pos = match text::find_from(&h, &marker, 0) {
        Some(p) => p,
        None => return None,
    };
    let mut gt_pat: Vec<char> = Vec::new();
    gt_pat.push('>');
    assert(gt_pat@ =~= seq!['>']);
    let gt = match text::find_from(&h, &gt_pat, pos) {
        Some(g) => g,
        None => return None,
    };
    proof {
        assert(gt as int == text::first_from(h@, seq!['>'], pos as int));
        lemma_first_from_bounds(h@, seq!['>'], pos as int);
        assert(gt + 1 <= h@.len());
    }
    let n = h.len();
    assert(gt + 1 <= n);
    let close = text::chars_of("</script>");
    let end = match text::find_from(&h, &close, gt + 1) {
        Some(e) => e,
        None => return None,
    };
    proof {
        lemma_first_from_bounds(h@, "</script>"@, gt + 1);
    }
    let inner = text::copy_range(&h, gt + 1, end);
    let t = text::stripped(&inner, text::CharClass::WhiteSpace);
    Some(text::string_of(&t))
}

// ---------------------------------------------------------------------------------------------
// Quote targets and the addresses asked for them
// ---------------------------------------------------------------------------------------------

/// The last `/`-separated segment of `target`, trailing slashes ignored.
pub open spec fn last_segment(target: Seq<char>) -> Seq<char> {
    text::split_on(text::strip_end(target, text::CharClass::Slash), text::CharClass::Slash).last()
}

fn last_segment_of(v: &Vec<char>) -> (r: Vec<char>)
    ensures
        r@ == last_segment(v@),
{
    let t = models::strip_end_chars(v, text::CharClass::Slash);
    let parts = text::split_chars(&t, text::CharClass::Slash);
    proof {
        text::lemma_split_on_nonempty(t@, text::CharClass::Slash);
    }
    text::copy_chars(&parts[parts.len() - 1])
}

/// The stock ticker a target names: the last segment of a URL, or the trimmed target, upper-cased.
pub open spec fn stock_ticker(target: Seq<char>) -> Seq<char> {
    if target.contains('/') {
        text::upper_text(last_segment(target))
    } else {
        text::upper_text(text::trim(target))
    }
}

/// The symbols asked for a ticker, in order: a crypto pair written `XMRUSD` is first asked as
/// `XMR-USD`, then as written.
pub open spec fn stock_symbols(t: Seq<char>) -> Seq<Seq<char>> {
    if text::ends_with(t, "USD"@) && !t.contains('-') && utf8_len(t) > 3 {
        seq![t.take(t.len() - 3) + "-USD"@, t]
    } else {
        seq![t]
    }
}

/// The two hosts of the quote service, asked in this order.
pub open spec fn quote_hosts() -> Seq<Seq<char>> {
    seq!["query1.finance.yahoo.com"@, "query2.finance.yahoo.com"@]
}

/// The chart address of `sym` on `host`.
pub open spec fn chart_url(host: Seq<char>, sym: Seq<char>) -> Seq<char> {
    "https://"@ + host + "/v8/finance/chart/"@ + sym
}

/// The chart addresses for `syms`: each symbol on each host, symbols first.
pub open spec fn chart_urls(syms: Seq<Seq<char>>) -> Seq<Seq<char>>
    decreases syms.len(),
{
    if syms.len() == 0 {
        Seq::empty()
    } else {
        chart_urls(syms.drop_last()) + seq![
            chart_url(quote_hosts()[0], syms.last()),
            chart_url(quote_hosts()[1], syms.last()),
        ]
    }
}

fn chart_url_of(host: &str, sym: &Vec<char>) -> (r: String)
    ensures
        r@ == chart_url(host@, sym@),
{
    let mut v = text::chars_of("https://");
    text::append_str(&mut v, host);
    text::append_str(&mut v, "/v8/finance/chart/");
    text::append_chars(&mut v, sym);
    text::string_of(&v)
}

fn push_chart_urls(urls: &mut Vec<String>, sym: &Vec<char>)
    ensures
        models::string_views(final(urls)@) == models::string_views(old(urls)@) + seq![
            chart_url(quote_hosts()[0], sym@),
            chart_url(quote_hosts()[1], sym@),
        ],
{
    let a = chart_url_of("query1.finance.yahoo.com", sym);
    let b = chart_url_of("query2.finance.yahoo.com", sym);
    let ghost before = urls@;
    urls.push(a);
    urls.push(b);
    assert(models::string_views(urls@) =~= models::string_views(before) + seq![a@, b@]);
}

/// The ticker of a stock target and the chart addresses to ask for its quote, in order.
pub struct QuotePlan {
    pub ticker: String,
    pub urls: Vec<String>,
}

/// What to ask for the quote of a stock target.
pub fn stock_quote_plan(target: &str) -> (r: QuotePlan)
    ensures
        r.ticker@ == stock_ticker(target@),
        models::string_views(r.urls@) == chart_urls(stock_symbols(stock_ticker(target@))),
{
    let v = text::chars_of(target);
    let base = if text::has_char(&v, '/') {
        last_segment_of(&v)
    } else {
        text::stripped(&v, text::CharClass::WhiteSpace)
    };
    let t = text::to_uppercase(&base);
    let mut urls: Vec<String> = Vec::new();
    assert(models::string_views(urls@) =~= Seq::<Seq<char>>::empty());
    let split = text::ends_with_str(&t, "USD") && !text::has_char(&t, '-') && utf8_len_capped(&t, 3)
        > 3;
    if split {
        proof {
            reveal_strlit("USD");
        }
        let mut pair = text::copy_range(&t, 0, t.len() - 3);
        text::append_str(&mut pair, "-USD");
        push_chart_urls(&mut urls, &pair);
        push_chart_urls(&mut urls, &t);
        proof {
            let syms = stock_symbols(t@);
            assert(syms =~= seq![pair@, t@]);
            assert(syms.drop_last() =~= seq![pair@]);
            assert(syms.drop_last().drop_last() =~= Seq::<Seq<char>>::empty());
            assert(chart_urls(syms.drop_last().drop_last()) =~= Seq::<Seq<char>>::empty());
            assert(chart_urls(syms.drop_last()) =~= seq![
                chart_url(quote_hosts()[0], pair@),
                chart_url(quote_hosts()[1], pair@),
            ]);
            assert(models::string_views(urls@) =~= chart_urls(syms));
        }
    } else {
        push_chart_urls(&mut urls, &t);
        proof {
            let syms = stock_symbols(t@);
            assert(syms =~= seq![t@]);
            assert(syms.drop_last() =~= Seq::<Seq<char>>::empty());
            assert(chart_urls(syms.drop_last()) =~= Seq::<Seq<char>>::empty());
            assert(models::string_views(urls@) =~= chart_urls(syms));
        }
    }
    QuotePlan { ticker: text::string_of(&t), urls }
}

/// The chart addresses to ask for an exchange rate or a crypto pair such as `USDCHF=X`.
pub fn rate_quote_urls(symbol: &str) -> (r: Vec<String>)
    ensures
        models::string_views(r@) == chart_urls(seq![symbol@]),
{
    let v = text::chars_of(symbol);
    let mut urls: Vec<String> = Vec::new();
    assert(models::string_views(urls@) =~= Seq::<Seq<char>>::empty());
    push_chart_urls(&mut urls, &v);
    assert(seq![symbol@].drop_last() =~= Seq::<Seq<char>>::empty());
    assert(chart_urls(seq![symbol@].drop_last()) =~= Seq::<Seq<char>>::empty());
    assert(models::string_views(urls@) =~= chart_urls(seq![symbol@]));
    urls
}

/// What one chart reply held: a price (with the symbol the service reports, if any), a 404, or
/// nothing usable (a failed request, another status, or no price in the body).
pub enum QuoteReply {
    Priced(Option<String>),
    NotFound,
    Unusable,
}

/// How a quote request ended.
#[derive(Clone, Copy, PartialEq, Eq, Structural, Debug)]
pub enum QuoteOutcome {
    Priced,
    Delisted,
    Failed,
}

/// The verdict on one chart reply for `ticker`: the symbol to show and the outcome, or `None` to
/// go on with the next address. After the last address the quote has `Failed`.
pub fn stock_reply_verdict(ticker: &str, reply: &QuoteReply) -> (r: Option<(String, QuoteOutcome)>)
    ensures
        match reply {
            QuoteReply::Priced(Some(s)) => r matches Some((n, o)) && n@ == s@ && o
                == QuoteOutcome::Priced,
            QuoteReply::Priced(None) => r matches Some((n, o)) && n@ == ticker@ && o
                == QuoteOutcome::Priced,
            QuoteReply::NotFound => r matches Some((n, o)) && n@ == ticker@ && o
                == QuoteOutcome::Delisted,
            QuoteReply::Unusable => r is None,
        },
{
    match reply {
        QuoteReply::Priced(Some(s)) => Some((s.clone(), QuoteOutcome::Priced)),
        QuoteReply::Priced(None) => Some((ticker.to_owned(), QuoteOutcome::Priced)),
        QuoteReply::NotFound => Some((ticker.to_owned(), QuoteOutcome::Delisted)),
        QuoteReply::Unusable => None,
    }
}

/// The CoinMarketCap slug a crypto target names: the last segment of a URL, or the trimmed
/// target, lower-cased.
pub open spec fn crypto_slug(target: Seq<char>) -> Seq<char> {
    if target.contains('/') {
        text::lower_text(last_segment(target))
    } else {
        text::lower_text(text::trim(target))
    }
}

/// The page asked for a crypto quote: the target itself when it is a web address, else the
/// slug's CoinMarketCap page.
pub open spec fn crypto_page_url(target: Seq<char>, slug: Seq<char>) -> Seq<char> {
    if text::starts_with(target, "http://"@) || text::starts_with(target, "https://"@) {
        target
    } else {
        "https://coinmarketcap.com/currencies/"@ + slug + "/"@
    }
}

/// The CoinGecko address of the slug's USD price.
pub open spec fn coingecko_url(slug: Seq<char>) -> Seq<char> {
    "https://api.coingecko.com/api/v3/simple/price?ids="@ + slug + "&vs_currencies=usd"@
}

/// A source of a crypto quote: the CoinMarketCap page, CoinGecko's price API, or the symbol's
/// USD pair on the quote service.
#[derive(Clone, Copy, Debug, PartialEq, Eq, Structural)]
pub enum CryptoSource {
    Page,
    Gecko,
    Pair,
}

/// The order in which the sources of a crypto quote are asked: CoinMarketCap first, with
/// CoinGecko and then the quote service's USD pair as fallbacks.
pub open spec fn crypto_source_order() -> Seq<CryptoSource> {
    seq![CryptoSource::Page, CryptoSource::Gecko, CryptoSource::Pair]
}

/// What to ask for a crypto quote: the addresses of its sources and the order to ask them in.
pub struct CryptoPlan {
    pub slug: String,
    pub symbol: String,
    pub pair: String,
    pub page_url: String,
    pub gecko_url: String,
    pub order: Vec<CryptoSource>,
}

/// What to ask for the quote of a crypto target.
pub fn crypto_quote_plan(target: &str) -> (r: CryptoPlan)
    ensures
        r.slug@ == crypto_slug(target@),
        r.symbol@ == slug_symbol(r.slug@),
        r.pair@ == r.symbol@ + "-USD"@,
        r.page_url@ == crypto_page_url(target@, r.slug@),
        r.gecko_url@ == coingecko_url(r.slug@),
        r.order@ == crypto_source_order(),
{
    let v = text::chars_of(target);
    let base = if text::has_char(&v, '/') {
        last_segment_of(&v)
    } else {
        text::stripped(&v, text::CharClass::WhiteSpace)
    };
    let slug_v = text::to_lowercase(&base);
    let slug = text::string_of(&slug_v);
    let symbol = slug_to_symbol(slug.as_str());
    let mut pair_v = text::chars_of(symbol.as_str());
    text::append_str(&mut pair_v, "-USD");
    let page = if text::starts_with_str(&v, "http://") || text::starts_with_str(&v, "https://") {
        text::copy_chars(&v)
    } else {
        let mut p = text::chars_of("https://coinmarketcap.com/currencies/");
        text::append_chars(&mut p, &slug_v);
        text::append_str(&mut p, "/");
        p
    };
    let mut gecko = text::chars_of("https://api.coingecko.com/api/v3/simple/price?ids=");
    text::append_chars(&mut gecko, &slug_v);
    text::append_str(&mut gecko, "&vs_currencies=usd");
    let order = vec![CryptoSource::Page, CryptoSource::Gecko, CryptoSource::Pair];
    assert(order@ =~= crypto_source_order());
    CryptoPlan {
        slug,
        symbol,
        pair: text::string_of(&pair_v),
        page_url: text::string_of(&page),
        gecko_url: text::string_of(&gecko),
        order,
    }
}

/// The quote-service pair that prices `symbol` in USD, or `None` for USD and the stablecoins,
/// whose price is 1.
pub fn usd_pair_for(symbol: &str) -> (r: Option<String>)
    ensures
        match r {
            None => models::normalized_symbol(symbol@) == "USD"@,
            Some(p) => models::normalized_symbol(symbol@) != "USD"@ && p@
                == models::normalized_symbol(symbol@) + "-USD"@,
        },
{
    let n = models::normalize_crypto_symbol(symbol);
    let nv = text::chars_of(n.as_str());
    if text::chars_eq_str(&nv, "USD") {
        None
    } else {
        let mut p = nv;
        text::append_str(&mut p, "-USD");
        Some(text::string_of(&p))
    }
}

// ---------------------------------------------------------------------------------------------
// Browser sessions (Chrome DevTools Protocol)
// ---------------------------------------------------------------------------------------------

/// A tab that the browser's debugging endpoint lists: its address, its type and, when it can be
/// debugged, its WebSocket address. Missing fields are empty.
pub struct DebugTarget {
    pub url: String,
    pub kind: String,
    pub websocket: Option<String>,
}

/// Whether `t` is a debuggable page whose address contains `needle`.
pub open spec fn target_fits(t: DebugTarget, needle: Seq<char>) -> bool {
    text::contains_seq(t.url@, needle) && t.kind@ == "page"@ && t.websocket is Some
}

/// The index of the first target that fits, or -1.
pub open spec fn first_fit(ts: Seq<DebugTarget>, needle: Seq<char>) -> int
    decreases ts.len(),
{
    if ts.len() == 0 {
        -1
    } else {
        let p = first_fit(ts.drop_last(), needle);
        if p >= 0 {
            p
        } else if target_fits(ts.last(), needle) {
            ts.len() - 1
        } else {
            -1
        }
    }
}

proof fn lemma_first_fit_step(ts: Seq<DebugTarget>, needle: Seq<char>, i: int)
    requires
        0 <= i < ts.len(),
        first_fit(ts.take(i), needle) == -1,
    ensures
        first_fit(ts.take(i + 1), needle) == (if target_fits(ts[i], needle) { i } else { -1 }),
{
    assert(ts.take(i + 1).drop_last() =~= ts.take(i));
}

proof fn lemma_first_fit_prefix(ts: Seq<DebugTarget>, needle: Seq<char>, i: int)
    requires
        0 <= i <= ts.len(),
        0 <= first_fit(ts.take(i), needle),
    ensures
        first_fit(ts, needle) == first_fit(ts.take(i), needle),
    decreases ts.len() - i,
{
    if i < ts.len() {
        assert(ts.drop_last().take(i) =~= ts.take(i));
        lemma_first_fit_prefix(ts.drop_last(), needle, i);
    } else {
        assert(ts.take(i) =~= ts);
    }
}

/// The WebSocket address of the first debuggable page whose address contains `needle`.
pub fn debugger_url(targets: &Vec<DebugTarget>, needle: &str) -> (r: Option<String>)
    ensures
        match r {
            None => first_fit(targets@, needle@) < 0,
            Some(w) => first_fit(targets@, needle@) >= 0 && w@ == targets@[first_fit(
                targets@,
                needle@,
            )].websocket.unwrap()@,
        },
{
    let n = text::chars_of(needle);
    let mut i: usize = 0;
    assert(targets@.take(0) =~= Seq::<DebugTarget>::empty());
    while i < targets.len()
        invariant
            i <= targets.len(),
            n@ == needle@,
            first_fit(targets@.take(i as int), needle@) == -1,
        decreases targets.len() - i,
    {
        proof {
            lemma_first_fit_step(targets@, needle@, i as int);
        }
        let t = &targets[i];
        let u = text::chars_of(t.url.as_str());
        let k = text::chars_of(t.kind.as_str());
        if text::contains_chars(&u, &n) && text::chars_eq_str(&k, "page") {
            match &t.websocket {
                Some(w) => {
                    proof {
                        lemma_first_fit_prefix(targets@, needle@, i + 1);
                    }
                    return Some(w.clone());
                },
                None => {},
            }
        }
        i += 1;
    }
    assert(targets@.take(targets.len() as int) =~= targets@);
    None
}

/// The sites whose balances or tokens are read from an open browser tab.
#[derive(Clone, Copy, PartialEq, Eq, Structural, Debug)]
pub enum SessionSite {
    Uphold,
    Finpension,
    Swissquote,
}

/// What to do when the tab stays silent for a moment or sends something other than text.
#[derive(Clone, Copy, PartialEq, Eq, Structural, Debug)]
pub enum SilenceAction {
    /// Reload the page to make it send requests again, and keep listening.
    Reload,
    /// Stop listening.
    Stop,
}

impl SessionSite {
    /// The text that the address of the site's tab contains.
    pub fn page_needle(&self) -> (r: &'static str)
        ensures
            r@ == match self {
                SessionSite::Uphold => "uphold.com"@,
                SessionSite::Finpension => "finpension.ch"@,
                SessionSite::Swissquote => "swissquote"@,
            },
    {
        match self {
            SessionSite::Uphold => "uphold.com",
            SessionSite::Finpension => "finpension.ch",
            SessionSite::Swissquote => "swissquote",
        }
    }

    /// Whether a tab is opened on the site when none is found.
    pub fn opens_missing_tab(&self) -> (b: bool)
        ensures
            b == (*self == SessionSite::Uphold),
    {
        match self {
            SessionSite::Uphold => true,
            _ => false,
        }
    }

    /// How long the tab's messages are listened to, in seconds.
    pub fn listen_secs(&self) -> (n: u64)
        ensures
            n == match self {
                SessionSite::Uphold => 6u64,
                SessionSite::Finpension => 5u64,
                SessionSite::Swissquote => 4u64,
            },
    {
        match self {
            SessionSite::Uphold => 6,
            SessionSite::Finpension => 5,
            SessionSite::Swissquote => 4,
        }
    }

    /// What a silent moment leads to.
    pub fn on_silence(&self) -> (a: SilenceAction)
        ensures
            a == (if *self == SessionSite::Uphold {
                SilenceAction::Reload
            } else {
                SilenceAction::Stop
            }),
    {
        match self {
            SessionSite::Uphold => SilenceAction::Reload,
            _ => SilenceAction::Stop,
        }
    }
}

/// `s` without every leading repetition of `p` (`str::trim_start_matches`).
pub open spec fn strip_leading(s: Seq<char>, p: Seq<char>) -> Seq<char>
    decreases s.len(),
{
    if p.len() > 0 && text::starts_with(s, p) {
        strip_leading(s.skip(p.len() as int), p)
    } else {
        s
    }
}

/// The token of an `Authorization` value: every leading `Bearer ` removed, then trimmed.
pub open spec fn bearer_value(v: Seq<char>) -> Seq<char> {
    text::trim(strip_leading(v, "Bearer "@))
}

proof fn lemma_skip_occurs(s: Seq<char>, p: Seq<char>, i: int)
    requires
        0 <= i <= s.len(),
    ensures
        text::starts_with(s.skip(i), p) == text::occurs_at(s, p, i),
        text::occurs_at(s, p, i) ==> s.skip(i).skip(p.len() as int) =~= s.skip(i + p.len()),
{
    if i + p.len() <= s.len() {
        assert(s.skip(i).subrange(0, p.len() as int) =~= s.subrange(i, i + p.len()));
    }
}

fn strip_leading_of(v: &Vec<char>, p: &Vec<char>) -> (r: Vec<char>)
    ensures
        r@ == strip_leading(v@, p@),
{
    if p.len() == 0 {
        return text::copy_chars(v);
    }
    let mut i: usize = 0;
    assert(v@.skip(0) =~= v@);
    while text::matches_at(v, p, i)
        invariant
            i <= v.len(),
            p.len() > 0,
            strip_leading(v@, p@) == strip_leading(v@.skip(i as int), p@),
        decreases v.len() - i,
    {
        proof {
            lemma_skip_occurs(v@, p@, i as int);
        }
        i = i + p.len();
    }
    proof {
        lemma_skip_occurs(v@, p@, i as int);
    }
    let r = text::copy_range(v, i, v.len());
    assert(r@ =~= v@.skip(i as int));
    r
}

/// The token a request header offers: the bearer token of an `Authorization` header (any ASCII
/// case) whose text value starts with `Bearer `.
pub open spec fn header_token(h: (String, Option<String>)) -> Option<Seq<char>> {
    match h.1 {
        Some(v) => if crate::config::eq_ignore_ascii_case(h.0@, "authorization"@) && text::starts_with(
            v@,
            "Bearer "@,
        ) {
            Some(bearer_value(v@))
        } else {
            None
        },
        None => None,
    }
}

/// The tokens the headers offer, in order.
pub open spec fn header_tokens(hs: Seq<(String, Option<String>)>) -> Seq<Seq<char>>
    decreases hs.len(),
{
    if hs.len() == 0 {
        Seq::empty()
    } else {
        match header_token(hs.last()) {
            Some(t) => header_tokens(hs.drop_last()).push(t),
            None => header_tokens(hs.drop_last()),
        }
    }
}

/// A message from a debugged tab, as far as token discovery reads it: the value the storage
/// probe returned, when this is its reply and the value is text; and the headers of the request
/// the page is about to send, when this announces one (a header whose value is not text has
/// `None`).
pub struct TabMessage {
    pub storage_value: Option<String>,
    pub request_headers: Vec<(String, Option<String>)>,
}

/// The request number of the storage probe, whose reply carries the stored value.
pub open spec fn storage_probe_id() -> u64 {
    3
}

/// The message what a debugged tab sent makes: the result value counts only in the reply to the
/// storage probe, and the headers only when the message announces a request
/// (`Network.requestWillBeSent`).
pub fn tab_message(
    id: Option<u64>,
    method: Option<String>,
    result_value: Option<String>,
    headers: Vec<(String, Option<String>)>,
) -> (m: TabMessage)
    ensures
        m.storage_value == (if id == Some(storage_probe_id()) {
            result_value
        } else {
            None
        }),
        m.request_headers@ == (if method is Some && method->0@ == "Network.requestWillBeSent"@ {
            headers@
        } else {
            Seq::empty()
        }),
{
    let storage_value = match id {
        Some(n) => if n == 3 {
            result_value
        } else {
            None
        },
        None => None,
    };
    let announces = match &method {
        Some(name) => {
            let v = text::chars_of(name.as_str());
            text::chars_eq_str(&v, "Network.requestWillBeSent")
        },
        None => false,
    };
    let request_headers = if announces {
        headers
    } else {
        Vec::new()
    };
    TabMessage { storage_value, request_headers }
}

/// The tokens a message offers, in the order they are tried: the stored value, then those of the
/// request's headers.
pub open spec fn message_tokens(m: TabMessage) -> Seq<Seq<char>> {
    match m.storage_value {
        Some(v) => seq![v@] + header_tokens(m.request_headers@),
        None => header_tokens(m.request_headers@),
    }
}

/// The bearer token of one header, if it offers one.
fn token_of_header(h: &(String, Option<String>)) -> (r: Option<Vec<char>>)
    ensures
        match r {
            Some(t) => header_token(*h) == Some(t@),
            None => header_token(*h) is None,
        },
{
    match &h.1 {
        Some(v) => {
            let k = text::chars_of(h.0.as_str());
            let auth = text::chars_of("authorization");
            let vv = text::chars_of(v.as_str());
            if crate::config::same_ignoring_ascii_case(&k, &auth) && text::starts_with_str(
                &vv,
                "Bearer ",
            ) {
                let prefix = text::chars_of("Bearer ");
                let rest = strip_leading_of(&vv, &prefix);
                Some(text::stripped(&rest, text::CharClass::WhiteSpace))
            } else {
                None
            }
        },
        None => None,
    }
}

/// The candidate tokens a tab message offers, in the order they are to be validated; the first
/// that the site accepts is the session's token.
pub fn message_token_candidates(m: &TabMessage) -> (r: Vec<String>)
    ensures
        models::string_views(r@) == message_tokens(*m),
{
    let mut r: Vec<String> = Vec::new();
    match &m.storage_value {
        Some(v) => {
            r.push(v.clone());
        },
        None => {},
    }
    let ghost first = models::string_views(r@);
    let hs = &m.request_headers;
    let mut i: usize = 0;
    assert(hs@.take(0) =~= Seq::<(String, Option<String>)>::empty());
    assert(first + header_tokens(hs@.take(0)) =~= first);
    while i < hs.len()
        invariant
            i <= hs.len(),
            hs == &m.request_headers,
            models::string_views(r@) == first + header_tokens(hs@.take(i as int)),
        decreases hs.len() - i,
    {
        assert(hs@.take(i + 1).drop_last() =~= hs@.take(i as int));
        match token_of_header(&hs[i]) {
            Some(t) => {
                let ghost before = r@;
                r.push(text::string_of(&t));
                assert(models::string_views(r@) =~= models::string_views(before).push(t@));
            },
            None => {},
        }
        i += 1;
    }
    assert(hs@.take(hs.len() as int) =~= hs@);
    match &m.storage_value {
        Some(v) => {
            assert(first =~= seq![v@]);
        },
        None => {
            assert(first =~= Seq::<Seq<char>>::empty());
        },
    }
    r
}

/// A token as typed or stored: trimmed, every leading `Bearer ` removed, trimmed again.
pub open spec fn clean_token(raw: Seq<char>) -> Seq<char> {
    text::trim(strip_leading(text::trim(raw), "Bearer "@))
}

/// The bare token that is sent after `Bearer ` in the `Authorization` header.
pub fn clean_bearer_token(raw: &str) -> (r: String)
    ensures
        r@ == clean_token(raw@),
{
    let v = text::chars_of(raw);
    let t = text::stripped(&v, text::CharClass::WhiteSpace);
    let prefix = text::chars_of("Bearer ");
    let s = strip_leading_of(&t, &prefix);
    let c = text::stripped(&s, text::CharClass::WhiteSpace);
    text::string_of(&c)
}

// ---------------------------------------------------------------------------------------------
// Chia wallet coins
// ---------------------------------------------------------------------------------------------

/// The unsigned big-endian number that the bytes `b` encode.
pub open spec fn big_endian(b: Seq<u8>) -> nat
    decreases b.len(),
{
    if b.len() == 0 {
        0
    } else {
        big_endian(b.drop_last()) * 256 + (b.last() as nat)
    }
}

/// 2^128.
pub open spec fn two_to_128() -> nat {
    340282366920938463463374607431768211456nat
}

/// The amount of a coin record, in mojos: its big-endian bytes read into 128 bits (longer
/// records keep their low 128 bits, as the shifts that read them do).
pub open spec fn coin_mojos(b: Seq<u8>) -> nat {
    big_endian(b) % two_to_128()
}

proof fn lemma_mojo_step(big: nat, v: u128, b: u8)
    requires
        v == big % two_to_128(),
    ensures
        ((v << 8u128) | (b as u128)) == (big * 256 + (b as nat)) % two_to_128(),
{
    let p: int = 1329227995784915872903807060280344576int;
    let m: int = 340282366920938463463374607431768211456int;
    let bb: u128 = b as u128;
    assert(((v << 8u128) | bb) == (v % 1329227995784915872903807060280344576u128) * 256 + bb)
        by (bit_vector)
        requires
            bb < 256,
    ;
    let q = (big as int) / m;
    vstd::arithmetic::div_mod::lemma_fundamental_div_mod(big as int, m);
    assert(v == big - m * q);
    vstd::arithmetic::div_mod::lemma_mod_multiples_vanish(-256 * q, big as int, p);
    assert(p * (-256 * q) + big == v);
    assert((v as int) % p == (big as int) % p);
    let q2 = (big as int) / p;
    let r2 = (big as int) % p;
    vstd::arithmetic::div_mod::lemma_fundamental_div_mod(big as int, p);
    assert(big == p * q2 + r2);
    assert(0 <= r2 < p);
    assert(big * 256 + b == q2 * m + (r2 * 256 + b));
    vstd::arithmetic::div_mod::lemma_fundamental_div_mod_converse_mod(
        big * 256 + b,
        m,
        q2,
        r2 * 256 + b,
    );
}

/// The mojos of one coin record.
pub fn blob_mojos(blob: &Vec<u8>) -> (r: u128)
    ensures
        r == coin_mojos(blob@),
{
    let mut val: u128 = 0;
    let mut i: usize = 0;
    assert(blob@.take(0) =~= Seq::<u8>::empty());
    while i < blob.len()
        invariant
            i <= blob.len(),
            val == big_endian(blob@.take(i as int)) % two_to_128(),
        decreases blob.len() - i,
    {
        let ghost big = big_endian(blob@.take(i as int));
        assert(blob@.take(i + 1).drop_last() =~= blob@.take(i as int));
        proof {
            lemma_mojo_step(big, val, blob[i as int]);
        }
        val = (val << 8u128) | (blob[i] as u128);
        i += 1;
    }
    assert(blob@.take(blob.len() as int) =~= blob@);
    val
}

/// The mojos of all the coin records, summed.
pub open spec fn total_mojos(blobs: Seq<Vec<u8>>) -> nat
    decreases blobs.len(),
{
    if blobs.len() == 0 {
        0
    } else {
        total_mojos(blobs.drop_last()) + coin_mojos(blobs.last()@)
    }
}

proof fn lemma_total_mojos_prefix(blobs: Seq<Vec<u8>>, i: int)
    requires
        0 <= i <= blobs.len(),
    ensures
        total_mojos(blobs.take(i)) <= total_mojos(blobs),
    decreases blobs.len() - i,
{
    if i < blobs.len() {
        lemma_total_mojos_prefix(blobs.drop_last(), i);
        assert(blobs.drop_last().take(i) =~= blobs.take(i));
    } else {
        assert(blobs.take(i) =~= blobs);
    }
}

/// The unspent balance of a Chia wallet in mojos, from the amount blobs of its coin records;
/// `None` when the sum does not fit 128 bits.
pub fn chia_mojo_total(blobs: &Vec<Vec<u8>>) -> (r: Option<u128>)
    ensures
        match r {
            Some(t) => t == total_mojos(blobs@),
            None => total_mojos(blobs@) > u128::MAX,
        },
{
    let mut total: u128 = 0;
    let mut i: usize = 0;
    assert(blobs@.take(0) =~= Seq::<Vec<u8>>::empty());
    while i < blobs.len()
        invariant
            i <= blobs.len(),
            total == total_mojos(blobs@.take(i as int)),
        decreases blobs.len() - i,
    {
        assert(blobs@.take(i + 1).drop_last() =~= blobs@.take(i as int));
        let v = blob_mojos(&blobs[i]);
        match total.checked_add(v) {
            Some(t) => {
                total = t;
            },
            None => {
                proof {
                    lemma_total_mojos_prefix(blobs@, i + 1);
                }
                return None;
            },
        }
        i += 1;
    }
    assert(blobs@.take(blobs.len() as int) =~= blobs@);
    Some(total)
}

// ---------------------------------------------------------------------------------------------
// Starling balances by currency
// ---------------------------------------------------------------------------------------------

/// The index of the group of currency `c`, or -1.
pub open spec fn group_of(gs: Seq<(Seq<char>, Seq<int>)>, c: Seq<char>) -> int
    decreases gs.len(),
{
    if gs.len() == 0 {
        -1
    } else {
        let p = group_of(gs.drop_last(), c);
        if p >= 0 {
            p
        } else if gs.last().0 == c {
            gs.len() - 1
        } else {
            -1
        }
    }
}

/// The balances of the accounts with currencies `cs` gathered by currency: one group per
/// currency in order of first appearance, each with the indices of its accounts in order.
pub open spec fn currency_groups(cs: Seq<Seq<char>>) -> Seq<(Seq<char>, Seq<int>)>
    decreases cs.len(),
{
    if cs.len() == 0 {
        Seq::empty()
    } else {
        let g = currency_groups(cs.drop_last());
        let i = cs.len() - 1;
        let p = group_of(g, cs.last());
        if p >= 0 {
            g.update(p, (g[p].0, g[p].1.push(i)))
        } else {
            g.push((cs.last(), seq![i]))
        }
    }
}

pub open spec fn group_views(gs: Seq<(String, Vec<usize>)>) -> Seq<(Seq<char>, Seq<int>)> {
    gs.map_values(|g: (String, Vec<usize>)| (g.0@, g.1@.map_values(|x: usize| x as int)))
}

proof fn lemma_group_of(gs: Seq<(Seq<char>, Seq<int>)>, c: Seq<char>)
    ensures
        -1 <= group_of(gs, c) < gs.len(),
        group_of(gs, c) >= 0 ==> gs[group_of(gs, c)].0 == c,
        group_of(gs, c) >= 0 ==> forall|q: int| 0 <= q < group_of(gs, c) ==> gs[q].0 != c,
        group_of(gs, c) < 0 ==> forall|q: int| 0 <= q < gs.len() ==> gs[q].0 != c,
    decreases gs.len(),
{
    if gs.len() > 0 {
        lemma_group_of(gs.drop_last(), c);
        let d = gs.drop_last();
        assert forall|q: int| 0 <= q < d.len() implies gs[q] == d[q] by {}
    }
}

proof fn lemma_group_of_prefix(gs: Seq<(Seq<char>, Seq<int>)>, c: Seq<char>, i: int)
    requires
        0 <= i <= gs.len(),
        group_of(gs.take(i), c) == -1,
        forall|q: int| i <= q < gs.len() ==> gs[q].0 != c,
    ensures
        group_of(gs, c) == -1,
    decreases gs.len() - i,
{
    if i < gs.len() {
        assert(gs.take(i + 1).drop_last() =~= gs.take(i));
        lemma_group_of_prefix(gs, c, i + 1);
    } else {
        assert(gs.take(i) =~= gs);
    }
}

proof fn lemma_group_of_found(gs: Seq<(Seq<char>, Seq<int>)>, c: Seq<char>, p: int)
    requires
        0 <= p < gs.len(),
        gs[p].0 == c,
        forall|q: int| 0 <= q < p ==> gs[q].0 != c,
    ensures
        group_of(gs, c) == p,
    decreases gs.len(),
{
    if gs.len() - 1 > p {
        let d = gs.drop_last();
        assert(d[p] == gs[p]);
        assert forall|q: int| 0 <= q < p implies d[q].0 != c by {
            assert(d[q] == gs[q]);
        }
        lemma_group_of_found(d, c, p);
    } else {
        lemma_group_of(gs.drop_last(), c);
        let d = gs.drop_last();
        assert forall|q: int| 0 <= q < d.len() implies d[q].0 != c by {
            assert(d[q] == gs[q]);
        }
    }
}

/// The accounts' indices gathered by currency, as `currency_groups` states.
pub fn group_by_currency(currencies: &Vec<String>) -> (r: Vec<(String, Vec<usize>)>)
    ensures
        group_views(r@) == currency_groups(models::string_views(currencies@)),
{
    let ghost cs = models::string_views(currencies@);
    let mut r: Vec<(String, Vec<usize>)> = Vec::new();
    let mut i: usize = 0;
    assert(cs.take(0) =~= Seq::<Seq<char>>::empty());
    assert(group_views(r@) =~= Seq::<(Seq<char>, Seq<int>)>::empty());
    while i < currencies.len()
        invariant
            i <= currencies.len(),
            cs == models::string_views(currencies@),
            group_views(r@) == currency_groups(cs.take(i as int)),
        decreases currencies.len() - i,
    {
        let ghost g = group_views(r@);
        assert(cs.take(i + 1).drop_last() =~= cs.take(i as int));
        assert(cs.take(i + 1).last() == currencies@[i as int]@);
        proof {
            lemma_group_of(g, currencies@[i as int]@);
        }
        let mut p: usize = 0;
        let mut found = false;
        assert(g.take(0) =~= Seq::<(Seq<char>, Seq<int>)>::empty());
        while p < r.len()
            invariant_except_break
                !found,
            invariant
                p <= r.len(),
                g == group_views(r@),
                group_of(g.take(p as int), currencies@[i as int]@) == -1,
                i < currencies.len(),
            ensures
                found ==> p < r.len() && g[p as int].0 == currencies@[i as int]@,
                !found ==> p == r.len(),
            decreases r.len() - p,
        {
            assert(g.take(p + 1).drop_last() =~= g.take(p as int));
            assert(g[p as int].0 == r@[p as int].0@);
            if r[p].0 == currencies[i] {
                found = true;
                break;
            }
            p += 1;
        }
        if found {
            proof {
                assert(g.take(p + 1).drop_last() =~= g.take(p as int));
                lemma_group_of(g.take(p as int), currencies@[i as int]@);
                assert forall|q: int| 0 <= q < p implies g[q].0 != currencies@[i as int]@ by {
                    assert(g.take(p as int)[q] == g[q]);
                }
                lemma_group_of_found(g, currencies@[i as int]@, p as int);
            }
            let ghost before = r@;
            r[p].1.push(i);
            assert(group_views(r@) =~= g.update(p as int, (g[p as int].0, g[p as int].1.push(i as int)))) by {
                assert(r@[p as int].1@.map_values(|x: usize| x as int) =~= before[p as int].1@.map_values(
                    |x: usize| x as int,
                ).push(i as int));
            }
            assert(currency_groups(cs.take(i + 1)) == g.update(
                p as int,
                (g[p as int].0, g[p as int].1.push(i as int)),
            ));
        } else {
            let ghost before = r@;
            let mut idx: Vec<usize> = Vec::new();
            idx.push(i);
            r.push((currencies[i].clone(), idx));
            assert(group_views(r@) =~= g.push((currencies@[i as int]@, seq![i as int]))) by {
                assert(r@.last().1@.map_values(|x: usize| x as int) =~= seq![i as int]);
            }
            proof {
                lemma_group_of_prefix(g, currencies@[i as int]@, g.len() as int);
            }
            assert(currency_groups(cs.take(i + 1)) == g.push((currencies@[i as int]@, seq![i as int])));
        }
        i += 1;
    }
    assert(cs.take(currencies.len() as int) =~= cs);
    r
}

/// Groups partition the accounts: no currency has two groups, every group lists accounts of its
/// currency in increasing order, and every account is in a group.
pub open spec fn groups_partition(cs: Seq<Seq<char>>, gs: Seq<(Seq<char>, Seq<int>)>) -> bool {
    &&& forall|p: int, q: int| 0 <= p < q < gs.len() ==> #[trigger] gs[p].0 != #[trigger] gs[q].0
    &&& forall|p: int, k: int|
        #![trigger gs[p].1[k]]
        0 <= p < gs.len() && 0 <= k < gs[p].1.len() ==> 0 <= gs[p].1[k] < cs.len() && cs[gs[p].1[k]]
            == gs[p].0
    &&& forall|p: int, k1: int, k2: int|
        #![trigger gs[p].1[k1], gs[p].1[k2]]
        0 <= p < gs.len() && 0 <= k1 < k2 < gs[p].1.len() ==> gs[p].1[k1] < gs[p].1[k2]
    &&& forall|i: int| 0 <= i < cs.len() ==> #[trigger] in_some_group(cs, gs, i)
}

/// Whether account `i` is listed in the group of its currency.
pub open spec fn in_some_group(cs: Seq<Seq<char>>, gs: Seq<(Seq<char>, Seq<int>)>, i: int) -> bool {
    exists|p: int, k: int|
        #![trigger gs[p].1[k]]
        0 <= p < gs.len() && 0 <= k < gs[p].1.len() && gs[p].1[k] == i && gs[p].0 == cs[i]
}

/// Balances summed by currency lose no account and merge no two currencies: the groups
/// partition the accounts by currency, each listing its accounts in order.
pub proof fn law_currency_groups_partition(cs: Seq<Seq<char>>)
    ensures
        groups_partition(cs, currency_groups(cs)),
    decreases cs.len(),
{
    if cs.len() > 0 {
        let d = cs.drop_last();
        law_currency_groups_partition(d);
        let g = currency_groups(d);
        let c = cs.last();
        let i = cs.len() - 1;
        lemma_group_of(g, c);
        let p0 = group_of(g, c);
        let gs = currency_groups(cs);
        assert forall|p: int, k: int|
            #![trigger gs[p].1[k]]
            0 <= p < g.len() && 0 <= k < g[p].1.len() implies 0 <= g[p].1[k] < i && cs[g[p].1[k]]
                == g[p].0 by {
            assert(d[g[p].1[k]] == cs[g[p].1[k]]);
        }
        if p0 >= 0 {
            assert(gs == g.update(p0, (g[p0].0, g[p0].1.push(i))));
            assert forall|p: int, q: int| 0 <= p < q < gs.len() implies #[trigger] gs[p].0
                != #[trigger] gs[q].0 by {
                assert(gs[p].0 == g[p].0);
                assert(gs[q].0 == g[q].0);
            }
            assert forall|p: int, k: int|
                #![trigger gs[p].1[k]]
                0 <= p < gs.len() && 0 <= k < gs[p].1.len() implies 0 <= gs[p].1[k] < cs.len()
                    && cs[gs[p].1[k]] == gs[p].0 by {
                if p == p0 && k == g[p].1.len() {
                } else {
                    assert(gs[p].1[k] == g[p].1[k]);
                }
            }
            assert forall|p: int, k1: int, k2: int|
                #![trigger gs[p].1[k1], gs[p].1[k2]]
                0 <= p < gs.len() && 0 <= k1 < k2 < gs[p].1.len() implies gs[p].1[k1]
                    < gs[p].1[k2] by {
                assert(gs[p].1[k1] == g[p].1[k1]);
                if p == p0 && k2 == g[p].1.len() {
                } else {
                    assert(gs[p].1[k2] == g[p].1[k2]);
                }
            }
            assert forall|j: int| 0 <= j < cs.len() implies #[trigger] in_some_group(cs, gs, j) by {
                if j == i {
                    assert(gs[p0].1[g[p0].1.len() as int] == i);
                } else {
                    assert(d[j] == cs[j]);
                    assert(in_some_group(d, g, j));
                    let (p, k) = choose|p: int, k: int|
                        #![trigger g[p].1[k]]
                        0 <= p < g.len() && 0 <= k < g[p].1.len() && g[p].1[k] == j && g[p].0 == d[j];
                    assert(gs[p].1[k] == g[p].1[k]);
                }
            }
            assert(groups_partition(cs, gs));
        } else {
            assert(gs == g.push((c, seq![i])));
            assert forall|p: int, q: int| 0 <= p < q < gs.len() implies #[trigger] gs[p].0
                != #[trigger] gs[q].0 by {
                assert(gs[p].0 == g[p].0);
                if q < g.len() {
                    assert(gs[q].0 == g[q].0);
                }
            }
            assert forall|p: int, k: int|
                #![trigger gs[p].1[k]]
                0 <= p < gs.len() && 0 <= k < gs[p].1.len() implies 0 <= gs[p].1[k] < cs.len()
                    && cs[gs[p].1[k]] == gs[p].0 by {
                if p < g.len() {
                    assert(gs[p].1[k] == g[p].1[k]);
                }
            }
            assert forall|p: int, k1: int, k2: int|
                #![trigger gs[p].1[k1], gs[p].1[k2]]
                0 <= p < gs.len() && 0 <= k1 < k2 < gs[p].1.len() implies gs[p].1[k1]
                    < gs[p].1[k2] by {
                if p < g.len() {
                    assert(gs[p].1[k1] == g[p].1[k1]);
                    assert(gs[p].1[k2] == g[p].1[k2]);
                }
            }
            assert forall|j: int| 0 <= j < cs.len() implies #[trigger] in_some_group(cs, gs, j) by {
                if j == i {
                    assert(gs[g.len() as int].1[0] == i);
                } else {
                    assert(d[j] == cs[j]);
                    assert(in_some_group(d, g, j));
                    let (p, k) = choose|p: int, k: int|
                        #![trigger g[p].1[k]]
                        0 <= p < g.len() && 0 <= k < g[p].1.len() && g[p].1[k] == j && g[p].0 == d[j];
                    assert(gs[p].1[k] == g[p].1[k]);
                }
            }
            assert(groups_partition(cs, gs));
        }
    }
}

/// The name of the wallet database of the fingerprint written in `last_used_fingerprint`.
pub open spec fn chia_db_name(fingerprint: Seq<char>) -> Seq<char> {
    "blockchain_wallet_v2_r1_mainnet_"@ + text::trim(fingerprint) + ".sqlite"@
}

/// The file name of the wallet database for a fingerprint file's text.
pub fn chia_db_file_name(fingerprint: &str) -> (r: String)
    ensures
        r@ == chia_db_name(fingerprint@),
{
    let v = text::chars_of(fingerprint);
    let t = text::stripped(&v, text::CharClass::WhiteSpace);
    let mut n = text::chars_of("blockchain_wallet_v2_r1_mainnet_");
    text::append_chars(&mut n, &t);
    text::append_str(&mut n, ".sqlite");
    text::string_of(&n)
}

/// Whether a file in the wallet directory is a wallet database.
pub fn is_chia_wallet_db(file_name: &str) -> (b: bool)
    ensures
        b == (text::starts_with(file_name@, "blockchain_wallet_v2_r1_"@) && text::ends_with(
            file_name@,
            ".sqlite"@,
        )),
{
    let v = text::chars_of(file_name);
    text::starts_with_str(&v, "blockchain_wallet_v2_r1_") && text::ends_with_str(&v, ".sqlite")
}

/// The name of a retirement portfolio: the first name it gives, in the order tried, else
/// `Portfolio ` and its number from 1.
pub open spec fn portfolio_label(names: Seq<Option<String>>, index: nat) -> Seq<char>
    decreases names.len(),
{
    if names.len() == 0 {
        "Portfolio "@ + text::decimal(index + 1)
    } else {
        match names[0] {
            Some(n) => n@,
            None => portfolio_label(names.drop_first(), index),
        }
    }
}

/// The name of portfolio number `index` (from 0) given the names it may carry, in the order they
/// are tried (its own name, then its strategy's English, German and plain names).
pub fn portfolio_name(names: &Vec<Option<String>>, index: usize) -> (r: String)
    requires
        index < usize::MAX,
    ensures
        r@ == portfolio_label(names@, index as nat),
{
    let mut i: usize = 0;
    assert(names@.skip(0) =~= names@);
    while i < names.len()
        invariant
            i <= names.len(),
            index < usize::MAX,
            portfolio_label(names@.skip(i as int), index as nat) == portfolio_label(
                names@,
                index as nat,
            ),
        decreases names.len() - i,
    {
        assert(names@.skip(i as int)[0] == names@[i as int]);
        match &names[i] {
            Some(n) => {
                return n.clone();
            },
            None => {},
        }
        assert(names@.skip(i as int).drop_first() =~= names@.skip(i + 1));
        i += 1;
    }
    let mut v = text::chars_of("Portfolio ");
    let d = text::decimal_of((index + 1) as u64);
    text::append_chars(&mut v, &d);
    text::string_of(&v)
}

} // verus!
