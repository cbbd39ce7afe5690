//! Configuration values and the custom cash fields the user types in: free-text entries such as
//! `Chase 1234.50 GBP` are split into a name, an amount and a currency, and validated.
use vstd::prelude::*;
use crate::text;
use crate::numeral;

verus! {

/// A configuration value written either as one string or as a list of strings.
pub enum StringOrVec {
    Single(String),
    Multiple(Vec<String>),
}

impl StringOrVec {
    /// The strings the value stands for: one string unless it is empty, or the list as given.
    pub fn into_vec(self) -> (r: Vec<String>)
        ensures
            match self {
                StringOrVec::Single(s) => if s@.len() == 0 {
                    r@.len() == 0
                } else {
                    r@ == seq![s]
                },
                StringOrVec::Multiple(v) => r == v,
            },
    {
        match self {
            StringOrVec::Single(s) => {
                if s.as_str().is_empty() {
                    Vec::new()
                } else {
                    let mut r: Vec<String> = Vec::new();
                    r.push(s);
                    r
                }
            },
            StringOrVec::Multiple(v) => v,
        }
    }
}

/// The configured Monero wallet addresses: none where the entry is missing, else its list.
pub fn get_monero_addresses(address: Option<StringOrVec>) -> (r: Vec<String>)
    ensures
        match address {
            None => r@.len() == 0,
            Some(StringOrVec::Single(s)) => if s@.len() == 0 {
                r@.len() == 0
            } else {
                r@ == seq![s]
            },
            Some(StringOrVec::Multiple(v)) => r == v,
        },
{
    match address {
        Some(a) => a.into_vec(),
        None => Vec::new(),
    }
}

/// The account codes of the automated providers; they are never custom cash fields.
pub open spec fn is_reserved_code(u: Seq<char>) -> bool {
    ||| u == "UH"@
    ||| u == "MW"@
    ||| u == "CW"@
    ||| u == "CB"@
    ||| u == "IB"@
    ||| u == "KRAKEN"@
    ||| u == "FP"@
    ||| u == "SQ"@
    ||| u == "REV"@
    ||| u == "UBS"@
    ||| u == "ST"@
}

/// Whether `name`, trimmed and upper-cased, is the code of an automated account.
pub open spec fn is_reserved(name: Seq<char>) -> bool {
    is_reserved_code(text::upper_text(text::trim(name)))
}

/// The currencies that can be converted to CHF.
pub open spec fn is_supported_currency(c: Seq<char>) -> bool {
    ||| c == "CHF"@
    ||| c == "USD"@
    ||| c == "EUR"@
    ||| c == "GBP"@
    ||| c == "AUD"@
}

fn reserved_code(u: &Vec<char>) -> (b: bool)
    ensures
        b == is_reserved_code(u@),
{
    text::chars_eq_str(u, "UH") || text::chars_eq_str(u, "MW") || text::chars_eq_str(u, "CW")
        || text::chars_eq_str(u, "CB") || text::chars_eq_str(u, "IB") || text::chars_eq_str(
        u,
        "KRAKEN",
    ) || text::chars_eq_str(u, "FP") || text::chars_eq_str(u, "SQ") || text::chars_eq_str(
        u,
        "REV",
    ) || text::chars_eq_str(u, "UBS") || text::chars_eq_str(u, "ST")
}

fn supported_currency(c: &Vec<char>) -> (b: bool)
    ensures
        b == is_supported_currency(c@),
{
    text::chars_eq_str(c, "CHF") || text::chars_eq_str(c, "USD") || text::chars_eq_str(c, "EUR")
        || text::chars_eq_str(c, "GBP") || text::chars_eq_str(c, "AUD")
}

fn is_reserved_chars(name: &Vec<char>) -> (b: bool)
    ensures
        b == is_reserved(name@),
{
    let t = text::stripped(name, text::CharClass::WhiteSpace);
    let u = text::to_uppercase(&t);
    reserved_code(&u)
}

/// Whether `name` is the code of an automated account (compared trimmed and upper-cased).
pub fn is_reserved_automated_account(name: &str) -> (b: bool)
    ensures
        b == is_reserved(name@),
{
    let v = text::chars_of(name);
    is_reserved_chars(&v)
}

pub open spec fn is_ascii_alpha(c: char) -> bool {
    (65 <= (c as int) <= 90) || (97 <= (c as int) <= 122)
}

/// Three ASCII letters: a word shaped like a currency code.
pub open spec fn is_code_word(w: Seq<char>) -> bool {
    w.len() == 3 && forall|i: int| 0 <= i < 3 ==> is_ascii_alpha(#[trigger] w[i])
}

fn is_code_chars(word: &Vec<char>) -> (b: bool)
    ensures
        b == is_code_word(word@),
{
    if word.len() != 3 {
        return false;
    }
    let mut i: usize = 0;
    while i < 3
        invariant
            i <= 3,
            word.len() == 3,
            forall|j: int| 0 <= j < i ==> is_ascii_alpha(#[trigger] word@[j]),
        decreases 3 - i,
    {
        let c = word[i];
        if !(('A' <= c && c <= 'Z') || ('a' <= c && c <= 'z')) {
            return false;
        }
        i += 1;
    }
    true
}

/// A three-letter alphabetic word, i.e. something shaped like a currency code.
pub fn is_currency_code(word: &str) -> (b: bool)
    ensures
        b == is_code_word(word@),
{
    let w = text::chars_of(word);
    is_code_chars(&w)
}



fn to_ascii_upper(w: &Vec<char>) -> (r: Vec<char>)
    ensures
        r@ == text::ascii_upper(w@),
{
    let mut r: Vec<char> = Vec::new();
    let mut i: usize = 0;
    while i < w.len()
        invariant
            i <= w.len(),
            r@ == text::ascii_upper(w@.take(i as int)),
        decreases w.len() - i,
    {
        let c = w[i];
        let u = if 'a' <= c && c <= 'z' {
            ((c as u32) - 32) as u8 as char
        } else {
            c
        };
        assert(u == text::ascii_upper_char(c));
        r.push(u);
        i += 1;
        assert(r@ =~= text::ascii_upper(w@.take(i as int)));
    }
    assert(w@.take(w.len() as int) =~= w@);
    r
}

// ---------------------------------------------------------------------------------------------
// Amount tokens
// ---------------------------------------------------------------------------------------------

/// A word with its currency symbol removed, and the code of that symbol.
pub type SymbolState = Option<(Seq<char>, Option<Seq<char>>)>;

/// One step of symbol removal: `sym` is stripped from the front, else from the back; a second
/// symbol after a first one makes the word no amount (`None`).
pub open spec fn strip_symbol(st: SymbolState, sym: char, code: Seq<char>) -> SymbolState {
    match st {
        None => None,
        Some((s, cur)) => if s.len() > 0 && (s[0] == sym || s.last() == sym) {
            if cur is Some {
                None
            } else if s[0] == sym {
                Some((s.drop_first(), Some(code)))
            } else {
                Some((s.drop_last(), Some(code)))
            }
        } else {
            Some((s, cur))
        },
    }
}

/// The word with its currency symbol (`£`, `$`, `€`, tried in that order) removed.
pub open spec fn after_symbols(word: Seq<char>) -> SymbolState {
    strip_symbol(
        strip_symbol(strip_symbol(Some((word, None)), '£', "GBP"@), '$', "USD"@),
        '€',
        "EUR"@,
    )
}

pub open spec fn has_digit(s: Seq<char>) -> bool {
    exists|i: int| 0 <= i < s.len() && numeral::is_ascii_digit(#[trigger] s[i])
}

/// A thousands separator stands after a decimal point.
pub open spec fn separator_after_point(s: Seq<char>) -> bool {
    exists|i: int, j: int|
        0 <= i < j < s.len() && #[trigger] s[i] == '.' && text::in_class(
            text::CharClass::Separator,
            #[trigger] s[j],
        )
}

/// The digits before the first decimal point.
pub open spec fn int_part(s: Seq<char>) -> Seq<char> {
    text::split_on(s, text::CharClass::Dot)[0]
}

/// Every group after the first has exactly three digits.
pub open spec fn later_groups_ok(g: Seq<Seq<char>>) -> bool {
    forall|i: int| 1 <= i < g.len() ==> (#[trigger] g[i]).len() == 3
}

/// Thousands separators group the integer part as `d,ddd,ddd`: at most three digits lead and every
/// later group has exactly three.
pub open spec fn groups_ok(s: Seq<char>) -> bool {
    let g = text::split_on(int_part(s), text::CharClass::Separator);
    &&& text::has_class(int_part(s), text::CharClass::Separator) ==> 1 <= g[0].len() <= 3
    &&& later_groups_ok(g)
}

/// An amount token such as `1234.50`, `£1,500` or `2'000$`: the numeral that `f64` parsing reads
/// (separators removed) and the currency its symbol implies.
pub open spec fn amount_in(word: Seq<char>) -> SymbolState {
    match after_symbols(word) {
        None => None,
        Some((s, cur)) => {
            let t = text::remove_class(s, text::CharClass::Separator);
            if has_digit(s) && !separator_after_point(s) && groups_ok(s)
                && numeral::finite_numeral(t) {
                Some((t, cur))
            } else {
                None
            }
        },
    }
}

/// No character of `w` is a currency symbol.
pub open spec fn no_currency_symbol(w: Seq<char>) -> bool {
    forall|i: int| 0 <= i < w.len() ==> #[trigger] w[i] != '£' && w[i] != '$' && w[i] != '€'
}

/// The amount a word gives with a symbol's currency in place of its own.
pub open spec fn in_currency(st: SymbolState, code: Seq<char>) -> SymbolState {
    match st {
        Some((t, _)) => Some((t, Some(code))),
        None => None,
    }
}

/// A currency symbol (`£` GBP, `$` USD, `€` EUR) may stand before or after the number: a word
/// without symbols with the symbol written after it, or before it, reads as the same amount as
/// the word alone, in the symbol's currency (`2'000$` is 2000 USD, `300€` is 300 EUR).
pub proof fn law_symbol_before_or_after_amount(n: Seq<char>, sym: char, code: Seq<char>)
    requires
        (sym == '£' && code == "GBP"@) || (sym == '$' && code == "USD"@) || (sym == '€' && code
            == "EUR"@),
        no_currency_symbol(n),
    ensures
        amount_in(n.push(sym)) == in_currency(amount_in(n), code),
        amount_in(seq![sym] + n) == in_currency(amount_in(n), code),
        amount_in(n) matches Some((_, cur)) ==> cur is None,
{
    let back = n.push(sym);
    let front = seq![sym] + n;
    assert(back.last() == sym);
    assert(back.drop_last() =~= n);
    assert(front[0] == sym);
    assert(front.drop_first() =~= n);
    if n.len() > 0 {
        assert(back[0] == n[0]);
        assert(front.last() == n.last());
        assert(n[0] != '£' && n[0] != '$' && n[0] != '€');
        assert(n.last() == n[n.len() - 1]);
        assert(n[n.len() - 1] != '£' && n[n.len() - 1] != '$' && n[n.len() - 1] != '€');
    }
    assert(after_symbols(n) == Some((n, None::<Seq<char>>)));
    assert(after_symbols(back) == Some((n, Some(code))));
    assert(after_symbols(front) == Some((n, Some(code))));
}

pub open spec fn opt_view(o: Option<Vec<char>>) -> Option<Seq<char>> {
    match o {
        Some(v) => Some(v@),
        None => None,
    }
}

fn strip_symbol_step(s: Vec<char>, cur: Option<Vec<char>>, sym: char, code: &str) -> (r: Option<
    (Vec<char>, Option<Vec<char>>),
>)
    ensures
        match r {
            None => strip_symbol(Some((s@, opt_view(cur))), sym, code@) is None,
            Some((t, c)) => strip_symbol(Some((s@, opt_view(cur))), sym, code@) == Some(
                (t@, opt_view(c)),
            ),
        },
{
    let n = s.len();
    if n > 0 && (s[0] == sym || s[n - 1] == sym) {
        if cur.is_some() {
            None
        } else if s[0] == sym {
            let t = text::copy_range(&s, 1, n);
            assert(t@ =~= s@.drop_first());
            Some((t, Some(text::chars_of(code))))
        } else {
            let t = text::copy_range(&s, 0, n - 1);
            assert(t@ =~= s@.drop_last());
            Some((t, Some(text::chars_of(code))))
        }
    } else {
        Some((s, cur))
    }
}

fn has_digit_char(s: &Vec<char>) -> (b: bool)
    ensures
        b == has_digit(s@),
{
    let mut i: usize = 0;
    while i < s.len()
        invariant
            i <= s.len(),
            forall|j: int| 0 <= j < i ==> !numeral::is_ascii_digit(#[trigger] s@[j]),
        decreases s.len() - i,
    {
        if numeral::is_digit_char(s[i]) {
            return true;
        }
        i += 1;
    }
    false
}

fn has_separator_after_point(s: &Vec<char>) -> (b: bool)
    ensures
        b == separator_after_point(s@),
{
    let mut seen_point = false;
    let mut i: usize = 0;
    while i < s.len()
        invariant
            i <= s.len(),
            seen_point == (exists|k: int| 0 <= k < i && s@[k] == '.'),
            !(exists|a: int, b: int|
                0 <= a < b < i && #[trigger] s@[a] == '.' && text::in_class(
                    text::CharClass::Separator,
                    #[trigger] s@[b],
                )),
        decreases s.len() - i,
    {
        if seen_point && text::is_in_class(text::CharClass::Separator, s[i]) {
            let ghost k = choose|k: int| 0 <= k < i && s@[k] == '.';
            assert(0 <= k < i < s.len() && s@[k] == '.' && text::in_class(
                text::CharClass::Separator,
                s@[i as int],
            ));
            return true;
        }
        if s[i] == '.' {
            seen_point = true;
        }
        i += 1;
    }
    false
}

fn groups_valid(s: &Vec<char>) -> (b: bool)
    ensures
        b == groups_ok(s@),
{
    let pieces = text::split_chars(s, text::CharClass::Dot);
    proof {
        text::lemma_split_on_nonempty(s@, text::CharClass::Dot);
    }
    let ip = &pieces[0];
    assert(ip@ == int_part(s@));
    let g = text::split_chars(ip, text::CharClass::Separator);
    proof {
        text::lemma_split_on_nonempty(ip@, text::CharClass::Separator);
    }
    let ghost gv = text::split_on(int_part(s@), text::CharClass::Separator);
    assert(text::views(g@) == gv);
    assert(gv.len() == g@.len());
    if text::contains_class(ip, text::CharClass::Separator) && (g[0].len() == 0 || g[0].len()
        > 3) {
        return false;
    }
    let mut i: usize = 1;
    while i < g.len()
        invariant
            1 <= i <= g.len(),
            text::views(g@) == gv,
            gv == text::split_on(int_part(s@), text::CharClass::Separator),
            gv.len() == g@.len(),
            forall|j: int| 1 <= j < i ==> (#[trigger] gv[j]).len() == 3,
        decreases g.len() - i,
    {
        assert(gv[i as int] == g@[i as int]@);
        if g[i].len() != 3 {
            assert(gv[i as int].len() != 3);
            assert(!later_groups_ok(gv));
            return false;
        }
        i += 1;
    }
    true
}

/// The amount token in `word`: its numeral (separators removed) and the code of its currency
/// symbol, if any.
fn amount_token(word: &Vec<char>) -> (r: Option<(Vec<char>, Option<Vec<char>>)>)
    ensures
        match r {
            None => amount_in(word@) is None,
            Some((t, c)) => amount_in(word@) == Some((t@, opt_view(c))),
        },
{
    let w = text::copy_chars(word);
    let st1 = strip_symbol_step(w, None, '£', "GBP");
    let (s1, c1) = match st1 {
        None => {
            return None;
        },
        Some(x) => x,
    };
    let st2 = strip_symbol_step(s1, c1, '$', "USD");
    let (s2, c2) = match st2 {
        None => {
            return None;
        },
        Some(x) => x,
    };
    let st3 = strip_symbol_step(s2, c2, '€', "EUR");
    let (s, cur) = match st3 {
        None => {
            return None;
        },
        Some(x) => x,
    };
    assert(after_symbols(word@) == Some((s@, opt_view(cur))));
    if !has_digit_char(&s) || has_separator_after_point(&s) || !groups_valid(&s) {
        return None;
    }
    let t = text::removed_class(&s, text::CharClass::Separator);
    if !numeral::is_finite_numeral(&t) {
        return None;
    }
    Some((t, cur))
}


// ---------------------------------------------------------------------------------------------
// Splitting an entry into amount, currency and name
// ---------------------------------------------------------------------------------------------

/// The words of an entry with `:`, `,` and `;` stripped from their ends; words left empty drop out.
pub open spec fn entry_words(input: Seq<char>) -> Seq<Seq<char>> {
    text::non_empty(
        text::words(input).map_values(
            |w: Seq<char>| text::strip_both(w, text::CharClass::EntryPunct),
        ),
    )
}

/// The index of the last word that is an amount token, or -1.
pub open spec fn last_amount_index(ws: Seq<Seq<char>>) -> int
    decreases ws.len(),
{
    if ws.len() == 0 {
        -1
    } else if amount_in(ws.last()) is Some {
        ws.len() - 1
    } else {
        last_amount_index(ws.drop_last())
    }
}

/// `ws` without the words at indices `a` and `b` (an index outside `ws` removes nothing).
pub open spec fn without(ws: Seq<Seq<char>>, a: int, b: int) -> Seq<Seq<char>>
    decreases ws.len(),
{
    if ws.len() == 0 {
        ws
    } else {
        let r = without(ws.drop_last(), a, b);
        let i = ws.len() - 1;
        if i == a || i == b {
            r
        } else {
            r.push(ws.last())
        }
    }
}

pub open spec fn no_amount_message(input: Seq<char>) -> Seq<char> {
    "Could not find an amount in '"@ + text::trim(input) + "'. Example: 'Chase 1234.50 GBP'"@
}

pub open spec fn unsupported_message(code: Seq<char>) -> Seq<char> {
    "Unsupported currency '"@ + code + "'. Use one of CHF, USD, EUR, GBP, AUD"@
}

pub open spec fn contradicts_message(word: Seq<char>, code: Seq<char>) -> Seq<char> {
    "'"@ + word + "' contradicts '"@ + code + "'"@
}

/// An entry split into the numeral of its amount, its currency and its leftover words, or the
/// error that explains why it cannot be.
///
/// The amount is the last amount token. The currency is that of the token's own symbol, else a
/// code word right after it (which must then be supported and agree with the symbol), else a
/// supported code word right before it, else CHF. The words used for amount and currency are not
/// leftover.
pub open spec fn split_entry(input: Seq<char>) -> Result<
    (Seq<char>, Seq<char>, Seq<Seq<char>>),
    Seq<char>,
> {
    let ws = entry_words(input);
    let ai = last_amount_index(ws);
    if ai < 0 {
        Err(no_amount_message(input))
    } else {
        match amount_in(ws[ai]) {
            None => Err(no_amount_message(input)),
            Some((t, sym)) => if ai + 1 < ws.len() && is_code_word(ws[ai + 1]) {
                let up = text::ascii_upper(ws[ai + 1]);
                if !is_supported_currency(up) {
                    Err(unsupported_message(up))
                } else if sym is Some && sym->0 != up {
                    Err(contradicts_message(ws[ai], up))
                } else {
                    Ok((t, up, without(ws, ai, ai + 1)))
                }
            } else if sym is None && ai >= 1 && is_code_word(ws[ai - 1]) && is_supported_currency(
                text::ascii_upper(ws[ai - 1]),
            ) {
                Ok((t, text::ascii_upper(ws[ai - 1]), without(ws, ai, ai - 1)))
            } else {
                Ok(
                    (
                        t,
                        match sym {
                            Some(c) => c,
                            None => "CHF"@,
                        },
                        without(ws, ai, -1),
                    ),
                )
            },
        }
    }
}

fn entry_words_of(input: &Vec<char>) -> (r: Vec<Vec<char>>)
    ensures
        text::views(r@) == entry_words(input@),
{
    let ws = text::words_of(input);
    let ghost wv = text::words(input@);
    let mut st: Vec<Vec<char>> = Vec::new();
    let mut i: usize = 0;
    while i < ws.len()
        invariant
            i <= ws.len(),
            text::views(ws@) == wv,
            text::views(st@) == wv.take(i as int).map_values(
                |w: Seq<char>| text::strip_both(w, text::CharClass::EntryPunct),
            ),
        decreases ws.len() - i,
    {
        let ghost before = st@;
        let w = text::stripped(&ws[i], text::CharClass::EntryPunct);
        let ghost wvw = w@;
        st.push(w);
        assert(wv[i as int] == ws@[i as int]@);
        assert(text::views(st@) =~= text::views(before).push(wvw));
        assert(wv.take(i + 1) =~= wv.take(i as int).push(wv[i as int]));
        i += 1;
        assert(text::views(st@) =~= wv.take(i as int).map_values(
            |w: Seq<char>| text::strip_both(w, text::CharClass::EntryPunct),
        ));
    }
    assert(wv.take(ws.len() as int) =~= wv);
    text::keep_non_empty(&st)
}

proof fn lemma_last_amount_index_step(ws: Seq<Seq<char>>, i: int)
    requires
        0 < i <= ws.len(),
        amount_in(ws[i - 1]) is None,
    ensures
        last_amount_index(ws.take(i)) == last_amount_index(ws.take(i - 1)),
{
    assert(ws.take(i).drop_last() =~= ws.take(i - 1));
}

fn without_of(ws: &Vec<Vec<char>>, a: usize, b: Option<usize>) -> (r: Vec<Vec<char>>)
    ensures
        text::views(r@) == without(
            text::views(ws@),
            a as int,
            match b {
                Some(x) => x as int,
                None => -1,
            },
        ),
{
    let ghost bi: int = match b {
        Some(x) => x as int,
        None => -1,
    };
    let ghost wv = text::views(ws@);
    let mut r: Vec<Vec<char>> = Vec::new();
    let mut i: usize = 0;
    assert(wv.take(0) =~= Seq::<Seq<char>>::empty());
    while i < ws.len()
        invariant
            i <= ws.len(),
            wv == text::views(ws@),
            bi == match b {
                Some(x) => x as int,
                None => -1,
            },
            text::views(r@) == without(wv.take(i as int), a as int, bi),
        decreases ws.len() - i,
    {
        assert(wv.take(i + 1).drop_last() =~= wv.take(i as int));
        let skip = i == a || match b {
            Some(x) => i == x,
            None => false,
        };
        if !skip {
            let ghost before = r@;
            let c = text::copy_chars(&ws[i]);
            r.push(c);
            assert(text::views(r@) =~= text::views(before).push(c@));
        }
        i += 1;
    }
    assert(wv.take(ws.len() as int) =~= wv);
    r
}

pub open spec fn split_view(r: Result<(Vec<char>, Vec<char>, Vec<Vec<char>>), Vec<char>>) -> Result<
    (Seq<char>, Seq<char>, Seq<Seq<char>>),
    Seq<char>,
> {
    match r {
        Ok((t, c, l)) => Ok((t@, c@, text::views(l@))),
        Err(e) => Err(e@),
    }
}

fn split_entry_of(input: &Vec<char>) -> (r: Result<(Vec<char>, Vec<char>, Vec<Vec<char>>), Vec<char>>)
    ensures
        split_view(r) == split_entry(input@),
{
    let ws = entry_words_of(input);
    let ghost wv = entry_words(input@);
    let mut i: usize = ws.len();
    assert(wv.take(i as int) =~= wv);
    while i > 0 && amount_token(&ws[i - 1]).is_none()
        invariant
            i <= ws.len(),
            text::views(ws@) == wv,
            last_amount_index(wv) == last_amount_index(wv.take(i as int)),
        decreases i,
    {
        proof {
            lemma_last_amount_index_step(wv, i as int);
        }
        i -= 1;
    }
    if i == 0 {
        assert(wv.take(0) =~= Seq::<Seq<char>>::empty());
        let mut msg = text::chars_of("Could not find an amount in '");
        let t = text::stripped(input, text::CharClass::WhiteSpace);
        text::append_chars(&mut msg, &t);
        text::append_str(&mut msg, "'. Example: 'Chase 1234.50 GBP'");
        return Err(msg);
    }
    let ai = i - 1;
    assert(wv.take(i as int).drop_last() =~= wv.take(ai as int));
    assert(wv.take(i as int).last() == wv[ai as int]);
    assert(last_amount_index(wv) == ai);
    let (t, sym) = match amount_token(&ws[ai]) {
        Some(x) => x,
        None => {
            proof {
                assert(false);
            }
            return Err(Vec::new());
        },
    };
    if ai + 1 < ws.len() && is_code_chars(&ws[ai + 1]) {
        let up = to_ascii_upper(&ws[ai + 1]);
        if !supported_currency(&up) {
            let mut msg = text::chars_of("Unsupported currency '");
            text::append_chars(&mut msg, &up);
            text::append_str(&mut msg, "'. Use one of CHF, USD, EUR, GBP, AUD");
            return Err(msg);
        }
        match &sym {
            Some(c) => {
                if !text::chars_eq(c, &up) {
                    let mut msg = text::chars_of("'");
                    text::append_chars(&mut msg, &ws[ai]);
                    text::append_str(&mut msg, "' contradicts '");
                    text::append_chars(&mut msg, &up);
                    text::append_str(&mut msg, "'");
                    return Err(msg);
                }
            },
            None => {},
        }
        let left = without_of(&ws, ai, Some(ai + 1));
        return Ok((t, up, left));
    }
    if sym.is_none() && ai >= 1 && is_code_chars(&ws[ai - 1]) {
        let up = to_ascii_upper(&ws[ai - 1]);
        if supported_currency(&up) {
            let left = without_of(&ws, ai, Some(ai - 1));
            return Ok((t, up, left));
        }
    }
    let cur = match sym {
        Some(c) => c,
        None => text::chars_of("CHF"),
    };
    let left = without_of(&ws, ai, None);
    Ok((t, cur, left))
}


// ---------------------------------------------------------------------------------------------
// Custom cash items
// ---------------------------------------------------------------------------------------------

/// An amount of money as the numeral it was written in.
#[derive(Debug, Clone)]
pub enum Amount {
    /// A numeral; `f64` parsing of it gives the value.
    Numeral(String),
    /// A value that is infinite or not a number.
    NotFinite,
}

impl Amount {
    /// The numeral, or `None` for a value that is not finite.
    pub open spec fn text(self) -> Option<Seq<char>> {
        match self {
            Amount::Numeral(t) => Some(t@),
            Amount::NotFinite => None,
        }
    }

    pub fn copy(&self) -> (r: Amount)
        ensures
            r.text() == self.text(),
    {
        match self {
            Amount::Numeral(t) => Amount::Numeral(t.clone()),
            Amount::NotFinite => Amount::NotFinite,
        }
    }
}

/// Whether an amount is a finite number.
pub open spec fn amount_finite(a: Option<Seq<char>>) -> bool {
    match a {
        Some(t) => numeral::finite_numeral(t),
        None => false,
    }
}

/// A manual cash field: a name, an amount and a currency code.
#[derive(Debug, Clone)]
pub struct CustomCashItem {
    pub name: String,
    pub amount: Amount,
    pub currency: String,
}

pub struct CashItemView {
    pub name: Seq<char>,
    pub amount: Option<Seq<char>>,
    pub currency: Seq<char>,
}

impl View for CustomCashItem {
    type V = CashItemView;

    open spec fn view(&self) -> CashItemView {
        CashItemView { name: self.name@, amount: self.amount.text(), currency: self.currency@ }
    }
}

impl CustomCashItem {
    pub fn copy(&self) -> (r: CustomCashItem)
        ensures
            r@ == self@,
    {
        CustomCashItem {
            name: self.name.clone(),
            amount: self.amount.copy(),
            currency: self.currency.clone(),
        }
    }
}

pub open spec fn automated_message(name: Seq<char>) -> Seq<char> {
    "'"@ + name
        + "' is an automated account and cannot be added or modified as a custom cash field"@
}

/// Why an item is not a valid custom cash field, or `None` when it is: the name must not be blank
/// nor an automated account, the amount must be finite and the currency supported.
pub open spec fn validation_error(v: CashItemView) -> Option<Seq<char>> {
    if text::trim(v.name).len() == 0 {
        Some("Name cannot be empty"@)
    } else if is_reserved(v.name) {
        Some(automated_message(v.name))
    } else if !amount_finite(v.amount) {
        Some("Amount must be a finite number"@)
    } else if !is_supported_currency(v.currency) {
        Some(unsupported_message(v.currency))
    } else {
        None
    }
}

fn string_from(v: &Vec<char>) -> (s: String)
    ensures
        s@ == v@,
{
    text::string_of(v)
}

fn amount_is_finite(a: &Amount) -> (b: bool)
    ensures
        b == amount_finite(a.text()),
{
    match a {
        Amount::Numeral(t) => {
            let v = text::chars_of(t.as_str());
            numeral::is_finite_numeral(&v)
        },
        Amount::NotFinite => false,
    }
}

/// Checks that `item` can be a custom cash field; the error says what is wrong with it.
pub fn validate_custom_cash_item(item: &CustomCashItem) -> (r: Result<(), String>)
    ensures
        match r {
            Ok(()) => validation_error(item@) is None,
            Err(e) => validation_error(item@) == Some(e@),
        },
{
    let name = text::chars_of(item.name.as_str());
    let trimmed = text::stripped(&name, text::CharClass::WhiteSpace);
    if trimmed.len() == 0 {
        return Err(string_from(&text::chars_of("Name cannot be empty")));
    }
    if is_reserved_chars(&name) {
        let mut msg = text::chars_of("'");
        text::append_chars(&mut msg, &name);
        text::append_str(
            &mut msg,
            "' is an automated account and cannot be added or modified as a custom cash field",
        );
        return Err(string_from(&msg));
    }
    if !amount_is_finite(&item.amount) {
        return Err(string_from(&text::chars_of("Amount must be a finite number")));
    }
    let cur = text::chars_of(item.currency.as_str());
    if !supported_currency(&cur) {
        let mut msg = text::chars_of("Unsupported currency '");
        text::append_chars(&mut msg, &cur);
        text::append_str(&mut msg, "'. Use one of CHF, USD, EUR, GBP, AUD");
        return Err(string_from(&msg));
    }
    Ok(())
}

/// An entry such as `Chase 1234.50 GBP` read as a custom cash item: the leftover words, joined by
/// spaces, are its name; a name is required and the item must be valid.
pub open spec fn parse_entry(input: Seq<char>) -> Result<CashItemView, Seq<char>> {
    if text::trim(input).len() == 0 {
        Err("Please enter a name, amount, and currency (e.g. 'Chase 1234.50 GBP')"@)
    } else {
        match split_entry(input) {
            Err(e) => Err(e),
            Ok((t, cur, left)) => if left.len() == 0 {
                Err("Please include a name (e.g. 'Chase 1234.50 GBP')"@)
            } else {
                let v = CashItemView { name: text::join(left, " "@), amount: Some(t), currency: cur };
                match validation_error(v) {
                    Some(e) => Err(e),
                    None => Ok(v),
                }
            },
        }
    }
}

/// Reads an entry such as `Chase 1234.50 GBP` as a validated custom cash item; words that are
/// neither amount nor currency form the name.
pub fn parse_custom_cash_entry(input: &str) -> (r: Result<CustomCashItem, String>)
    ensures
        match r {
            Ok(item) => parse_entry(input@) == Ok::<CashItemView, Seq<char>>(item@),
            Err(e) => parse_entry(input@) == Err::<CashItemView, Seq<char>>(e@),
        },
        r is Ok ==> validation_error(r->Ok_0@) is None,
{
    let v = text::chars_of(input);
    let trimmed = text::stripped(&v, text::CharClass::WhiteSpace);
    if trimmed.len() == 0 {
        return Err(
            string_from(
                &text::chars_of(
                    "Please enter a name, amount, and currency (e.g. 'Chase 1234.50 GBP')",
                ),
            ),
        );
    }
    let (t, cur, left) = match split_entry_of(&v) {
        Ok(x) => x,
        Err(e) => {
            return Err(string_from(&e));
        },
    };
    if left.len() == 0 {
        return Err(string_from(&text::chars_of("Please include a name (e.g. 'Chase 1234.50 GBP')")));
    }
    let sp = text::chars_of(" ");
    let name = text::join_chars(&left, &sp);
    let item = CustomCashItem {
        name: string_from(&name),
        amount: Amount::Numeral(string_from(&t)),
        currency: string_from(&cur),
    };
    match validate_custom_cash_item(&item) {
        Ok(()) => Ok(item),
        Err(e) => Err(e),
    }
}

/// An entry such as `1500 GBP` read as an amount and a currency; any other word is an error.
pub open spec fn parse_amount(input: Seq<char>) -> Result<(Seq<char>, Seq<char>), Seq<char>> {
    if text::trim(input).len() == 0 {
        Err("Please enter an amount and currency (e.g. 1500 GBP)"@)
    } else {
        match split_entry(input) {
            Err(e) => Err(e),
            Ok((t, cur, left)) => if left.len() != 0 {
                Err(
                    "Unexpected text '"@ + text::join(left, " "@)
                        + "'; enter amount and currency only"@,
                )
            } else {
                Ok((t, cur))
            },
        }
    }
}

/// Reads `1500 GBP` as the amount 1500 in GBP; words other than amount and currency are an error.
pub fn parse_amount_currency(input: &str) -> (r: Result<(Amount, String), String>)
    ensures
        match r {
            Ok((a, c)) => parse_amount(input@) == Ok::<(Seq<char>, Seq<char>), Seq<char>>(
                (a.text()->0, c@),
            ) && a.text() is Some,
            Err(e) => parse_amount(input@) == Err::<(Seq<char>, Seq<char>), Seq<char>>(e@),
        },
        r is Ok ==> amount_finite(r->Ok_0.0.text()),
{
    let v = text::chars_of(input);
    let trimmed = text::stripped(&v, text::CharClass::WhiteSpace);
    if trimmed.len() == 0 {
        return Err(string_from(&text::chars_of("Please enter an amount and currency (e.g. 1500 GBP)")));
    }
    let (t, cur, left) = match split_entry_of(&v) {
        Ok(x) => x,
        Err(e) => {
            return Err(string_from(&e));
        },
    };
    if left.len() != 0 {
        let sp = text::chars_of(" ");
        let mut msg = text::chars_of("Unexpected text '");
        let joined = text::join_chars(&left, &sp);
        text::append_chars(&mut msg, &joined);
        text::append_str(&mut msg, "'; enter amount and currency only");
        return Err(string_from(&msg));
    }
    Ok((Amount::Numeral(string_from(&t)), string_from(&cur)))
}


// ---------------------------------------------------------------------------------------------
// The custom cash list of a configuration
// ---------------------------------------------------------------------------------------------


/// `str::eq_ignore_ascii_case`.
pub open spec fn eq_ignore_ascii_case(a: Seq<char>, b: Seq<char>) -> bool {
    a.len() == b.len() && forall|i: int|
        0 <= i < a.len() ==> text::ascii_lower_char(#[trigger] a[i]) == text::ascii_lower_char(b[i])
}

pub(crate) fn ascii_lower(c: char) -> (r: char)
    ensures
        r == text::ascii_lower_char(c),
{
    if 'A' <= c && c <= 'Z' {
        ((c as u32) + 32) as u8 as char
    } else {
        c
    }
}

pub(crate) fn same_ignoring_ascii_case(a: &Vec<char>, b: &Vec<char>) -> (r: bool)
    ensures
        r == eq_ignore_ascii_case(a@, b@),
{
    if a.len() != b.len() {
        return false;
    }
    let mut i: usize = 0;
    while i < a.len()
        invariant
            i <= a.len() == b.len(),
            forall|j: int| 0 <= j < i ==> text::ascii_lower_char(#[trigger] a@[j]) == text::ascii_lower_char(b@[j]),
        decreases a.len() - i,
    {
        if ascii_lower(a[i]) != ascii_lower(b[i]) {
            return false;
        }
        i += 1;
    }
    true
}

/// An item with its currency upper-cased, as the configuration's entries are read.
pub open spec fn normalized(v: CashItemView) -> CashItemView {
    CashItemView { name: v.name, amount: v.amount, currency: text::upper_text(v.currency) }
}

/// The first index in `items` whose name equals `name` ignoring ASCII case, or -1.
pub open spec fn name_position(items: Seq<CashItemView>, name: Seq<char>) -> int
    decreases items.len(),
{
    if items.len() == 0 {
        -1
    } else {
        let p = name_position(items.drop_last(), name);
        if p >= 0 {
            p
        } else if eq_ignore_ascii_case(items.last().name, name) {
            items.len() - 1
        } else {
            -1
        }
    }
}

/// The configured entries that pass validation once their currency is upper-cased; an entry whose
/// name repeats an earlier one (ignoring ASCII case) takes that earlier one's place.
pub open spec fn valid_cash(entries: Seq<CashItemView>) -> Seq<CashItemView>
    decreases entries.len(),
{
    if entries.len() == 0 {
        Seq::<CashItemView>::empty()
    } else {
        let r = valid_cash(entries.drop_last());
        let c = normalized(entries.last());
        if validation_error(c) is Some {
            r
        } else {
            let p = name_position(r, c.name);
            if p >= 0 {
                r.update(p, c)
            } else {
                r.push(c)
            }
        }
    }
}

/// The names of the configured entries that fail validation once their currency is upper-cased.
pub open spec fn rejected_names(entries: Seq<CashItemView>) -> Seq<Seq<char>>
    decreases entries.len(),
{
    if entries.len() == 0 {
        Seq::<Seq<char>>::empty()
    } else {
        let r = rejected_names(entries.drop_last());
        if validation_error(normalized(entries.last())) is Some {
            r.push(entries.last().name)
        } else {
            r
        }
    }
}

pub open spec fn item_views(items: Seq<CustomCashItem>) -> Seq<CashItemView> {
    items.map_values(|c: CustomCashItem| c@)
}

fn normalized_item(c: &CustomCashItem) -> (r: CustomCashItem)
    ensures
        r@ == normalized(c@),
{
    let cur = text::chars_of(c.currency.as_str());
    let up = text::to_uppercase(&cur);
    CustomCashItem { name: c.name.clone(), amount: c.amount.copy(), currency: string_from(&up) }
}

fn position_of_name(items: &Vec<CustomCashItem>, name: &String) -> (r: Option<usize>)
    ensures
        match r {
            Some(p) => name_position(item_views(items@), name@) == p as int && p < items.len(),
            None => name_position(item_views(items@), name@) == -1,
        },
{
    let n = text::chars_of(name.as_str());
    let ghost iv = item_views(items@);
    let mut i: usize = 0;
    assert(iv.take(0) =~= Seq::<CashItemView>::empty());
    while i < items.len()
        invariant
            i <= items.len(),
            iv == item_views(items@),
            n@ == name@,
            name_position(iv.take(i as int), name@) == -1,
        decreases items.len() - i,
    {
        assert(iv.take(i + 1).drop_last() =~= iv.take(i as int));
        let m = text::chars_of(items[i].name.as_str());
        if same_ignoring_ascii_case(&m, &n) {
            proof {
                lemma_name_position_prefix(iv, name@, i as int + 1);
            }
            return Some(i);
        }
        i += 1;
    }
    assert(iv.take(items.len() as int) =~= iv);
    None
}

/// A match within a prefix is the match of the whole sequence.
proof fn lemma_name_position_prefix(items: Seq<CashItemView>, name: Seq<char>, k: int)
    requires
        0 <= k <= items.len(),
        name_position(items.take(k), name) >= 0,
    ensures
        name_position(items, name) == name_position(items.take(k), name),
    decreases items.len() - k,
{
    if k < items.len() {
        assert(items.take(k + 1).drop_last() =~= items.take(k));
        lemma_name_position_prefix(items, name, k + 1);
    } else {
        assert(items.take(k) =~= items);
    }
}

/// The entries of a configuration's custom cash list that are valid custom cash fields, their
/// currencies upper-cased; a repeated name keeps its last entry, in the place of its first.
pub fn custom_cash(entries: &Vec<CustomCashItem>) -> (r: Vec<CustomCashItem>)
    ensures
        item_views(r@) == valid_cash(item_views(entries@)),
{
    let ghost ev = item_views(entries@);
    let mut r: Vec<CustomCashItem> = Vec::new();
    let mut i: usize = 0;
    assert(ev.take(0) =~= Seq::<CashItemView>::empty());
    while i < entries.len()
        invariant
            i <= entries.len(),
            ev == item_views(entries@),
            item_views(r@) == valid_cash(ev.take(i as int)),
        decreases entries.len() - i,
    {
        assert(ev.take(i + 1).drop_last() =~= ev.take(i as int));
        assert(ev.take(i + 1).last() == entries@[i as int]@);
        let c = normalized_item(&entries[i]);
        match validate_custom_cash_item(&c) {
            Err(_) => {},
            Ok(()) => {
                let ghost before = r@;
                match position_of_name(&r, &c.name) {
                    Some(p) => {
                        let ghost cv = c@;
                        r.set(p, c);
                        assert(item_views(r@) =~= item_views(before).update(p as int, cv));
                    },
                    None => {
                        let ghost cv = c@;
                        r.push(c);
                        assert(item_views(r@) =~= item_views(before).push(cv));
                    },
                }
            },
        }
        i += 1;
    }
    assert(ev.take(entries.len() as int) =~= ev);
    r
}

/// The names of the entries that `custom_cash` leaves out as invalid.
pub fn rejected_cash_names(entries: &Vec<CustomCashItem>) -> (r: Vec<String>)
    ensures
        r@.map_values(|s: String| s@) == rejected_names(item_views(entries@)),
{
    let ghost ev = item_views(entries@);
    let mut r: Vec<String> = Vec::new();
    let mut i: usize = 0;
    assert(ev.take(0) =~= Seq::<CashItemView>::empty());
    while i < entries.len()
        invariant
            i <= entries.len(),
            ev == item_views(entries@),
            r@.map_values(|s: String| s@) == rejected_names(ev.take(i as int)),
        decreases entries.len() - i,
    {
        assert(ev.take(i + 1).drop_last() =~= ev.take(i as int));
        assert(ev.take(i + 1).last() == entries@[i as int]@);
        let c = normalized_item(&entries[i]);
        if validate_custom_cash_item(&c).is_err() {
            let ghost before = r@;
            let nm = entries[i].name.clone();
            r.push(nm);
            assert(r@.map_values(|s: String| s@) =~= before.map_values(|s: String| s@).push(
                entries@[i as int].name@,
            ));
        }
        i += 1;
    }
    assert(ev.take(entries.len() as int) =~= ev);
    r
}

/// The entries of `existing` that are not valid custom cash fields as written.
pub open spec fn invalid_entries(existing: Seq<CashItemView>) -> Seq<CashItemView>
    decreases existing.len(),
{
    if existing.len() == 0 {
        Seq::empty()
    } else if validation_error(existing.last()) is Some {
        invalid_entries(existing.drop_last()).push(existing.last())
    } else {
        invalid_entries(existing.drop_last())
    }
}

/// The custom cash list to write back to the configuration: the app's fields, then the entries
/// already in the file that the app rejects, so that saving deletes nothing typed by hand.
pub fn cash_list_to_save(items: &Vec<CustomCashItem>, existing: &Vec<CustomCashItem>) -> (r: Vec<
    CustomCashItem,
>)
    ensures
        item_views(r@) == item_views(items@) + invalid_entries(item_views(existing@)),
{
    let mut r: Vec<CustomCashItem> = Vec::new();
    let mut i: usize = 0;
    while i < items.len()
        invariant
            i <= items.len(),
            item_views(r@) == item_views(items@).take(i as int),
        decreases items.len() - i,
    {
        let ghost before = r@;
        r.push(items[i].copy());
        assert(item_views(r@) =~= item_views(items@).take(i + 1)) by {
            assert(item_views(before).push(items@[i as int]@) =~= item_views(items@).take(i + 1));
        }
        i += 1;
    }
    assert(item_views(items@).take(items.len() as int) =~= item_views(items@));
    let ghost ev = item_views(existing@);
    let ghost head = item_views(r@);
    let mut j: usize = 0;
    assert(ev.take(0) =~= Seq::<CashItemView>::empty());
    assert(head + invalid_entries(ev.take(0)) =~= head);
    while j < existing.len()
        invariant
            j <= existing.len(),
            ev == item_views(existing@),
            item_views(r@) == head + invalid_entries(ev.take(j as int)),
        decreases existing.len() - j,
    {
        assert(ev.take(j + 1).drop_last() =~= ev.take(j as int));
        assert(ev.take(j + 1).last() == existing@[j as int]@);
        if validate_custom_cash_item(&existing[j]).is_err() {
            let ghost before = r@;
            r.push(existing[j].copy());
            assert(item_views(r@) =~= item_views(before).push(existing@[j as int]@));
        }
        j += 1;
    }
    assert(ev.take(existing.len() as int) =~= ev);
    r
}

// ---------------------------------------------------------------------------------------------
// Laws
// ---------------------------------------------------------------------------------------------

proof fn lemma_name_position_found(items: Seq<CashItemView>, name: Seq<char>)
    ensures
        -1 <= name_position(items, name) < items.len(),
        name_position(items, name) >= 0 ==> eq_ignore_ascii_case(
            items[name_position(items, name)].name,
            name,
        ),
        name_position(items, name) == -1 ==> forall|i: int|
            0 <= i < items.len() ==> !eq_ignore_ascii_case(#[trigger] items[i].name, name),
    decreases items.len(),
{
    if items.len() > 0 {
        lemma_name_position_found(items.drop_last(), name);
        assert forall|i: int| 0 <= i < items.len() - 1 implies items[i] == items.drop_last()[i] by {}
    }
}

proof fn lemma_eq_ignore_ascii_case_equiv(a: Seq<char>, b: Seq<char>, c: Seq<char>)
    ensures
        eq_ignore_ascii_case(a, b) ==> eq_ignore_ascii_case(b, a),
        eq_ignore_ascii_case(a, b) && eq_ignore_ascii_case(b, c) ==> eq_ignore_ascii_case(a, c),
{
    if eq_ignore_ascii_case(a, b) && eq_ignore_ascii_case(b, c) {
        assert forall|i: int| 0 <= i < a.len() implies text::ascii_lower_char(#[trigger] a[i])
            == text::ascii_lower_char(c[i]) by {
            assert(text::ascii_lower_char(b[i]) == text::ascii_lower_char(c[i]));
        }
    }
}

/// Every item of the custom cash list is a valid custom cash field, and no two of its names are
/// equal ignoring ASCII case.
pub proof fn law_custom_cash_valid_and_unique(entries: Seq<CashItemView>)
    ensures
        forall|i: int|
            0 <= i < valid_cash(entries).len() ==> validation_error(
                #[trigger] valid_cash(entries)[i],
            ) is None,
        forall|i: int, j: int|
            0 <= i < j < valid_cash(entries).len() ==> !eq_ignore_ascii_case(
                #[trigger] valid_cash(entries)[i].name,
                #[trigger] valid_cash(entries)[j].name,
            ),
    decreases entries.len(),
{
    if entries.len() > 0 {
        let prev = entries.drop_last();
        law_custom_cash_valid_and_unique(prev);
        let r = valid_cash(prev);
        let c = normalized(entries.last());
        if validation_error(c) is None {
            lemma_name_position_found(r, c.name);
            let p = name_position(r, c.name);
            let out = valid_cash(entries);
            if p >= 0 {
                assert forall|i: int, j: int|
                    0 <= i < j < out.len() implies !eq_ignore_ascii_case(
                    #[trigger] out[i].name,
                    #[trigger] out[j].name,
                ) by {
                    if i == p {
                        if eq_ignore_ascii_case(out[i].name, out[j].name) {
                            lemma_eq_ignore_ascii_case_equiv(r[p].name, c.name, r[j].name);
                            lemma_eq_ignore_ascii_case_equiv(c.name, r[p].name, r[j].name);
                            lemma_eq_ignore_ascii_case_equiv(r[p].name, r[j].name, r[j].name);
                        }
                    } else if j == p {
                        if eq_ignore_ascii_case(out[i].name, out[j].name) {
                            lemma_eq_ignore_ascii_case_equiv(r[i].name, c.name, r[p].name);
                            lemma_eq_ignore_ascii_case_equiv(c.name, r[p].name, r[p].name);
                        }
                    }
                }
            } else {
                assert forall|i: int, j: int|
                    0 <= i < j < out.len() implies !eq_ignore_ascii_case(
                    #[trigger] out[i].name,
                    #[trigger] out[j].name,
                ) by {
                    if j == r.len() {
                        assert(!eq_ignore_ascii_case(r[i].name, c.name));
                    }
                }
            }
        }
    }
}

/// An entry that parses is a valid custom cash field, and its amount is a finite number.
pub proof fn law_parsed_entry_is_valid(input: Seq<char>)
    ensures
        parse_entry(input) is Ok ==> validation_error(parse_entry(input)->Ok_0) is None
            && amount_finite(parse_entry(input)->Ok_0.amount),
{
}

} // verus!
