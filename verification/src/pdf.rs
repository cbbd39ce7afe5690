//! The pieces of the portfolio statement that are decided without prices: escaping user text for
//! LaTeX and the timeframe over which the statement's data was gathered.
use vstd::prelude::*;
use crate::text;
use crate::models;

verus! {

pub open spec fn is_control(c: char) -> bool {
    (c as int) <= 0x1f || (0x7f <= (c as int) <= 0x9f)
}

/// The characters that pdflatex typesets with the statement's preamble (inputenc utf8, fontenc
/// T1, lmodern): printable ASCII, Latin-1 but the soft hyphen, Latin Extended-A but the code
/// points T1 has no glyph for, dashes, curly quotes, the ellipsis, the euro and trade mark signs.
pub open spec fn typesettable(c: char) -> bool {
    let u = c as int;
    ||| 0x20 <= u <= 0x7e
    ||| 0xa1 <= u <= 0xff && u != 0xad
    ||| 0x100 <= u <= 0x17e && !(u == 0x126 || u == 0x127 || u == 0x138 || u == 0x13f || u == 0x140
        || u == 0x149 || u == 0x166 || u == 0x167)
    ||| u == 0x2013 || u == 0x2014 || u == 0x2018 || u == 0x2019 || u == 0x201c || u == 0x201d
    ||| u == 0x2026 || u == 0x20ac || u == 0x2122
}

/// Whether pdflatex can typeset `c` with the statement's preamble.
pub fn latex_typesettable(c: char) -> (b: bool)
    ensures
        b == typesettable(c),
{
    let u = c as u32;
    (0x20 <= u && u <= 0x7e) || (0xa1 <= u && u <= 0xff && u != 0xad) || (0x100 <= u && u <= 0x17e
        && !(u == 0x126 || u == 0x127 || u == 0x138 || u == 0x13f || u == 0x140 || u == 0x149 || u
        == 0x166 || u == 0x167)) || u == 0x2013 || u == 0x2014 || u == 0x2018 || u == 0x2019 || u
        == 0x201c || u == 0x201d || u == 0x2026 || u == 0x20ac || u == 0x2122
}

/// The LaTeX for one character: special characters escaped, control characters as a space, and
/// anything pdflatex cannot typeset as `?`.
pub open spec fn escape_char(c: char) -> Seq<char> {
    if c == '&' {
        "\\&"@
    } else if c == '%' {
        "\\%"@
    } else if c == '$' {
        "\\$"@
    } else if c == '#' {
        "\\#"@
    } else if c == '_' {
        "\\_"@
    } else if c == '{' {
        "\\{"@
    } else if c == '}' {
        "\\}"@
    } else if c == '~' {
        "\\textasciitilde{}"@
    } else if c == '^' {
        "\\textasciicircum{}"@
    } else if c == '\\' {
        "\\textbackslash{}"@
    } else if is_control(c) {
        seq![' ']
    } else if typesettable(c) {
        seq![c]
    } else {
        seq!['?']
    }
}

/// `s` as LaTeX text: each character escaped in turn.
pub open spec fn escaped(s: Seq<char>) -> Seq<char>
    decreases s.len(),
{
    if s.len() == 0 {
        Seq::<char>::empty()
    } else {
        escaped(s.drop_last()) + escape_char(s.last())
    }
}

fn push_escaped(r: &mut Vec<char>, c: char)
    ensures
        final(r)@ == old(r)@ + escape_char(c),
{
    if c == '&' {
        text::append_str(r, "\\&");
    } else if c == '%' {
        text::append_str(r, "\\%");
    } else if c == '$' {
        text::append_str(r, "\\$");
    } else if c == '#' {
        text::append_str(r, "\\#");
    } else if c == '_' {
        text::append_str(r, "\\_");
    } else if c == '{' {
        text::append_str(r, "\\{");
    } else if c == '}' {
        text::append_str(r, "\\}");
    } else if c == '~' {
        text::append_str(r, "\\textasciitilde{}");
    } else if c == '^' {
        text::append_str(r, "\\textasciicircum{}");
    } else if c == '\\' {
        text::append_str(r, "\\textbackslash{}");
    } else if (c as u32) <= 0x1f || (0x7f <= (c as u32) && (c as u32) <= 0x9f) {
        r.push(' ');
        assert(final(r)@ =~= old(r)@ + seq![' ']);
    } else if latex_typesettable(c) {
        r.push(c);
        assert(final(r)@ =~= old(r)@ + seq![c]);
    } else {
        r.push('?');
        assert(final(r)@ =~= old(r)@ + seq!['?']);
    }
}

fn escape_chars(v: &Vec<char>) -> (r: Vec<char>)
    ensures
        r@ == escaped(v@),
{
    let mut r: Vec<char> = Vec::new();
    let mut i: usize = 0;
    assert(v@.take(0) =~= Seq::<char>::empty());
    while i < v.len()
        invariant
            i <= v.len(),
            r@ == escaped(v@.take(i as int)),
        decreases v.len() - i,
    {
        assert(v@.take(i + 1).drop_last() =~= v@.take(i as int));
        push_escaped(&mut r, v[i]);
        i += 1;
    }
    assert(v@.take(v.len() as int) =~= v@);
    r
}

/// `s` made safe to place in the statement's LaTeX source.
pub fn escape_latex(s: &str) -> (r: String)
    ensures
        r@ == escaped(s@),
{
    let v = text::chars_of(s);
    let e = escape_chars(&v);
    text::string_of(&e)
}

/// Escaping is per character: the escape of a concatenation is the concatenation of escapes.
pub proof fn law_escape_concat(a: Seq<char>, b: Seq<char>)
    ensures
        escaped(a + b) == escaped(a) + escaped(b),
    decreases b.len(),
{
    if b.len() == 0 {
        assert(a + b =~= a);
        assert(escaped(a) + escaped(b) =~= escaped(a));
    } else {
        assert((a + b).drop_last() =~= a + b.drop_last());
        law_escape_concat(a, b.drop_last());
        assert(escaped(a + b) =~= escaped(a) + escaped(b));
    }
}

/// The characters that LaTeX treats specially where they stand alone.
pub open spec fn is_tex_special(c: char) -> bool {
    c == '&' || c == '%' || c == '$' || c == '#' || c == '_'
}

/// Escaped text contains none of the characters that LaTeX treats specially on their own: every
/// `&`, `%`, `$`, `#`, `_` is preceded by a backslash.
pub proof fn law_escape_guards_specials(s: Seq<char>)
    ensures
        forall|i: int|
            0 <= i < escaped(s).len() && is_tex_special(#[trigger] escaped(s)[i]) ==> i > 0
                && escaped(s)[i - 1] == '\\',
    decreases s.len(),
{
    reveal_strlit("\\&");
    reveal_strlit("\\%");
    reveal_strlit("\\$");
    reveal_strlit("\\#");
    reveal_strlit("\\_");
    reveal_strlit("\\{");
    reveal_strlit("\\}");
    reveal_strlit("\\textasciitilde{}");
    reveal_strlit("\\textasciicircum{}");
    reveal_strlit("\\textbackslash{}");
    if s.len() > 0 {
        law_escape_guards_specials(s.drop_last());
        let p = escaped(s.drop_last());
        let e = escape_char(s.last());
        assert(escaped(s) == p + e);
        assert forall|i: int|
            0 <= i < escaped(s).len() && is_tex_special(#[trigger] escaped(s)[i]) implies i > 0
                && escaped(s)[i - 1] == '\\' by {
            if i < p.len() {
                assert(escaped(s)[i] == p[i]);
                assert(escaped(s)[i - 1] == p[i - 1]);
            } else {
                assert(escaped(s)[i] == e[i - p.len()]);
            }
        }
    }
}

// ---------------------------------------------------------------------------------------------
// Data collection timeframe
// ---------------------------------------------------------------------------------------------

/// The oldest and the latest gathering among the statement's data sources, and the whole seconds
/// between them. Times are nanoseconds since the Unix epoch.
pub struct TimeframeInfo {
    pub oldest_time: i128,
    pub oldest_source: String,
    pub latest_time: i128,
    pub latest_source: String,
    pub span_secs: u64,
}

/// The data sources with a recorded gathering time: the accounts of the holdings (in order, with
/// repeats), then the gathered tickers.
pub open spec fn timed_sources(
    accs: Seq<Seq<char>>,
    gathered: Map<Seq<char>, i128>,
    symbols: Seq<Seq<char>>,
    times: Seq<Option<i128>>,
) -> Seq<(Seq<char>, i128)> {
    account_sources(accs, gathered) + ticker_sources(symbols, times)
}

pub open spec fn account_sources(accs: Seq<Seq<char>>, gathered: Map<Seq<char>, i128>) -> Seq<
    (Seq<char>, i128),
>
    decreases accs.len(),
{
    if accs.len() == 0 {
        Seq::empty()
    } else {
        let r = account_sources(accs.drop_last(), gathered);
        if gathered.contains_key(accs.last()) {
            r.push((accs.last(), gathered[accs.last()]))
        } else {
            r
        }
    }
}

pub open spec fn ticker_sources(symbols: Seq<Seq<char>>, times: Seq<Option<i128>>) -> Seq<
    (Seq<char>, i128),
>
    decreases symbols.len(),
{
    if symbols.len() == 0 || symbols.len() != times.len() {
        Seq::empty()
    } else {
        let r = ticker_sources(symbols.drop_last(), times.drop_last());
        match times.last() {
            Some(t) => r.push((symbols.last(), t)),
            None => r,
        }
    }
}

/// The index that `Iterator::min_by_key` picks: the first of the minimal times (-1 when empty).
pub open spec fn first_min_index(es: Seq<(Seq<char>, i128)>) -> int
    decreases es.len(),
{
    if es.len() == 0 {
        -1
    } else {
        let p = first_min_index(es.drop_last());
        if p < 0 || es.last().1 < es[p].1 {
            es.len() - 1
        } else {
            p
        }
    }
}

/// The index that `Iterator::max_by_key` picks: the last of the maximal times (-1 when empty).
pub open spec fn last_max_time_index(es: Seq<(Seq<char>, i128)>) -> int
    decreases es.len(),
{
    if es.len() == 0 {
        -1
    } else {
        let p = last_max_time_index(es.drop_last());
        if p < 0 || es.last().1 >= es[p].1 {
            es.len() - 1
        } else {
            p
        }
    }
}

pub struct TimeframeView {
    pub oldest_time: i128,
    pub oldest_source: Seq<char>,
    pub latest_time: i128,
    pub latest_source: Seq<char>,
    pub span_secs: nat,
}

impl View for TimeframeInfo {
    type V = TimeframeView;

    open spec fn view(&self) -> TimeframeView {
        TimeframeView {
            oldest_time: self.oldest_time,
            oldest_source: self.oldest_source@,
            latest_time: self.latest_time,
            latest_source: self.latest_source@,
            span_secs: self.span_secs as nat,
        }
    }
}

/// The timeframe of the sources `es`: the oldest (first on a tie), the latest (last on a tie)
/// and the whole seconds from the one to the other; `None` without sources.
pub open spec fn timeframe(es: Seq<(Seq<char>, i128)>) -> Option<TimeframeView> {
    if es.len() == 0 {
        None
    } else {
        let o = es[first_min_index(es)];
        let l = es[last_max_time_index(es)];
        Some(
            TimeframeView {
                oldest_time: o.1,
                oldest_source: o.0,
                latest_time: l.1,
                latest_source: l.0,
                span_secs: models::elapsed(l.1, o.1),
            },
        )
    }
}

proof fn lemma_extreme_indices(es: Seq<(Seq<char>, i128)>)
    ensures
        es.len() > 0 ==> 0 <= first_min_index(es) < es.len() && 0 <= last_max_time_index(es)
            < es.len(),
        es.len() == 0 ==> first_min_index(es) == -1 && last_max_time_index(es) == -1,
    decreases es.len(),
{
    if es.len() > 0 {
        lemma_extreme_indices(es.drop_last());
    }
}

/// The sources gathered so far, as the statement lists them: `accounts` are the accounts of the
/// holdings in order; `symbols[i]` is a ticker last gathered at `ticker_times[i]`.
fn collect_sources(
    accounts: &Vec<String>,
    gathered: &models::AccountMap<i128>,
    symbols: &Vec<String>,
    ticker_times: &Vec<Option<i128>>,
) -> (r: Vec<(String, i128)>)
    requires
        symbols.len() == ticker_times.len(),
    ensures
        source_views(r@) == timed_sources(
            models::string_views(accounts@),
            gathered.view(),
            models::string_views(symbols@),
            ticker_times@,
        ),
{
    let ghost av = models::string_views(accounts@);
    let ghost sv = models::string_views(symbols@);
    let mut r: Vec<(String, i128)> = Vec::new();
    let mut i: usize = 0;
    assert(av.take(0) =~= Seq::<Seq<char>>::empty());
    while i < accounts.len()
        invariant
            i <= accounts.len(),
            av == models::string_views(accounts@),
            source_views(r@) == account_sources(av.take(i as int), gathered.view()),
        decreases accounts.len() - i,
    {
        assert(av.take(i + 1).drop_last() =~= av.take(i as int));
        assert(av.take(i + 1).last() == accounts@[i as int]@);
        match gathered.get(accounts[i].as_str()) {
            Some(t) => {
                let ghost before = r@;
                r.push((accounts[i].clone(), t));
                assert(source_views(r@) =~= source_views(before).push((accounts@[i as int]@, t)));
            },
            None => {},
        }
        i += 1;
    }
    assert(av.take(accounts.len() as int) =~= av);
    let ghost acc_part = source_views(r@);
    let mut j: usize = 0;
    assert(sv.take(0) =~= Seq::<Seq<char>>::empty());
    assert(acc_part + ticker_sources(sv.take(0), ticker_times@.take(0)) =~= acc_part);
    while j < symbols.len()
        invariant
            j <= symbols.len() == ticker_times.len(),
            sv == models::string_views(symbols@),
            source_views(r@) == acc_part + ticker_sources(sv.take(j as int), ticker_times@.take(j as int)),
        decreases symbols.len() - j,
    {
        assert(sv.take(j + 1).drop_last() =~= sv.take(j as int));
        assert(ticker_times@.take(j + 1).drop_last() =~= ticker_times@.take(j as int));
        assert(sv.take(j + 1).last() == symbols@[j as int]@);
        match ticker_times[j] {
            Some(t) => {
                let ghost before = r@;
                r.push((symbols[j].clone(), t));
                assert(source_views(r@) =~= source_views(before).push((symbols@[j as int]@, t)));
            },
            None => {},
        }
        j += 1;
    }
    assert(sv.take(symbols.len() as int) =~= sv);
    assert(ticker_times@.take(symbols.len() as int) =~= ticker_times@);
    r
}

pub open spec fn source_views(es: Seq<(String, i128)>) -> Seq<(Seq<char>, i128)> {
    es.map_values(|e: (String, i128)| (e.0@, e.1))
}

pub open spec fn opt_timeframe_view(t: Option<TimeframeInfo>) -> Option<TimeframeView> {
    match t {
        Some(t) => Some(t@),
        None => None,
    }
}

pub open spec fn sources_timed(es: Seq<(Seq<char>, i128)>) -> bool {
    forall|i: int| 0 <= i < es.len() ==> models::is_time(#[trigger] es[i].1)
}

/// The timeframe over which the statement's data was gathered: from the oldest account or ticker
/// update to the latest; `None` when nothing has been gathered.
pub fn get_data_collection_timeframe(
    accounts: &Vec<String>,
    gathered: &models::AccountMap<i128>,
    symbols: &Vec<String>,
    ticker_times: &Vec<Option<i128>>,
) -> (r: Option<TimeframeInfo>)
    requires
        symbols.len() == ticker_times.len(),
        models::times_valid(gathered.view()),
        models::option_times_valid(ticker_times@),
    ensures
        opt_timeframe_view(r) == timeframe(
            timed_sources(
                models::string_views(accounts@),
                gathered.view(),
                models::string_views(symbols@),
                ticker_times@,
            ),
        ),
{
    let es = collect_sources(accounts, gathered, symbols, ticker_times);
    let ghost ev = source_views(es@);
    proof {
        lemma_sources_timed(
            models::string_views(accounts@),
            gathered.view(),
            models::string_views(symbols@),
            ticker_times@,
        );
    }
    if es.len() == 0 {
        return None;
    }
    let mut lo: usize = 0;
    let mut hi: usize = 0;
    let mut i: usize = 1;
    assert(ev.take(1).drop_last() =~= Seq::<(Seq<char>, i128)>::empty());
    assert(first_min_index(ev.take(1).drop_last()) == -1);
    assert(last_max_time_index(ev.take(1).drop_last()) == -1);
    while i < es.len()
        invariant
            1 <= i <= es.len(),
            ev == source_views(es@),
            lo < i,
            hi < i,
            first_min_index(ev.take(i as int)) == lo,
            last_max_time_index(ev.take(i as int)) == hi,
        decreases es.len() - i,
    {
        assert(ev.take(i + 1).drop_last() =~= ev.take(i as int));
        assert(ev.take(i as int)[lo as int] == ev[lo as int]);
        assert(ev.take(i as int)[hi as int] == ev[hi as int]);
        if es[i].1 < es[lo].1 {
            lo = i;
        }
        if es[i].1 >= es[hi].1 {
            hi = i;
        }
        i += 1;
    }
    assert(ev.take(es.len() as int) =~= ev);
    assert(models::is_time(ev[lo as int].1));
    assert(models::is_time(ev[hi as int].1));
    let span = models::elapsed_secs(es[hi].1, es[lo].1);
    Some(
        TimeframeInfo {
            oldest_time: es[lo].1,
            oldest_source: es[lo].0.clone(),
            latest_time: es[hi].1,
            latest_source: es[hi].0.clone(),
            span_secs: span,
        },
    )
}

proof fn lemma_sources_timed(
    accs: Seq<Seq<char>>,
    gathered: Map<Seq<char>, i128>,
    symbols: Seq<Seq<char>>,
    times: Seq<Option<i128>>,
)
    requires
        models::times_valid(gathered),
        models::option_times_valid(times),
    ensures
        sources_timed(timed_sources(accs, gathered, symbols, times)),
{
    lemma_account_sources_timed(accs, gathered);
    lemma_ticker_sources_timed(symbols, times);
    let a = account_sources(accs, gathered);
    let t = ticker_sources(symbols, times);
    assert forall|i: int| 0 <= i < (a + t).len() implies models::is_time(#[trigger] (a + t)[i].1) by {
        if i < a.len() {
            assert((a + t)[i] == a[i]);
        } else {
            assert((a + t)[i] == t[i - a.len()]);
        }
    }
}

proof fn lemma_account_sources_timed(accs: Seq<Seq<char>>, gathered: Map<Seq<char>, i128>)
    requires
        models::times_valid(gathered),
    ensures
        sources_timed(account_sources(accs, gathered)),
    decreases accs.len(),
{
    if accs.len() > 0 {
        lemma_account_sources_timed(accs.drop_last(), gathered);
        let r = account_sources(accs.drop_last(), gathered);
        if gathered.contains_key(accs.last()) {
            assert(models::is_time(gathered[accs.last()]));
            assert forall|i: int| 0 <= i < r.len() + 1 implies models::is_time(
                #[trigger] account_sources(accs, gathered)[i].1,
            ) by {
                if i < r.len() {
                    assert(account_sources(accs, gathered)[i] == r[i]);
                }
            }
        }
    }
}

proof fn lemma_ticker_sources_timed(symbols: Seq<Seq<char>>, times: Seq<Option<i128>>)
    requires
        models::option_times_valid(times),
    ensures
        sources_timed(ticker_sources(symbols, times)),
    decreases symbols.len(),
{
    if symbols.len() > 0 && symbols.len() == times.len() {
        let d = times.drop_last();
        assert(models::option_times_valid(d)) by {
            assert forall|i: int| 0 <= i < d.len() implies (#[trigger] d[i] matches Some(t)
                ==> models::is_time(t)) by {
                assert(d[i] == times[i]);
            }
        }
        lemma_ticker_sources_timed(symbols.drop_last(), d);
        let r = ticker_sources(symbols.drop_last(), d);
        assert(times[times.len() - 1] matches Some(t) ==> models::is_time(t));
        match times.last() {
            Some(t) => {
                assert forall|i: int| 0 <= i < r.len() + 1 implies models::is_time(
                    #[trigger] ticker_sources(symbols, times)[i].1,
                ) by {
                    if i < r.len() {
                        assert(ticker_sources(symbols, times)[i] == r[i]);
                    }
                }
            },
            None => {},
        }
    }
}

/// The oldest source is no later than any source and the latest no earlier, so the timeframe
/// spans every recorded gathering.
pub proof fn law_timeframe_bounds(es: Seq<(Seq<char>, i128)>)
    ensures
        es.len() > 0 ==> forall|i: int|
            0 <= i < es.len() ==> es[first_min_index(es)].1 <= #[trigger] es[i].1 && es[i].1
                <= es[last_max_time_index(es)].1,
    decreases es.len(),
{
    if es.len() > 0 {
        let d = es.drop_last();
        law_timeframe_bounds(d);
        lemma_extreme_indices(d);
        lemma_extreme_indices(es);
        assert forall|i: int| 0 <= i < es.len() implies es[first_min_index(es)].1 <= #[trigger] es[
            i].1 && es[i].1 <= es[last_max_time_index(es)].1 by {
            if i < d.len() {
                assert(es[i] == d[i]);
            }
            if d.len() > 0 {
                assert(es[first_min_index(d)] == d[first_min_index(d)]);
                assert(es[last_max_time_index(d)] == d[last_max_time_index(d)]);
            }
        }
    }
}

} // verus!
