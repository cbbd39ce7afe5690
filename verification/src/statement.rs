//! The LaTeX source of the portfolio statement, assembled from the figures and times the caller
//! has already written out: the fixed document parts, the timeframe box, the summary of the asset
//! classes, one row per holding and one per quote.
use vstd::prelude::*;
use crate::text;
use crate::models;
use crate::pdf;

verus! {

/// The document class, packages, colours and page style, up to `\begin{document}`.
pub const PREAMBLE: &'static str = "\\documentclass[10pt,a4paper]{article}\n\\usepackage[a4paper, margin=1.4cm, top=1.8cm, bottom=2.0cm]{geometry}\n\\usepackage[utf8]{inputenc}\n\\usepackage[T1]{fontenc}\n\\usepackage{lmodern}\n\\usepackage{microtype}\n\\usepackage{booktabs}\n\\usepackage{tabularx}\n\\usepackage{xltabular}\n\\usepackage{xcolor}\n\\usepackage{fancyhdr}\n\\usepackage{lastpage}\n\n\\definecolor{primary}{RGB}{30, 41, 59}\n\\definecolor{accent}{RGB}{14, 116, 144}\n\\definecolor{headerbg}{RGB}{241, 245, 249}\n\\definecolor{crypto}{RGB}{124, 58, 237}\n\\definecolor{stocks}{RGB}{37, 99, 235}\n\\definecolor{cash}{RGB}{13, 148, 136}\n\\definecolor{retirement}{RGB}{22, 163, 74}\n\\definecolor{stale}{RGB}{220, 38, 38}\n\\definecolor{live}{RGB}{22, 101, 52}\n\n\\pagestyle{fancy}\n\\fancyhf{}\n\\rfoot{\\footnotesize\\color{gray} Page \\thepage\\ of \\pageref{LastPage}}\n\\lfoot{\\footnotesize\\color{gray} The Almighty Dashboard --- Confidential Portfolio Statement}\n\\renewcommand{\\headrulewidth}{0pt}\n\\renewcommand{\\footrulewidth}{0.4pt}\n\n\\setlength{\\LTleft}{0pt}\n\\setlength{\\LTright}{0pt}\n\n\\begin{document}\n";

/// The title banner up to the generation time.
pub const TITLE_HEAD: &'static str = "\\noindent\n\\begin{tabular*}{\\textwidth}{@{\\extracolsep{\\fill}} l r @{}}\n{\\LARGE\\bfseries\\color{primary} The Almighty Dashboard} & \\textbf{Generated:} ";

/// The title banner between the generation time and the timeframe box.
pub const TITLE_MID: &'static str = " \\\\\n{\\large\\bfseries\\color{accent} Portfolio Holdings Statement} & \\textbf{Base Currency:} CHF (Swiss Franc) \\\\\n\\end{tabular*}\n\n\\vspace{0.4em}\n";

/// The rule under the title banner.
pub const TITLE_TAIL: &'static str = "\n\n\\vspace{0.6em}\n\\hrule height 1pt\n\\vspace{0.8em}\n";

/// The timeframe box up to the oldest time.
pub const SPAN_FROM: &'static str = "\\noindent\n\\colorbox{headerbg}{%\n\\parbox{\\dimexpr\\textwidth-2\\fboxsep\\relax}{%\n\\small\n\\textbf{Data Collection Timeframe:} From \\textbf{";

/// Between the oldest time and its source.
pub const SPAN_OLDEST: &'static str = "} (Oldest: ";

/// Between the oldest source and the latest time.
pub const SPAN_TO: &'static str = ") to \\textbf{";

/// Between the latest time and its source.
pub const SPAN_LATEST: &'static str = "} (Latest: ";

/// Between the latest source and the timespan.
pub const SPAN_LENGTH: &'static str = ") \\hfill \\textbf{Timespan:} ";

/// The end of the timeframe box.
pub const BOX_END: &'static str = "\n}%\n}";

/// The timeframe box of a live snapshot, up to its time.
pub const LIVE_BOX: &'static str = "\\noindent\n\\colorbox{headerbg}{%\n\\parbox{\\dimexpr\\textwidth-2\\fboxsep\\relax}{%\n\\small\n\\textbf{Data Collection Timeframe:} Live Snapshot (\\textbf{";

/// The end of the live snapshot box.
pub const LIVE_BOX_END: &'static str = "})\n}%\n}";

/// The executive summary up to its first asset class.
pub const SUMMARY_HEAD: &'static str = "\\noindent\\textbf{\\large Executive Summary \\& Asset Allocation}\n\\vspace{0.3em}\n\n\\noindent\n\\begin{tabular*}{\\textwidth}{@{\\extracolsep{\\fill}} l r r r @{}}\n\\toprule\n\\textbf{Asset Class} & \\textbf{Valuation (CHF)} & \\textbf{Valuation (USD)} & \\textbf{Portfolio Weight} \\\\\n\\midrule\n";

/// The total row up to the total in CHF.
pub const TOTAL_HEAD: &'static str = "\\midrule\n\\textbf{Total Net Worth} & \\textbf{";

/// Between the totals in CHF and USD.
pub const TOTAL_MID: &'static str = "} & \\textbf{";

/// The end of the summary table and the FX line up to USD/CHF.
pub const FX_HEAD: &'static str = "} & \\textbf{100.0\\%} \\\\\n\\bottomrule\n\\end{tabular*}\n\n\\vspace{0.5em}\n\\noindent\n\\footnotesize\\textbf{Market FX Rates at Snapshot:} USD/CHF ";

/// Before EUR/CHF.
pub const FX_EUR: &'static str = " \\quad$\\cdot$\\quad EUR/CHF ";

/// Before GBP/CHF.
pub const FX_GBP: &'static str = " \\quad$\\cdot$\\quad GBP/CHF ";

/// Before AUD/CHF.
pub const FX_AUD: &'static str = " \\quad$\\cdot$\\quad AUD/CHF ";

/// The end of the summary.
pub const SUMMARY_TAIL: &'static str = "\n\\normalsize\n\n\\vspace{1.2em}\n";

/// The holdings table up to its first row.
pub const HOLDINGS_HEAD: &'static str = "\\noindent\\textbf{\\large Detailed Holdings Inventory}\n\\vspace{0.3em}\n\n{\\small\n\\begin{xltabular}{\\textwidth}{@{} r l l >{\\raggedright\\arraybackslash}X r r r l @{}}\n\\toprule\n\\textbf{\\#} & \\textbf{Account} & \\textbf{Category} & \\textbf{Asset} & \\textbf{Quantity} & \\textbf{Native Value} & \\textbf{Val (CHF)} & \\textbf{Gathered} \\\\\n\\midrule\n\\endfirsthead\n\\toprule\n\\textbf{\\#} & \\textbf{Account} & \\textbf{Category} & \\textbf{Asset} & \\textbf{Quantity} & \\textbf{Native Value} & \\textbf{Val (CHF)} & \\textbf{Gathered} \\\\\n\\midrule\n\\endhead\n\\midrule\n\\multicolumn{8}{r}{\\footnotesize\\color{gray}\\textit{Continued on next page\\dots}} \\\\\n\\endfoot\n\\bottomrule\n\\endlastfoot\n";

/// The row of an empty holdings table.
pub const NO_HOLDINGS: &'static str = "\\multicolumn{8}{c}{\\textit{No holdings loaded}} \\\\\n";

/// The mark of a stale account.
pub const STALE_MARK: &'static str = "\\textcolor{stale}{\\textbf{Stale}}";

/// The mark of a live account.
pub const LIVE_MARK: &'static str = "\\textcolor{live}{Live}";

/// The end of a table.
pub const TABLE_END: &'static str = "\\end{xltabular}\n}\n";

/// The quotes table up to its first row.
pub const QUOTES_HEAD: &'static str = "\n\\vspace{1.0em}\n\\noindent\\textbf{\\large Reference Market Quotes Snapshot}\n\\vspace{0.3em}\n\n{\\small\n\\begin{xltabular}{\\textwidth}{@{} l l r r >{\\raggedright\\arraybackslash}X @{}}\n\\toprule\n\\textbf{Symbol} & \\textbf{Type} & \\textbf{Price [\\$]} & \\textbf{Latency} & \\textbf{Gathered Timestamp} \\\\\n\\midrule\n\\endfirsthead\n\\toprule\n\\textbf{Symbol} & \\textbf{Type} & \\textbf{Price [\\$]} & \\textbf{Latency} & \\textbf{Gathered Timestamp} \\\\\n\\midrule\n\\endhead\n\\midrule\n\\multicolumn{5}{r}{\\footnotesize\\color{gray}\\textit{Continued on next page\\dots}} \\\\\n\\endfoot\n\\bottomrule\n\\endlastfoot\n";

/// The end of the document.
pub const DOCUMENT_END: &'static str = "\n\\end{document}\n";

// ---------------------------------------------------------------------------------------------
// What the statement is made of
// ---------------------------------------------------------------------------------------------

/// The gathering times of the oldest and latest data sources, already written out, their names,
/// and the seconds between them.
pub struct TimeframeLines {
    pub oldest_time: String,
    pub oldest_source: String,
    pub latest_time: String,
    pub latest_source: String,
    pub span_secs: u64,
}

/// One asset class in the summary: its value in CHF and in USD and its weight in percent.
pub struct ClassFigures {
    pub chf: String,
    pub usd: String,
    pub weight: String,
}

/// The summary's figures, already written out.
pub struct SummaryFigures {
    pub crypto: ClassFigures,
    pub stocks: ClassFigures,
    pub cash: ClassFigures,
    pub retirement: ClassFigures,
    pub total_chf: String,
    pub total_usd: String,
    pub usd_chf: String,
    pub eur_chf: String,
    pub gbp_chf: String,
    pub aud_chf: String,
}

/// One holding: its account and asset, its figures already written out, and what is known of
/// its account's gathering (a manual account; else when it was gathered, if ever, and whether the
/// account is stale).
pub struct HoldingLine {
    pub account: String,
    pub category: models::AccountCategory,
    pub symbol: String,
    pub quantity: String,
    pub native_value: String,
    pub native_currency: String,
    pub value_chf: String,
    pub manual: bool,
    pub gathered: Option<String>,
    pub stale: bool,
}

/// One quote: its symbol, kind, price text, latency and gathering time, if any.
pub struct QuoteLine {
    pub symbol: String,
    pub is_crypto: bool,
    pub price: String,
    pub delay_ms: u64,
    pub gathered: Option<String>,
}

/// Everything the statement shows. `generated` is the time of the statement to the second,
/// `generated_minutes` to the minute.
pub struct StatementInput {
    pub generated: String,
    pub generated_minutes: String,
    pub timeframe: Option<TimeframeLines>,
    pub figures: SummaryFigures,
    pub holdings: Vec<HoldingLine>,
    pub quotes: Vec<QuoteLine>,
}

// ---------------------------------------------------------------------------------------------
// The text
// ---------------------------------------------------------------------------------------------

/// The timeframe box: from the oldest to the latest gathering with their sources (escaped) and
/// the timespan; a live snapshot at the generation time when nothing was gathered.
pub open spec fn banner_text(generated: Seq<char>, tf: Option<TimeframeLines>) -> Seq<char> {
    match tf {
        Some(t) => SPAN_FROM@ + t.oldest_time@ + SPAN_OLDEST@ + pdf::escaped(t.oldest_source@)
            + SPAN_TO@ + t.latest_time@ + SPAN_LATEST@ + pdf::escaped(t.latest_source@)
            + SPAN_LENGTH@ + models::span_text(t.span_secs as nat) + BOX_END@,
        None => LIVE_BOX@ + generated + LIVE_BOX_END@,
    }
}

/// The title banner with the generation time and the timeframe box.
pub open spec fn title_text(generated: Seq<char>, tf: Option<TimeframeLines>) -> Seq<char> {
    TITLE_HEAD@ + generated + TITLE_MID@ + banner_text(generated, tf) + TITLE_TAIL@
}

/// The colour name of an asset class in the statement.
pub open spec fn class_colour(c: models::AccountCategory) -> Seq<char> {
    match c {
        models::AccountCategory::Crypto => "crypto"@,
        models::AccountCategory::Stocks => "stocks"@,
        models::AccountCategory::Cash => "cash"@,
        models::AccountCategory::Retirement => "retirement"@,
    }
}

/// The summary row of an asset class.
pub open spec fn class_row(c: models::AccountCategory, f: ClassFigures) -> Seq<char> {
    "\\textcolor{"@ + class_colour(c) + "}{\\textbf{"@ + c.label() + "}} & "@ + f.chf@ + " & "@
        + f.usd@ + " & "@ + f.weight@ + "\\% \\\\\n"@
}

/// The summary rows of the four asset classes.
pub open spec fn class_rows(f: SummaryFigures) -> Seq<char> {
    class_row(models::AccountCategory::Crypto, f.crypto) + class_row(
        models::AccountCategory::Stocks,
        f.stocks,
    ) + class_row(models::AccountCategory::Cash, f.cash) + class_row(
        models::AccountCategory::Retirement,
        f.retirement,
    )
}

/// The total row and the exchange rates.
pub open spec fn totals_text(f: SummaryFigures) -> Seq<char> {
    TOTAL_HEAD@ + f.total_chf@ + TOTAL_MID@ + f.total_usd@ + FX_HEAD@ + f.usd_chf@ + FX_EUR@
        + f.eur_chf@ + FX_GBP@ + f.gbp_chf@ + FX_AUD@ + f.aud_chf@ + SUMMARY_TAIL@
}

/// The executive summary: a row per asset class, the total, and the exchange rates.
pub open spec fn summary_text(f: SummaryFigures) -> Seq<char> {
    SUMMARY_HEAD@ + class_rows(f) + totals_text(f)
}

/// When a holding's data was gathered: the statement's time for a manual account; else the
/// gathering time marked live or stale; else `Not recorded`.
pub open spec fn gathered_text(h: HoldingLine, minutes: Seq<char>) -> Seq<char> {
    if h.manual {
        minutes + " (Manual)"@
    } else {
        match h.gathered {
            Some(t) => t@ + " ("@ + (if h.stale {
                STALE_MARK@
            } else {
                LIVE_MARK@
            }) + ")"@,
            None => "Not recorded"@,
        }
    }
}

/// The row of holding number `n`: the number, the account, the category in its colour, the
/// asset, the quantity, the native value with its currency, the value in CHF and when it was
/// gathered; the user's texts escaped.
pub open spec fn holding_row(n: nat, h: HoldingLine, minutes: Seq<char>) -> Seq<char> {
    text::decimal(n) + " & "@ + pdf::escaped(h.account@) + " & \\textcolor{"@ + class_colour(
        h.category,
    ) + "}{\\textbf{"@ + pdf::escaped(h.category.label()) + "}} & "@ + pdf::escaped(h.symbol@)
        + " & "@ + h.quantity@ + " & "@ + h.native_value@ + " "@ + pdf::escaped(
        h.native_currency@,
    ) + " & "@ + h.value_chf@ + " & "@ + gathered_text(h, minutes) + " \\\\\n"@
}

proof fn lemma_ends_with_tail(a: Seq<char>, tail: Seq<char>)
    ensures
        text::ends_with(a + tail, tail),
{
    assert((a + tail).subrange(a.len() as int, (a + tail).len() as int) =~= tail);
}

/// A holding's row ends with its sync status: the time and `(Manual)` for a manual holding; for
/// another with a gathering time, that time and the live mark when it is live, the stale mark when
/// it is stale; `Not recorded` when it was never gathered.
pub proof fn law_row_reports_sync_status(n: nat, h: HoldingLine, minutes: Seq<char>)
    ensures
        h.manual ==> text::ends_with(
            holding_row(n, h, minutes),
            minutes + " (Manual)"@ + " \\\\\n"@,
        ),
        !h.manual && h.gathered is Some && !h.stale ==> text::ends_with(
            holding_row(n, h, minutes),
            h.gathered->0@ + " ("@ + "\\textcolor{live}{Live}"@ + ")"@ + " \\\\\n"@,
        ),
        !h.manual && h.gathered is Some && h.stale ==> text::ends_with(
            holding_row(n, h, minutes),
            h.gathered->0@ + " ("@ + "\\textcolor{stale}{\\textbf{Stale}}"@ + ")"@ + " \\\\\n"@,
        ),
        !h.manual && h.gathered is None ==> text::ends_with(
            holding_row(n, h, minutes),
            "Not recorded"@ + " \\\\\n"@,
        ),
{
    let head = text::decimal(n) + " & "@ + pdf::escaped(h.account@) + " & \\textcolor{"@
        + class_colour(h.category) + "}{\\textbf{"@ + pdf::escaped(h.category.label()) + "}} & "@
        + pdf::escaped(h.symbol@) + " & "@ + h.quantity@ + " & "@ + h.native_value@ + " "@
        + pdf::escaped(h.native_currency@) + " & "@ + h.value_chf@ + " & "@;
    let g = gathered_text(h, minutes);
    let e = " \\\\\n"@;
    assert(holding_row(n, h, minutes) =~= head + (g + e));
    lemma_ends_with_tail(head, g + e);
}

/// The rows of the holdings, numbered from 1.
pub open spec fn holding_rows(hs: Seq<HoldingLine>, minutes: Seq<char>) -> Seq<char>
    decreases hs.len(),
{
    if hs.len() == 0 {
        Seq::empty()
    } else {
        holding_rows(hs.drop_last(), minutes) + holding_row(hs.len(), hs.last(), minutes)
    }
}

/// The holdings table; a single row saying so when there are none.
pub open spec fn holdings_text(hs: Seq<HoldingLine>, minutes: Seq<char>) -> Seq<char> {
    HOLDINGS_HEAD@ + (if hs.len() == 0 {
        NO_HOLDINGS@
    } else {
        holding_rows(hs, minutes)
    }) + TABLE_END@
}

/// The row of a quote: its symbol, kind, price, latency (`-` when none) and gathering time
/// (`unloaded` when never gathered).
pub open spec fn quote_row(q: QuoteLine) -> Seq<char> {
    pdf::escaped(q.symbol@) + " & "@ + quote_kind(q.is_crypto) + " & "@ + pdf::escaped(q.price@)
        + " & "@ + latency_text(q.delay_ms) + " & "@ + quote_time(q.gathered) + " \\\\\n"@
}

/// The rows of the quotes, in order.
pub open spec fn quote_rows(qs: Seq<QuoteLine>) -> Seq<char>
    decreases qs.len(),
{
    if qs.len() == 0 {
        Seq::empty()
    } else {
        quote_rows(qs.drop_last()) + quote_row(qs.last())
    }
}

/// The quotes table, left out when there are no quotes.
pub open spec fn quotes_text(qs: Seq<QuoteLine>) -> Seq<char> {
    if qs.len() == 0 {
        Seq::empty()
    } else {
        QUOTES_HEAD@ + quote_rows(qs) + TABLE_END@
    }
}

/// The whole statement.
pub open spec fn statement_text(s: StatementInput) -> Seq<char> {
    PREAMBLE@ + title_text(s.generated@, s.timeframe) + summary_text(s.figures) + holdings_text(
        s.holdings@,
        s.generated_minutes@,
    ) + quotes_text(s.quotes@) + DOCUMENT_END@
}

// ---------------------------------------------------------------------------------------------
// Writing it
// ---------------------------------------------------------------------------------------------

fn put(r: &mut Vec<char>, s: &str)
    ensures
        final(r)@ == old(r)@ + s@,
{
    text::append_str(r, s);
}

fn put_string(r: &mut Vec<char>, s: &String)
    ensures
        final(r)@ == old(r)@ + s@,
{
    text::append_str(r, s.as_str());
}

fn put_escaped(r: &mut Vec<char>, s: &str)
    ensures
        final(r)@ == old(r)@ + pdf::escaped(s@),
{
    let e = pdf::escape_latex(s);
    text::append_str(r, e.as_str());
}

fn put_banner(r: &mut Vec<char>, generated: &String, tf: &Option<TimeframeLines>)
    ensures
        final(r)@ == old(r)@ + banner_text(generated@, *tf),
{
    match tf {
        Some(t) => {
            put(r, SPAN_FROM);
            put_string(r, &t.oldest_time);
            put(r, SPAN_OLDEST);
            put_escaped(r, t.oldest_source.as_str());
            put(r, SPAN_TO);
            put_string(r, &t.latest_time);
            put(r, SPAN_LATEST);
            put_escaped(r, t.latest_source.as_str());
            put(r, SPAN_LENGTH);
            let span = models::format_span(t.span_secs);
            put_string(r, &span);
            put(r, BOX_END);
        },
        None => {
            put(r, LIVE_BOX);
            put_string(r, generated);
            put(r, LIVE_BOX_END);
        },
    }
}

fn colour_of(c: models::AccountCategory) -> (s: &'static str)
    ensures
        s@ == class_colour(c),
{
    match c {
        models::AccountCategory::Crypto => "crypto",
        models::AccountCategory::Stocks => "stocks",
        models::AccountCategory::Cash => "cash",
        models::AccountCategory::Retirement => "retirement",
    }
}

fn put_class_row(r: &mut Vec<char>, c: models::AccountCategory, f: &ClassFigures)
    ensures
        final(r)@ == old(r)@ + class_row(c, *f),
{
    put(r, "\\textcolor{");
    put(r, colour_of(c));
    put(r, "}{\\textbf{");
    let name = c.name();
    put_string(r, &name);
    put(r, "}} & ");
    put_string(r, &f.chf);
    put(r, " & ");
    put_string(r, &f.usd);
    put(r, " & ");
    put_string(r, &f.weight);
    put(r, "\\% \\\\\n");
}

fn put_class_rows(r: &mut Vec<char>, f: &SummaryFigures)
    ensures
        final(r)@ == old(r)@ + class_rows(*f),
{
    put_class_row(r, models::AccountCategory::Crypto, &f.crypto);
    put_class_row(r, models::AccountCategory::Stocks, &f.stocks);
    put_class_row(r, models::AccountCategory::Cash, &f.cash);
    put_class_row(r, models::AccountCategory::Retirement, &f.retirement);
}

fn put_totals(r: &mut Vec<char>, f: &SummaryFigures)
    ensures
        final(r)@ == old(r)@ + totals_text(*f),
{
    put(r, TOTAL_HEAD);
    put_string(r, &f.total_chf);
    put(r, TOTAL_MID);
    put_string(r, &f.total_usd);
    put(r, FX_HEAD);
    put_string(r, &f.usd_chf);
    put(r, FX_EUR);
    put_string(r, &f.eur_chf);
    put(r, FX_GBP);
    put_string(r, &f.gbp_chf);
    put(r, FX_AUD);
    put_string(r, &f.aud_chf);
    put(r, SUMMARY_TAIL);
}

fn put_summary(r: &mut Vec<char>, f: &SummaryFigures)
    ensures
        final(r)@ == old(r)@ + summary_text(*f),
{
    put(r, SUMMARY_HEAD);
    put_class_rows(r, f);
    put_totals(r, f);
}

fn put_gathered(r: &mut Vec<char>, h: &HoldingLine, minutes: &String)
    ensures
        final(r)@ == old(r)@ + gathered_text(*h, minutes@),
{
    if h.manual {
        put_string(r, minutes);
        put(r, " (Manual)");
    } else {
        match &h.gathered {
            Some(t) => {
                put_string(r, t);
                put(r, " (");
                if h.stale {
                    put(r, STALE_MARK);
                } else {
                    put(r, LIVE_MARK);
                }
                put(r, ")");
            },
            None => {
                put(r, "Not recorded");
            },
        }
    }
}

fn put_holding_row(r: &mut Vec<char>, n: u64, h: &HoldingLine, minutes: &String)
    ensures
        final(r)@ == old(r)@ + holding_row(n as nat, *h, minutes@),
{
    let d = text::decimal_of(n);
    text::append_chars(r, &d);
    put(r, " & ");
    put_escaped(r, h.account.as_str());
    put(r, " & \\textcolor{");
    put(r, colour_of(h.category));
    put(r, "}{\\textbf{");
    let name = h.category.name();
    put_escaped(r, name.as_str());
    put(r, "}} & ");
    put_escaped(r, h.symbol.as_str());
    put(r, " & ");
    put_string(r, &h.quantity);
    put(r, " & ");
    put_string(r, &h.native_value);
    put(r, " ");
    put_escaped(r, h.native_currency.as_str());
    put(r, " & ");
    put_string(r, &h.value_chf);
    put(r, " & ");
    put_gathered(r, h, minutes);
    put(r, " \\\\\n");
}

fn put_holdings(r: &mut Vec<char>, hs: &Vec<HoldingLine>, minutes: &String)
    ensures
        final(r)@ == old(r)@ + holdings_text(hs@, minutes@),
{
    put(r, HOLDINGS_HEAD);
    if hs.len() == 0 {
        put(r, NO_HOLDINGS);
    } else {
        let ghost start = r@;
        let mut i: usize = 0;
        assert(hs@.take(0) =~= Seq::<HoldingLine>::empty());
        assert(r@ =~= start + holding_rows(hs@.take(0), minutes@));
        while i < hs.len()
            invariant
                i <= hs.len(),
                r@ == start + holding_rows(hs@.take(i as int), minutes@),
            decreases hs.len() - i,
        {
            assert(hs@.take(i + 1).drop_last() =~= hs@.take(i as int));
            put_holding_row(r, (i + 1) as u64, &hs[i], minutes);
            i += 1;
            assert(r@ =~= start + holding_rows(hs@.take(i as int), minutes@));
        }
        assert(hs@.take(hs.len() as int) =~= hs@);
    }
    put(r, TABLE_END);
}

/// The kind of a quote.
pub open spec fn quote_kind(is_crypto: bool) -> Seq<char> {
    if is_crypto {
        "Crypto"@
    } else {
        "Stock"@
    }
}

/// The latency of a quote, `-` when none was measured.
pub open spec fn latency_text(delay_ms: u64) -> Seq<char> {
    if delay_ms > 0 {
        text::decimal(delay_ms as nat) + " ms"@
    } else {
        "-"@
    }
}

/// When a quote was gathered, `unloaded` when never.
pub open spec fn quote_time(g: Option<String>) -> Seq<char> {
    match g {
        Some(t) => t@,
        None => "unloaded"@,
    }
}

fn put_latency(r: &mut Vec<char>, delay_ms: u64)
    ensures
        final(r)@ == old(r)@ + latency_text(delay_ms),
{
    if delay_ms > 0 {
        let d = text::decimal_of(delay_ms);
        text::append_chars(r, &d);
        put(r, " ms");
    } else {
        put(r, "-");
    }
}

fn put_quote_row(r: &mut Vec<char>, q: &QuoteLine)
    ensures
        final(r)@ == old(r)@ + quote_row(*q),
{
    put_escaped(r, q.symbol.as_str());
    put(r, " & ");
    put(r, if q.is_crypto {
        "Crypto"
    } else {
        "Stock"
    });
    put(r, " & ");
    put_escaped(r, q.price.as_str());
    put(r, " & ");
    put_latency(r, q.delay_ms);
    put(r, " & ");
    match &q.gathered {
        Some(t) => put_string(r, t),
        None => put(r, "unloaded"),
    }
    put(r, " \\\\\n");
}

fn put_quotes(r: &mut Vec<char>, qs: &Vec<QuoteLine>)
    ensures
        final(r)@ == old(r)@ + quotes_text(qs@),
{
    if qs.len() == 0 {
        assert(r@ =~= r@ + Seq::<char>::empty());
        return;
    }
    put(r, QUOTES_HEAD);
    let ghost start = r@;
    let mut i: usize = 0;
    assert(qs@.take(0) =~= Seq::<QuoteLine>::empty());
    assert(r@ =~= start + quote_rows(qs@.take(0)));
    while i < qs.len()
        invariant
            i <= qs.len(),
            r@ == start + quote_rows(qs@.take(i as int)),
        decreases qs.len() - i,
    {
        assert(qs@.take(i + 1).drop_last() =~= qs@.take(i as int));
        put_quote_row(r, &qs[i]);
        i += 1;
        assert(r@ =~= start + quote_rows(qs@.take(i as int)));
    }
    assert(qs@.take(qs.len() as int) =~= qs@);
    put(r, TABLE_END);
}

/// The LaTeX source of the portfolio statement.
pub fn statement_latex(s: &StatementInput) -> (r: String)
    ensures
        r@ == statement_text(*s),
{
    let mut v: Vec<char> = Vec::new();
    put(&mut v, PREAMBLE);
    put(&mut v, TITLE_HEAD);
    put_string(&mut v, &s.generated);
    put(&mut v, TITLE_MID);
    put_banner(&mut v, &s.generated, &s.timeframe);
    put(&mut v, TITLE_TAIL);
    put_summary(&mut v, &s.figures);
    put_holdings(&mut v, &s.holdings, &s.generated_minutes);
    put_quotes(&mut v, &s.quotes);
    put(&mut v, DOCUMENT_END);
    text::string_of(&v)
}

} // verus!
