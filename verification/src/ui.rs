//! What the terminal screen shows, decided without the widgets that draw it: how text wraps, how
//! amounts are written, how accounts, quotes and categories are marked, and where the custom
//! cash dialog goes.
use vstd::prelude::*;
use crate::text;
use crate::models;

verus! {

// ---------------------------------------------------------------------------------------------
// Word wrapping
// ---------------------------------------------------------------------------------------------

/// One word of `len` characters laid out after a row filled to column `st.1`, on row `st.0`.
pub open spec fn wrap_step(st: (int, int), len: int, width: int) -> (int, int) {
    let rows = st.0;
    let col = st.1;
    if len > width {
        (rows + (if col > 0 {
            1int
        } else {
            0int
        }) + (len - 1) / width, len % width)
    } else if col == 0 {
        (rows, len)
    } else if col + 1 + len <= width {
        (rows, col + 1 + len)
    } else {
        (rows + 1, len)
    }
}

/// The rows and the last row's fill after laying out the words `ws` greedily.
pub open spec fn wrap_words(ws: Seq<Seq<char>>, width: int) -> (int, int)
    decreases ws.len(),
{
    if ws.len() == 0 {
        (1, 0)
    } else {
        wrap_step(wrap_words(ws.drop_last(), width), ws.last().len() as int, width)
    }
}

/// The rows `t` takes when wrapped greedily on spaces at `width` columns, a word longer than a
/// row broken across rows; one row at width zero.
pub open spec fn wrapped_rows(t: Seq<char>, width: int) -> int {
    if width == 0 {
        1
    } else {
        wrap_words(text::split_on(t, text::CharClass::Space), width).0
    }
}

/// The characters the words take with one separator after each.
pub open spec fn spent(ws: Seq<Seq<char>>) -> int
    decreases ws.len(),
{
    if ws.len() == 0 {
        0
    } else {
        spent(ws.drop_last()) + ws.last().len() + 1
    }
}

proof fn lemma_spent_split(s: Seq<char>, k: text::CharClass)
    ensures
        spent(text::split_on(s, k)) == s.len() + 1,
    decreases s.len(),
{
    if s.len() == 0 {
        let r = text::split_on(s, k);
        assert(r =~= seq![Seq::<char>::empty()]);
        assert(r.drop_last() =~= Seq::<Seq<char>>::empty());
        assert(spent(r.drop_last()) == 0);
        assert(spent(r) == spent(r.drop_last()) + r.last().len() + 1);
    } else {
        lemma_spent_split(s.drop_last(), k);
        text::lemma_split_on_nonempty(s.drop_last(), k);
        let r = text::split_on(s.drop_last(), k);
        if text::in_class(k, s.last()) {
            let u = r.push(Seq::<char>::empty());
            assert(u.drop_last() =~= r);
            assert(text::split_on(s, k) == u);
            assert(spent(u) == spent(r) + 1);
        } else {
            let u = r.update(r.len() - 1, r.last().push(s.last()));
            assert(u.drop_last() =~= r.drop_last());
            assert(u.last() == r.last().push(s.last()));
            assert(text::split_on(s, k) == u);
            assert(spent(u) == spent(u.drop_last()) + u.last().len() + 1);
            assert(spent(r) == spent(r.drop_last()) + r.last().len() + 1);
        }
    }
}

proof fn lemma_spent_prefix(ws: Seq<Seq<char>>, i: int)
    requires
        0 <= i <= ws.len(),
    ensures
        spent(ws.take(i)) <= spent(ws),
        spent(ws.take(i)) >= 0,
    decreases ws.len() - i,
{
    if i < ws.len() {
        lemma_spent_prefix(ws.drop_last(), i);
        assert(ws.drop_last().take(i) =~= ws.take(i));
    } else {
        assert(ws.take(i) =~= ws);
    }
    lemma_spent_nonneg(ws.take(i));
}

proof fn lemma_spent_nonneg(ws: Seq<Seq<char>>)
    ensures
        spent(ws) >= 0,
    decreases ws.len(),
{
    if ws.len() > 0 {
        lemma_spent_nonneg(ws.drop_last());
    }
}

/// The rows `text` occupies when wrapped on word boundaries at `width` columns, as a paragraph
/// with wrapping lays it out.
pub fn wrapped_row_count(text: &str, width: usize) -> (r: usize)
    requires
        text@.len() <= isize::MAX,
    ensures
        r == wrapped_rows(text@, width as int),
{
    if width == 0 {
        return 1;
    }
    let v = text::chars_of(text);
    let ws = text::split_chars(&v, text::CharClass::Space);
    let ghost wv = text::views(ws@);
    proof {
        lemma_spent_split(v@, text::CharClass::Space);
    }
    let mut rows: usize = 1;
    let mut col: usize = 0;
    let mut i: usize = 0;
    assert(wv.take(0) =~= Seq::<Seq<char>>::empty());
    while i < ws.len()
        invariant
            i <= ws.len(),
            width > 0,
            wv == text::views(ws@),
            wv == text::split_on(v@, text::CharClass::Space),
            spent(wv) == v@.len() + 1,
            v@.len() <= isize::MAX,
            (rows as int, col as int) == wrap_words(wv.take(i as int), width as int),
            rows <= 1 + spent(wv.take(i as int)),
            col <= spent(wv.take(i as int)),
        decreases ws.len() - i,
    {
        assert(wv.take(i + 1).drop_last() =~= wv.take(i as int));
        assert(wv.take(i + 1).last() == ws@[i as int]@);
        proof {
            lemma_spent_prefix(wv, i + 1);
        }
        let len = ws[i].len();
        if len > width {
            assert((len - 1) / (width as int) <= len - 1) by (nonlinear_arith)
                requires
                    width >= 1,
                    len >= 1,
            ;
            assert(len % width <= len) by (nonlinear_arith)
                requires
                    width >= 1,
            ;
            if col > 0 {
                rows += 1;
            }
            rows += (len - 1) / width;
            col = len % width;
        } else if col == 0 {
            col = len;
        } else if col + 1 + len <= width {
            col += 1 + len;
        } else {
            rows += 1;
            col = len;
        }
        i += 1;
    }
    assert(wv.take(ws.len() as int) =~= wv);
    rows
}

// ---------------------------------------------------------------------------------------------
// Amounts in CHF
// ---------------------------------------------------------------------------------------------

/// The first `i` digits of `d` with an apostrophe before each digit that has a positive multiple
/// of three digits after it.
pub open spec fn grouped_upto(d: Seq<char>, i: int) -> Seq<char>
    decreases i,
{
    if i <= 0 {
        Seq::empty()
    } else {
        grouped_upto(d, i - 1) + (if i - 1 > 0 && (d.len() - (i - 1)) % 3 == 0 {
            seq!['\'']
        } else {
            Seq::<char>::empty()
        }) + seq![d[i - 1]]
    }
}

/// The digits `d` in groups of three from the right, separated by apostrophes (`26'564`).
pub open spec fn grouped(d: Seq<char>) -> Seq<char> {
    grouped_upto(d, d.len() as int)
}

fn grouped_chars(d: &Vec<char>) -> (r: Vec<char>)
    ensures
        r@ == grouped(d@),
{
    let mut r: Vec<char> = Vec::new();
    let n = d.len();
    let mut i: usize = 0;
    while i < n
        invariant
            i <= n == d.len(),
            r@ == grouped_upto(d@, i as int),
        decreases n - i,
    {
        if i > 0 && (n - i) % 3 == 0 {
            r.push('\'');
        }
        r.push(d[i]);
        i += 1;
        assert(r@ =~= grouped_upto(d@, i as int));
    }
    r
}

/// The digits of a whole number grouped by thousands with apostrophes (`1234567` gives
/// `1'234'567`).
pub fn group_thousands(digits: &str) -> (r: String)
    ensures
        r@ == grouped(digits@),
{
    let d = text::chars_of(digits);
    let g = grouped_chars(&d);
    text::string_of(&g)
}

/// An amount in CHF as the dashboard writes it: a minus sign when negative, the whole francs
/// grouped by thousands, a point and two digits of centimes.
pub open spec fn chf_text(negative: bool, francs: nat, centimes: nat) -> Seq<char> {
    (if negative {
        "-"@
    } else {
        Seq::<char>::empty()
    }) + grouped(text::decimal(francs)) + "."@ + models::two_digits(centimes % 100)
}

/// The text of an amount in CHF from its sign, its whole francs and its rounded centimes (taken
/// modulo 100, as a rounded fraction of 100 wraps to 00).
pub fn chf_amount_text(negative: bool, francs: u64, centimes: u64) -> (r: String)
    ensures
        r@ == chf_text(negative, francs as nat, centimes as nat),
{
    let mut v: Vec<char> = Vec::new();
    if negative {
        v.push('-');
    }
    let d = text::decimal_of(francs);
    let g = grouped_chars(&d);
    text::append_chars(&mut v, &g);
    v.push('.');
    let c = centimes % 100;
    if c < 10 {
        v.push('0');
    }
    let cd = text::decimal_of(c);
    text::append_chars(&mut v, &cd);
    proof {
        reveal_strlit("-");
        reveal_strlit(".");
        assert(v@ =~= chf_text(negative, francs as nat, centimes as nat));
    }
    text::string_of(&v)
}

// ---------------------------------------------------------------------------------------------
// Marks and colours
// ---------------------------------------------------------------------------------------------

/// The colours the screen uses for its marks.
#[derive(Clone, Copy, PartialEq, Eq, Structural, Debug)]
pub enum Hue {
    Yellow,
    Red,
    LightRed,
    LightCyan,
    Cyan,
    Green,
    Blue,
    Magenta,
    DarkGray,
    White,
}

/// How an account's name is marked in the holdings table.
pub struct AccountMark {
    pub label: String,
    pub hue: Hue,
    pub bold: bool,
}

/// The label of an account: `~` after a manual (custom cash) account, else `*` after one read
/// from a browser session.
pub open spec fn account_label(account: Seq<char>, manual: bool, session: bool) -> Seq<char> {
    if manual {
        account + "~"@
    } else if session {
        account + "*"@
    } else {
        account
    }
}

/// The colour of an account: white when manual, else light red when stale, light cyan when read
/// from a session, yellow for a live API; bold but when manual.
pub open spec fn account_hue(manual: bool, stale: bool, session: bool) -> Hue {
    if manual {
        Hue::White
    } else if stale {
        Hue::LightRed
    } else if session {
        Hue::LightCyan
    } else {
        Hue::Yellow
    }
}

/// The mark of `account` in the holdings table.
pub fn account_mark(account: &str, manual: bool, stale: bool) -> (m: AccountMark)
    ensures
        m.label@ == account_label(account@, manual, models::session_account(account@)),
        m.hue == account_hue(manual, stale, models::session_account(account@)),
        m.bold == !manual,
{
    let session = models::is_session_dependent(account);
    let mut v = text::chars_of(account);
    if manual {
        v.push('~');
        assert(v@ =~= account@ + "~"@) by {
            reveal_strlit("~");
        }
    } else if session {
        v.push('*');
        assert(v@ =~= account@ + "*"@) by {
            reveal_strlit("*");
        }
    }
    let hue = if manual {
        Hue::White
    } else if stale {
        Hue::LightRed
    } else if session {
        Hue::LightCyan
    } else {
        Hue::Yellow
    };
    AccountMark { label: text::string_of(&v), hue, bold: !manual }
}

/// The colour of a quote's price: yellow when delisted, red when failed, dark grey when not yet
/// loaded, else green (and bold).
pub open spec fn price_hue(price: Seq<char>) -> Hue {
    if price == "DELISTED"@ {
        Hue::Yellow
    } else if price == "FAILED"@ {
        Hue::Red
    } else if price == "unloaded"@ {
        Hue::DarkGray
    } else {
        Hue::Green
    }
}

/// The colour of a quote's price text.
pub fn price_mark(price: &str) -> (h: Hue)
    ensures
        h == price_hue(price@),
{
    let p = text::chars_of(price);
    if text::chars_eq_str(&p, "DELISTED") {
        Hue::Yellow
    } else if text::chars_eq_str(&p, "FAILED") {
        Hue::Red
    } else if text::chars_eq_str(&p, "unloaded") {
        Hue::DarkGray
    } else {
        Hue::Green
    }
}

/// The colour of a quote's symbol: magenta for crypto, blue for stocks.
pub fn symbol_hue(is_crypto: bool) -> (h: Hue)
    ensures
        h == (if is_crypto {
            Hue::Magenta
        } else {
            Hue::Blue
        }),
{
    if is_crypto {
        Hue::Magenta
    } else {
        Hue::Blue
    }
}

/// The colour of an asset category: crypto magenta, stocks blue, cash cyan, retirement green.
pub fn category_hue(c: models::AccountCategory) -> (h: Hue)
    ensures
        h == match c {
            models::AccountCategory::Crypto => Hue::Magenta,
            models::AccountCategory::Stocks => Hue::Blue,
            models::AccountCategory::Cash => Hue::Cyan,
            models::AccountCategory::Retirement => Hue::Green,
        },
{
    match c {
        models::AccountCategory::Crypto => Hue::Magenta,
        models::AccountCategory::Stocks => Hue::Blue,
        models::AccountCategory::Cash => Hue::Cyan,
        models::AccountCategory::Retirement => Hue::Green,
    }
}

// ---------------------------------------------------------------------------------------------
// Privacy
// ---------------------------------------------------------------------------------------------

/// What the screen hides: nothing, the money amounts, or the money amounts and the quantities.
#[derive(Clone, Copy, PartialEq, Eq, Structural, Debug)]
pub enum PrivacyMode {
    Normal,
    HideAmounts,
    HideAll,
}

impl PrivacyMode {
    /// Whether values in money are hidden.
    pub fn hides_amounts(&self) -> (b: bool)
        ensures
            b == (*self != PrivacyMode::Normal),
    {
        match self {
            PrivacyMode::Normal => false,
            _ => true,
        }
    }

    /// Whether quantities are hidden.
    pub fn hides_quantities(&self) -> (b: bool)
        ensures
            b == (*self == PrivacyMode::HideAll),
    {
        match self {
            PrivacyMode::HideAll => true,
            _ => false,
        }
    }
}

/// The text that stands for a hidden value.
pub open spec fn hidden_text() -> Seq<char> {
    "******"@
}

/// `shown` unless `hide`, then the hidden-value text.
pub fn masked(shown: String, hide: bool) -> (r: String)
    ensures
        r@ == (if hide {
            hidden_text()
        } else {
            shown@
        }),
{
    if hide {
        "******".to_owned()
    } else {
        shown
    }
}

// ---------------------------------------------------------------------------------------------
// Layout
// ---------------------------------------------------------------------------------------------

/// Whether the terminal is too small for the dashboard (under 32 by 8).
pub fn too_small(width: u16, height: u16) -> (b: bool)
    ensures
        b == (width < 32 || height < 8),
{
    width < 32 || height < 8
}

/// Whether quotes and holdings stand side by side (80 columns or more) rather than stacked.
pub fn side_by_side(body_width: u16) -> (b: bool)
    ensures
        b == (body_width >= 80),
{
    body_width >= 80
}

/// Whether the holdings panel has room for the summary card under the table (13 rows or more).
pub fn has_summary_card(panel_height: u16) -> (b: bool)
    ensures
        b == (panel_height >= 13),
{
    panel_height >= 13
}

/// The characters of the header's title, ` The Almighty Dashboard `.
pub open spec fn title_len() -> nat {
    24
}

/// The part of a notification shown on the header's border: as many leading characters as fit
/// beside the title (the width less the title and six columns); `None` when nothing fits.
pub open spec fn notification_shown(notif: Seq<char>, width: nat) -> Option<Seq<char>> {
    let room: nat = if width >= title_len() + 6 {
        (width - (title_len() + 6)) as nat
    } else {
        0
    };
    let t = notif.take(if room < notif.len() {
        room as int
    } else {
        notif.len() as int
    });
    if t.len() == 0 {
        None
    } else {
        Some(t)
    }
}

/// The notification text to show on a header `width` columns wide.
pub fn notification_text(notif: &str, width: u16) -> (r: Option<String>)
    ensures
        match r {
            Some(t) => notification_shown(notif@, width as nat) == Some(t@),
            None => notification_shown(notif@, width as nat) is None,
        },
{
    let room: usize = if width >= 30 {
        (width - 30) as usize
    } else {
        0
    };
    let v = text::chars_of(notif);
    let n = if room < v.len() {
        room
    } else {
        v.len()
    };
    let t = text::copy_range(&v, 0, n);
    assert(t@ =~= notif@.take(n as int));
    if t.len() == 0 {
        None
    } else {
        Some(text::string_of(&t))
    }
}

/// Where the custom cash dialog goes on a screen of `area_w` by `area_h`: its left, top, width
/// and height.
pub struct ModalRect {
    pub x: u16,
    pub y: u16,
    pub width: u16,
    pub height: u16,
}

/// The dialog's width: 72 columns, or the screen less 4 when narrower.
pub open spec fn modal_width(area_w: nat) -> nat {
    let room: nat = if area_w >= 4 {
        (area_w - 4) as nat
    } else {
        0
    };
    if room < 72 {
        room
    } else {
        72
    }
}

/// The width its text wraps at: the dialog's width less its borders, at least 1.
pub open spec fn modal_inner_width(area_w: nat) -> nat {
    let w = modal_width(area_w);
    if w >= 3 {
        (w - 2) as nat
    } else {
        1
    }
}

/// The dialog's width, for wrapping its text.
pub fn modal_text_width(area_w: u16) -> (w: usize)
    ensures
        w == modal_inner_width(area_w as nat),
{
    let room: u16 = if area_w >= 4 {
        area_w - 4
    } else {
        0
    };
    let mw: u16 = if room < 72 {
        room
    } else {
        72
    };
    if mw >= 3 {
        (mw - 2) as usize
    } else {
        1
    }
}

/// The dialog's place for `rows` wrapped rows of text: its height is the rows (as 16 bits) plus
/// the two borders, at most the screen less 2; it is centred.
pub fn modal_rect(area_w: u16, area_h: u16, rows: usize) -> (r: ModalRect)
    requires
        (rows as u16) < u16::MAX - 1,
    ensures
        r.width == modal_width(area_w as nat),
        r.height == (if (rows as u16) + 2 < (if area_h >= 2 {
            area_h - 2
        } else {
            0
        }) {
            (rows as u16) + 2
        } else if area_h >= 2 {
            area_h - 2
        } else {
            0
        }),
        r.x == (area_w - r.width) / 2,
        r.y == (if area_h >= r.height {
            (area_h - r.height) / 2
        } else {
            0
        }),
{
    let room: u16 = if area_w >= 4 {
        area_w - 4
    } else {
        0
    };
    let w: u16 = if room < 72 {
        room
    } else {
        72
    };
    let wanted: u16 = (rows as u16) + 2;
    let cap: u16 = if area_h >= 2 {
        area_h - 2
    } else {
        0
    };
    let h: u16 = if wanted < cap {
        wanted
    } else {
        cap
    };
    let x = (area_w - w) / 2;
    let y = if area_h >= h {
        (area_h - h) / 2
    } else {
        0
    };
    ModalRect { x, y, width: w, height: h }
}

/// `s` padded with spaces on the right to `n` characters (`{:<n}`).
pub open spec fn pad_right(s: Seq<char>, n: nat) -> Seq<char> {
    if s.len() >= n {
        s
    } else {
        s + Seq::new((n - s.len()) as nat, |i: int| ' ')
    }
}

/// `s` padded with spaces on the left to `n` characters (`{:>n}`).
pub open spec fn pad_left(s: Seq<char>, n: nat) -> Seq<char> {
    if s.len() >= n {
        s
    } else {
        Seq::new((n - s.len()) as nat, |i: int| ' ') + s
    }
}

fn spaces(n: usize) -> (r: Vec<char>)
    ensures
        r@ == Seq::new(n as nat, |i: int| ' '),
{
    let mut r: Vec<char> = Vec::new();
    let mut i: usize = 0;
    while i < n
        invariant
            i <= n,
            r@ == Seq::new(i as nat, |k: int| ' '),
        decreases n - i,
    {
        r.push(' ');
        i += 1;
        assert(r@ =~= Seq::new(i as nat, |k: int| ' '));
    }
    r
}

/// One row of the custom cash list: a pointer when selected, the name padded to 24 characters
/// and the amount (or the hidden-value text) right-aligned in 18.
pub struct CashRow {
    pub marker: String,
    pub name: String,
    pub amount: String,
}

/// The row of a custom cash field named `name` whose amount reads `amount`.
pub fn cash_list_row(name: &str, amount: &str, selected: bool) -> (r: CashRow)
    ensures
        r.marker@ == (if selected {
            " ▶ "@
        } else {
            "   "@
        }),
        r.name@ == pad_right(name@, 24),
        r.amount@ == pad_left(amount@, 18),
{
    let mut n = text::chars_of(name);
    if n.len() < 24 {
        let pad = spaces(24 - n.len());
        text::append_chars(&mut n, &pad);
    }
    let a = text::chars_of(amount);
    let am = if a.len() < 18 {
        let mut p = spaces(18 - a.len());
        text::append_chars(&mut p, &a);
        p
    } else {
        a
    };
    let marker = if selected {
        " ▶ ".to_owned()
    } else {
        "   ".to_owned()
    };
    CashRow { marker, name: text::string_of(&n), amount: text::string_of(&am) }
}

/// The title of the dialog that edits the field at `selected`: ` Edit: ` and its name (`?` when
/// there is none) and a space.
pub fn edit_title(names: &Vec<String>, selected: usize) -> (r: String)
    ensures
        r@ == " Edit: "@ + (if selected < names.len() {
            names@[selected as int]@
        } else {
            "?"@
        }) + " "@,
{
    let mut v = text::chars_of(" Edit: ");
    if selected < names.len() {
        text::append_str(&mut v, names[selected].as_str());
    } else {
        text::append_str(&mut v, "?");
    }
    text::append_str(&mut v, " ");
    text::string_of(&v)
}

proof fn lemma_wrap_rows_grow(ws: Seq<Seq<char>>, width: int)
    requires
        width > 0,
    ensures
        wrap_words(ws, width).0 >= 1,
        wrap_words(ws, width).1 >= 0,
    decreases ws.len(),
{
    if ws.len() > 0 {
        lemma_wrap_rows_grow(ws.drop_last(), width);
        let len = ws.last().len() as int;
        if len > width {
            assert((len - 1) / width >= 0) by (nonlinear_arith)
                requires
                    len >= 1,
                    width > 0,
            ;
            assert(len % width >= 0) by (nonlinear_arith)
                requires
                    width > 0,
            ;
        }
    }
}

/// Any text takes at least one row, whatever the width.
pub proof fn law_wrapped_rows_positive(t: Seq<char>, width: nat)
    ensures
        wrapped_rows(t, width as int) >= 1,
{
    if width > 0 {
        lemma_wrap_rows_grow(text::split_on(t, text::CharClass::Space), width as int);
    }
}

proof fn lemma_remove_class_concat(a: Seq<char>, b: Seq<char>, k: text::CharClass)
    ensures
        text::remove_class(a + b, k) == text::remove_class(a, k) + text::remove_class(b, k),
    decreases b.len(),
{
    if b.len() == 0 {
        assert(a + b =~= a);
        assert(text::remove_class(a, k) + text::remove_class(b, k) =~= text::remove_class(a, k));
    } else {
        assert((a + b).drop_last() =~= a + b.drop_last());
        lemma_remove_class_concat(a, b.drop_last(), k);
        if text::in_class(k, b.last()) {
        } else {
            assert(text::remove_class(a + b, k) =~= text::remove_class(a, k) + text::remove_class(
                b,
                k,
            ));
        }
    }
}

/// Grouping only inserts separators: with the apostrophes taken out again, grouped digits are
/// the digits they were made from.
pub proof fn law_grouping_keeps_digits(d: Seq<char>)
    requires
        forall|i: int| 0 <= i < d.len() ==> !text::in_class(text::CharClass::Separator, #[trigger] d[i]),
    ensures
        text::remove_class(grouped(d), text::CharClass::Separator) == d,
{
    lemma_grouped_upto_keeps(d, d.len() as int);
    assert(d.take(d.len() as int) =~= d);
}

proof fn lemma_grouped_upto_keeps(d: Seq<char>, i: int)
    requires
        0 <= i <= d.len(),
        forall|j: int| 0 <= j < d.len() ==> !text::in_class(text::CharClass::Separator, #[trigger] d[j]),
    ensures
        text::remove_class(grouped_upto(d, i), text::CharClass::Separator) == d.take(i),
    decreases i,
{
    let k = text::CharClass::Separator;
    if i == 0 {
        assert(d.take(0) =~= Seq::<char>::empty());
    } else {
        lemma_grouped_upto_keeps(d, i - 1);
        let sep = if i - 1 > 0 && (d.len() - (i - 1)) % 3 == 0 {
            seq!['\'']
        } else {
            Seq::<char>::empty()
        };
        let prev = grouped_upto(d, i - 1);
        lemma_remove_class_concat(prev + sep, seq![d[i - 1]], k);
        lemma_remove_class_concat(prev, sep, k);
        assert(text::remove_class(sep, k) =~= Seq::<char>::empty()) by {
            if sep.len() == 1 {
                assert(sep.drop_last() =~= Seq::<char>::empty());
                assert(text::remove_class(sep.drop_last(), k) =~= Seq::<char>::empty());
                assert(text::in_class(k, sep.last()));
            } else {
                assert(sep =~= Seq::<char>::empty());
            }
        }
        assert(seq![d[i - 1]].drop_last() =~= Seq::<char>::empty());
        assert(text::remove_class(seq![d[i - 1]], k) =~= seq![d[i - 1]]);
        assert(d.take(i) =~= d.take(i - 1) + seq![d[i - 1]]);
    }
}

} // verus!
