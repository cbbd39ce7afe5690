//! Interactive Brokers Flex Web Service replies: the reference code of a statement request and
//! the positions and cash balances of a statement, read from the XML events that `quick-xml`
//! yields for the reply.
use vstd::prelude::*;
use crate::text;
use quick_xml::events::{BytesStart, Event};

verus! {

// ---------------------------------------------------------------------------------------------
// XML events
// ---------------------------------------------------------------------------------------------

#[verifier::external_type_specification]
#[verifier::external_body]
#[verifier::reject_recursive_types(R)]
pub struct ExXmlReader<R>(quick_xml::reader::Reader<R>);

/// An event of an XML reader, as far as the replies are read: a start tag or (when `true`) an
/// empty-element tag, with its name and attributes (each a name and raw value, `None` when
/// malformed); an end tag; text; anything else; the end of the document; or an error with its
/// message.
pub enum XmlEvent {
    Tag(bool, String, Vec<Option<(String, String)>>),
    End,
    Text(String),
    Other,
    Eof,
    Error(String),
}

pub type AttrView = Option<(Seq<char>, Seq<char>)>;

pub enum EventView {
    Tag(bool, Seq<char>, Seq<AttrView>),
    End,
    Text(Seq<char>),
    Other,
    Eof,
    Error(Seq<char>),
}

pub open spec fn attr_view(a: Option<(String, String)>) -> AttrView {
    match a {
        Some((k, v)) => Some((k@, v@)),
        None => None,
    }
}

pub open spec fn attr_views(a: Seq<Option<(String, String)>>) -> Seq<AttrView> {
    a.map_values(|x: Option<(String, String)>| attr_view(x))
}

impl View for XmlEvent {
    type V = EventView;

    open spec fn view(&self) -> EventView {
        match self {
            XmlEvent::Tag(empty, n, a) => EventView::Tag(*empty, n@, attr_views(a@)),
            XmlEvent::End => EventView::End,
            XmlEvent::Text(t) => EventView::Text(t@),
            XmlEvent::Other => EventView::Other,
            XmlEvent::Eof => EventView::Eof,
            XmlEvent::Error(m) => EventView::Error(m@),
        }
    }
}

/// Whether an event ends the reading of a document: its end, or an error.
pub open spec fn ends_reading(e: EventView) -> bool {
    e is Eof || e is Error
}

/// The event number `i` (from 0) that a `quick-xml` reader over the text `xml`, trimming
/// white space around text, yields.
pub uninterp spec fn xml_event_at(xml: Seq<char>, i: nat) -> EventView;

/// A reader over an XML text together with the text and the number of events read so far.
pub struct XmlCursor<'a> {
    reader: quick_xml::reader::Reader<&'a [u8]>,
    source: Ghost<Seq<char>>,
    read: Ghost<nat>,
}

impl<'a> XmlCursor<'a> {
    pub closed spec fn source(&self) -> Seq<char> {
        self.source@
    }

    pub closed spec fn read(&self) -> nat {
        self.read@
    }
}

/// `Reader::from_str` of `quick-xml` over `xml`, configured with `trim_text(true)`; no event read
/// yet.
#[verifier::external_body]
fn xml_cursor<'a>(xml: &'a str) -> (c: XmlCursor<'a>)
    ensures
        c.source() == xml@,
        c.read() == 0,
{
    let mut reader = quick_xml::reader::Reader::from_str(xml);
    reader.config_mut().trim_text(true);
    XmlCursor { reader, source: Ghost(xml@), read: Ghost(0) }
}

/// `Reader::read_event` of `quick-xml`: the next event, with names, texts and attribute values
/// as they stand in the document and an error as its message. The result is named. Every event
/// but the end of the document and an error consumes at least one character of the document
/// (a tag its `<`..`>`, text and references their characters; all delimiters are ASCII), so
/// while no earlier event ended the reading, event number `i` can only be another one when
/// `i` is below the document's length.
#[verifier::external_body]
fn next_xml_event(c: &mut XmlCursor) -> (e: XmlEvent)
    ensures
        e@ == xml_event_at(old(c).source(), old(c).read()),
        final(c).source() == old(c).source(),
        final(c).read() == old(c).read() + 1,
        !ends_reading(e@) && (forall|j: nat|
            j < old(c).read() ==> !ends_reading(#[trigger] xml_event_at(old(c).source(), j)))
            ==> old(c).read() < old(c).source().len(),
{
    let e = match c.reader.read_event() {
        Ok(e) => e,
        Err(e) => return XmlEvent::Error(e.to_string()),
    };
    let tag = |empty, s: &BytesStart| XmlEvent::Tag(empty, s.name().0.into(), s.attributes().map(
        |a| a.ok().map(|a| (a.key.0.into(), a.value.into())),
    ).collect());
    match e {
        Event::Start(s) => tag(false, &s),
        Event::Empty(s) => tag(true, &s),
        Event::End(_) => XmlEvent::End,
        Event::Text(t) => XmlEvent::Text(t.to_string()),
        Event::Eof => XmlEvent::Eof,
        _ => XmlEvent::Other,
    }
}

// ---------------------------------------------------------------------------------------------
// The reply to a statement request
// ---------------------------------------------------------------------------------------------

/// What the reply to a statement request has told so far: the status, the reference code and
/// the error message read, the tag being read, and whether reading ended (at the end of the
/// document, or at an error with its message).
pub struct RequestScan {
    pub status: Seq<char>,
    pub reference: Seq<char>,
    pub error: Seq<char>,
    pub tag: Seq<char>,
    pub ended: Option<Option<Seq<char>>>,
}

/// The scan after one more event: a start tag becomes the tag being read, an end tag leaves it,
/// text (trimmed) is kept as the status, the reference code or the error message when read in
/// the tag of that name; the end of the document or an error end the reading.
pub open spec fn request_step(s: RequestScan, e: EventView) -> RequestScan {
    if s.ended is Some {
        s
    } else {
        match e {
            EventView::Tag(false, n, _) => RequestScan { tag: n, ..s },
            EventView::End => RequestScan { tag: Seq::empty(), ..s },
            EventView::Text(t) => if s.tag == "Status"@ {
                RequestScan { status: text::trim(t), ..s }
            } else if s.tag == "ReferenceCode"@ {
                RequestScan { reference: text::trim(t), ..s }
            } else if s.tag == "ErrorMessage"@ {
                RequestScan { error: text::trim(t), ..s }
            } else {
                s
            },
            EventView::Eof => RequestScan { ended: Some(None), ..s },
            EventView::Error(m) => RequestScan { ended: Some(Some(m)), ..s },
            _ => s,
        }
    }
}

/// The scan of the first `n` events of `xml`.
pub open spec fn request_scan(xml: Seq<char>, n: nat) -> RequestScan
    decreases n,
{
    if n == 0 {
        RequestScan {
            status: Seq::empty(),
            reference: Seq::empty(),
            error: Seq::empty(),
            tag: Seq::empty(),
            ended: None,
        }
    } else {
        request_step(request_scan(xml, (n - 1) as nat), xml_event_at(xml, (n - 1) as nat))
    }
}

/// The outcome of a scan: an XML error; the reference code when the status is `Success` (any
/// ASCII case) and a code was given; else the error message; else the status; else an invalid
/// reply.
pub open spec fn request_outcome(s: RequestScan) -> Result<Seq<char>, Seq<char>> {
    if s.ended is Some && s.ended.unwrap() is Some {
        Err("XML parse error: "@ + s.ended.unwrap().unwrap())
    } else if crate::config::eq_ignore_ascii_case(s.status, "Success"@) && s.reference.len() > 0 {
        Ok(s.reference)
    } else if s.error.len() > 0 {
        Err(s.error)
    } else if s.status.len() > 0 {
        Err("IBKR response status: "@ + s.status)
    } else {
        Err("Invalid IBKR XML response"@)
    }
}

/// The events read of a document of `len` characters: every event but the end of the document
/// takes at least one character, so the end comes within `len + 1` events.
pub open spec fn event_budget(len: nat) -> nat {
    len + 1
}

/// The reference code of a statement request's reply, or the reason there is none.
pub open spec fn send_request_result(xml: Seq<char>) -> Result<Seq<char>, Seq<char>> {
    request_outcome(request_scan(xml, event_budget(xml.len())))
}

proof fn lemma_request_scan_ended(xml: Seq<char>, n: nat, m: nat)
    requires
        n <= m,
        request_scan(xml, n).ended is Some,
    ensures
        request_scan(xml, m) == request_scan(xml, n),
    decreases m - n,
{
    if n < m {
        lemma_request_scan_ended(xml, n, (m - 1) as nat);
    }
}

fn text_of(s: &String) -> (v: Vec<char>)
    ensures
        v@ == s@,
{
    text::chars_of(s.as_str())
}

/// The reference code in the reply to a Flex statement request, or the error it reports.
pub fn parse_ibkr_send_request_xml(xml: &str) -> (r: Result<String, String>)
    requires
        xml@.len() <= isize::MAX,
    ensures
        match r {
            Ok(code) => send_request_result(xml@) == Ok::<Seq<char>, Seq<char>>(code@),
            Err(msg) => send_request_result(xml@) == Err::<Seq<char>, Seq<char>>(msg@),
        },
        request_scan(xml@, event_budget(xml@.len())).ended is Some,
{
    let n = text::chars_of(xml).len();
    let budget = n + 1;
    let mut c = xml_cursor(xml);
    let mut status: Vec<char> = Vec::new();
    let mut reference: Vec<char> = Vec::new();
    let mut error: Vec<char> = Vec::new();
    let mut tag: Vec<char> = Vec::new();
    let mut failure: Option<String> = None;
    let mut ended = false;
    let mut i: usize = 0;
    while i < budget && !ended
        invariant
            i <= budget == xml@.len() + 1,
            c.source() == xml@,
            c.read() == i,
            !ended ==> i <= xml@.len(),
            !ended ==> forall|j: nat| j < i ==> !ends_reading(#[trigger] xml_event_at(xml@, j)),
            ({
                let s = request_scan(xml@, i as nat);
                &&& s.status == status@
                &&& s.reference == reference@
                &&& s.error == error@
                &&& s.tag == tag@
                &&& ended == (s.ended is Some)
                &&& match s.ended {
                    Some(Some(m)) => failure matches Some(f) && f@ == m,
                    _ => failure is None,
                }
            }),
        decreases budget - i,
    {
        let e = next_xml_event(&mut c);
        match e {
            XmlEvent::Tag(false, name, _) => {
                tag = text_of(&name);
            },
            XmlEvent::End => {
                tag = Vec::new();
                assert(tag@ =~= Seq::<char>::empty());
            },
            XmlEvent::Text(t) => {
                let tv = text_of(&t);
                let trimmed = text::stripped(&tv, text::CharClass::WhiteSpace);
                if text::chars_eq_str(&tag, "Status") {
                    status = trimmed;
                } else if text::chars_eq_str(&tag, "ReferenceCode") {
                    reference = trimmed;
                } else if text::chars_eq_str(&tag, "ErrorMessage") {
                    error = trimmed;
                }
            },
            XmlEvent::Eof => {
                ended = true;
            },
            XmlEvent::Error(m) => {
                failure = Some(m);
                ended = true;
            },
            _ => {},
        }
        i += 1;
    }
    proof {
        lemma_request_scan_ended(xml@, i as nat, event_budget(xml@.len()));
    }
    match failure {
        Some(m) => {
            let mut v = text::chars_of("XML parse error: ");
            let mv = text_of(&m);
            text::append_chars(&mut v, &mv);
            return Err(text::string_of(&v));
        },
        None => {},
    }
    let success = text::chars_of("Success");
    if crate::config::same_ignoring_ascii_case(&status, &success) && reference.len() > 0 {
        Ok(text::string_of(&reference))
    } else if error.len() > 0 {
        Err(text::string_of(&error))
    } else if status.len() > 0 {
        let mut v = text::chars_of("IBKR response status: ");
        text::append_chars(&mut v, &status);
        Err(text::string_of(&v))
    } else {
        Err("Invalid IBKR XML response".to_owned())
    }
}

// ---------------------------------------------------------------------------------------------
// Statements
// ---------------------------------------------------------------------------------------------

/// A holding in a Flex statement, with its numbers as the statement writes them: an open
/// position (its symbol, quantity, mark price, currency upper-cased, `USD` when not given, and
/// value), or a cash balance (its currency upper-cased and ending cash). A missing number is
/// `None`.
pub enum FlexRecord {
    Position {
        symbol: String,
        position: Option<String>,
        mark_price: Option<String>,
        currency: String,
        position_value: Option<String>,
    },
    Cash { currency: String, ending_cash: Option<String> },
}

pub enum FlexView {
    Position {
        symbol: Seq<char>,
        position: Option<Seq<char>>,
        mark_price: Option<Seq<char>>,
        currency: Seq<char>,
        position_value: Option<Seq<char>>,
    },
    Cash { currency: Seq<char>, ending_cash: Option<Seq<char>> },
}

pub open spec fn opt_view(o: Option<String>) -> Option<Seq<char>> {
    match o {
        Some(s) => Some(s@),
        None => None,
    }
}

impl View for FlexRecord {
    type V = FlexView;

    open spec fn view(&self) -> FlexView {
        match self {
            FlexRecord::Position { symbol, position, mark_price, currency, position_value } =>
                FlexView::Position {
                symbol: symbol@,
                position: opt_view(*position),
                mark_price: opt_view(*mark_price),
                currency: currency@,
                position_value: opt_view(*position_value),
            },
            FlexRecord::Cash { currency, ending_cash } => FlexView::Cash {
                currency: currency@,
                ending_cash: opt_view(*ending_cash),
            },
        }
    }
}

pub open spec fn record_views(rs: Seq<FlexRecord>) -> Seq<FlexView> {
    rs.map_values(|r: FlexRecord| r@)
}

/// The fields of an open position read from its attributes in order, a later attribute of the
/// same name replacing an earlier one and malformed ones skipped.
pub open spec fn position_fields(attrs: Seq<AttrView>) -> FlexView
    decreases attrs.len(),
{
    if attrs.len() == 0 {
        FlexView::Position {
            symbol: Seq::empty(),
            position: None,
            mark_price: None,
            currency: "USD"@,
            position_value: None,
        }
    } else {
        let f = position_fields(attrs.drop_last());
        match (f, attrs.last()) {
            (
                FlexView::Position { symbol, position, mark_price, currency, position_value },
                Some((k, v)),
            ) => if k == "symbol"@ {
                FlexView::Position { symbol: v, position, mark_price, currency, position_value }
            } else if k == "position"@ {
                FlexView::Position { symbol, position: Some(v), mark_price, currency, position_value }
            } else if k == "markPrice"@ {
                FlexView::Position { symbol, position, mark_price: Some(v), currency, position_value }
            } else if k == "currency"@ {
                FlexView::Position {
                    symbol,
                    position,
                    mark_price,
                    currency: text::upper_text(v),
                    position_value,
                }
            } else if k == "positionValue"@ {
                FlexView::Position { symbol, position, mark_price, currency, position_value: Some(v) }
            } else {
                f
            },
            _ => f,
        }
    }
}

/// The fields of a cash balance read from its attributes in the same way.
pub open spec fn cash_fields(attrs: Seq<AttrView>) -> FlexView
    decreases attrs.len(),
{
    if attrs.len() == 0 {
        FlexView::Cash { currency: Seq::empty(), ending_cash: None }
    } else {
        let f = cash_fields(attrs.drop_last());
        match (f, attrs.last()) {
            (FlexView::Cash { currency, ending_cash }, Some((k, v))) => if k == "currency"@ {
                FlexView::Cash { currency: text::upper_text(v), ending_cash }
            } else if k == "endingCash"@ {
                FlexView::Cash { currency, ending_cash: Some(v) }
            } else {
                f
            },
            _ => f,
        }
    }
}

proof fn lemma_fields_variants(attrs: Seq<AttrView>)
    ensures
        position_fields(attrs) is Position,
        cash_fields(attrs) is Cash,
    decreases attrs.len(),
{
    if attrs.len() > 0 {
        lemma_fields_variants(attrs.drop_last());
    }
}

/// The tags of cash balances.
pub open spec fn is_cash_tag(n: Seq<char>) -> bool {
    n == "CashReportCurrency"@ || n == "CashSummaryItem"@ || n == "ChangeInCash"@
}

/// The record a tag yields: an open position with a symbol, or a cash balance with a currency
/// other than the base summary.
pub open spec fn tag_record(n: Seq<char>, attrs: Seq<AttrView>) -> Option<FlexView> {
    if n == "OpenPosition"@ {
        let f = position_fields(attrs);
        if f->Position_symbol.len() > 0 {
            Some(f)
        } else {
            None
        }
    } else if is_cash_tag(n) {
        let f = cash_fields(attrs);
        if f->Cash_currency.len() > 0 && f->Cash_currency != "BASE_SUMMARY"@ {
            Some(f)
        } else {
            None
        }
    } else {
        None
    }
}

/// Each of the cash tags `CashReportCurrency`, `CashSummaryItem` and `ChangeInCash` with a
/// `currency` and an `endingCash` attribute (in either order) yields exactly one cash balance: its
/// currency upper-cased and its ending cash, unless the currency is empty or `BASE_SUMMARY`.
pub proof fn law_cash_tags_yield_cash_balances(n: Seq<char>, c: Seq<char>, v: Seq<char>)
    requires
        n == "CashSummaryItem"@ || n == "CashReportCurrency"@ || n == "ChangeInCash"@,
    ensures
        tag_record(n, seq![Some(("currency"@, c)), Some(("endingCash"@, v))]) == (if text::upper_text(
            c,
        ).len() > 0 && text::upper_text(c) != "BASE_SUMMARY"@ {
            Some(FlexView::Cash { currency: text::upper_text(c), ending_cash: Some(v) })
        } else {
            None
        }),
        tag_record(n, seq![Some(("endingCash"@, v)), Some(("currency"@, c))]) == (if text::upper_text(
            c,
        ).len() > 0 && text::upper_text(c) != "BASE_SUMMARY"@ {
            Some(FlexView::Cash { currency: text::upper_text(c), ending_cash: Some(v) })
        } else {
            None
        }),
{
    reveal_strlit("OpenPosition");
    reveal_strlit("CashReportCurrency");
    reveal_strlit("CashSummaryItem");
    reveal_strlit("ChangeInCash");
    reveal_strlit("currency");
    reveal_strlit("endingCash");
    assert("OpenPosition"@.len() == 12);
    assert("CashReportCurrency"@.len() == 18);
    assert("CashSummaryItem"@.len() == 15);
    assert("ChangeInCash"@.len() == 12);
    assert("OpenPosition"@[0] == 'O');
    assert("ChangeInCash"@[0] == 'C');
    assert("currency"@.len() == 8);
    assert("endingCash"@.len() == 10);
    let a1 = seq![Some(("currency"@, c)), Some(("endingCash"@, v))];
    let a2 = seq![Some(("endingCash"@, v)), Some(("currency"@, c))];
    assert(a1.drop_last() =~= seq![Some(("currency"@, c))]);
    assert(a1.drop_last().drop_last() =~= Seq::<AttrView>::empty());
    assert(a2.drop_last() =~= seq![Some(("endingCash"@, v))]);
    assert(a2.drop_last().drop_last() =~= Seq::<AttrView>::empty());
    reveal_with_fuel(cash_fields, 3);
}

/// The records of the first `n` events of `xml` and whether reading ended (at the end of the
/// document or an error).
pub open spec fn statement_scan(xml: Seq<char>, n: nat) -> (Seq<FlexView>, bool)
    decreases n,
{
    if n == 0 {
        (Seq::empty(), false)
    } else {
        let s = statement_scan(xml, (n - 1) as nat);
        if s.1 {
            s
        } else {
            match xml_event_at(xml, (n - 1) as nat) {
                EventView::Tag(_, name, attrs) => match tag_record(
                    name,
                    attrs,
                ) {
                    Some(r) => (s.0.push(r), false),
                    None => s,
                },
                EventView::Eof | EventView::Error(_) => (s.0, true),
                _ => s,
            }
        }
    }
}

/// The holdings of a Flex statement, in document order.
pub open spec fn statement_records(xml: Seq<char>) -> Seq<FlexView> {
    statement_scan(xml, event_budget(xml.len())).0
}

proof fn lemma_statement_scan_ended(xml: Seq<char>, n: nat, m: nat)
    requires
        n <= m,
        statement_scan(xml, n).1,
    ensures
        statement_scan(xml, m) == statement_scan(xml, n),
    decreases m - n,
{
    if n < m {
        lemma_statement_scan_ended(xml, n, (m - 1) as nat);
    }
}

fn copy_string(s: &String) -> (r: String)
    ensures
        r@ == s@,
{
    s.clone()
}

fn upper_string(s: &String) -> (r: String)
    ensures
        r@ == text::upper_text(s@),
{
    let v = text_of(s);
    let u = text::to_uppercase(&v);
    text::string_of(&u)
}

fn read_position(attrs: &Vec<Option<(String, String)>>) -> (r: FlexRecord)
    ensures
        r@ == position_fields(attr_views(attrs@)),
{
    let mut symbol = String::new();
    let mut position: Option<String> = None;
    let mut mark_price: Option<String> = None;
    let mut currency = "USD".to_owned();
    let mut position_value: Option<String> = None;
    let ghost av = attr_views(attrs@);
    let mut i: usize = 0;
    assert(av.take(0) =~= Seq::<AttrView>::empty());
    while i < attrs.len()
        invariant
            i <= attrs.len(),
            av == attr_views(attrs@),
            position_fields(av.take(i as int)) == (FlexView::Position {
                symbol: symbol@,
                position: opt_view(position),
                mark_price: opt_view(mark_price),
                currency: currency@,
                position_value: opt_view(position_value),
            }),
        decreases attrs.len() - i,
    {
        assert(av.take(i + 1).drop_last() =~= av.take(i as int));
        assert(av.take(i + 1).last() == attr_view(attrs@[i as int]));
        match &attrs[i] {
            Some((k, v)) => {
                let kv = text_of(k);
                if text::chars_eq_str(&kv, "symbol") {
                    symbol = copy_string(v);
                } else if text::chars_eq_str(&kv, "position") {
                    position = Some(copy_string(v));
                } else if text::chars_eq_str(&kv, "markPrice") {
                    mark_price = Some(copy_string(v));
                } else if text::chars_eq_str(&kv, "currency") {
                    currency = upper_string(v);
                } else if text::chars_eq_str(&kv, "positionValue") {
                    position_value = Some(copy_string(v));
                }
            },
            None => {},
        }
        i += 1;
    }
    assert(av.take(attrs.len() as int) =~= av);
    FlexRecord::Position { symbol, position, mark_price, currency, position_value }
}

fn read_cash(attrs: &Vec<Option<(String, String)>>) -> (r: FlexRecord)
    ensures
        r@ == cash_fields(attr_views(attrs@)),
{
    let mut currency = String::new();
    let mut ending_cash: Option<String> = None;
    let ghost av = attr_views(attrs@);
    let mut i: usize = 0;
    assert(av.take(0) =~= Seq::<AttrView>::empty());
    while i < attrs.len()
        invariant
            i <= attrs.len(),
            av == attr_views(attrs@),
            cash_fields(av.take(i as int)) == (FlexView::Cash {
                currency: currency@,
                ending_cash: opt_view(ending_cash),
            }),
        decreases attrs.len() - i,
    {
        assert(av.take(i + 1).drop_last() =~= av.take(i as int));
        assert(av.take(i + 1).last() == attr_view(attrs@[i as int]));
        match &attrs[i] {
            Some((k, v)) => {
                let kv = text_of(k);
                if text::chars_eq_str(&kv, "currency") {
                    currency = upper_string(v);
                } else if text::chars_eq_str(&kv, "endingCash") {
                    ending_cash = Some(copy_string(v));
                }
            },
            None => {},
        }
        i += 1;
    }
    assert(av.take(attrs.len() as int) =~= av);
    FlexRecord::Cash { currency, ending_cash }
}

fn record_of_tag(name: &String, attrs: &Vec<Option<(String, String)>>) -> (r: Option<FlexRecord>)
    ensures
        match r {
            Some(x) => tag_record(name@, attr_views(attrs@)) == Some(x@),
            None => tag_record(name@, attr_views(attrs@)) is None,
        },
{
    let n = text_of(name);
    proof {
        lemma_fields_variants(attr_views(attrs@));
    }
    if text::chars_eq_str(&n, "OpenPosition") {
        let f = read_position(attrs);
        match &f {
            FlexRecord::Position { symbol, .. } => {
                if symbol.as_str().is_empty() {
                    return None;
                }
            },
            _ => {},
        }
        Some(f)
    } else if text::chars_eq_str(&n, "CashReportCurrency") || text::chars_eq_str(&n, "CashSummaryItem")
        || text::chars_eq_str(&n, "ChangeInCash") {
        let f = read_cash(attrs);
        match &f {
            FlexRecord::Cash { currency, .. } => {
                let cv = text_of(currency);
                if cv.len() == 0 || text::chars_eq_str(&cv, "BASE_SUMMARY") {
                    return None;
                }
            },
            _ => {},
        }
        Some(f)
    } else {
        None
    }
}

/// The open positions and cash balances of a Flex statement, in document order, with their
/// numbers as written; reading stops at the end of the document or at the first XML error.
pub fn parse_ibkr_statement_xml(xml: &str) -> (r: Vec<FlexRecord>)
    requires
        xml@.len() <= isize::MAX,
    ensures
        record_views(r@) == statement_records(xml@),
        statement_scan(xml@, event_budget(xml@.len())).1,
{
    let n = text::chars_of(xml).len();
    let budget = n + 1;
    let mut c = xml_cursor(xml);
    let mut out: Vec<FlexRecord> = Vec::new();
    let mut ended = false;
    let mut i: usize = 0;
    assert(record_views(out@) =~= Seq::<FlexView>::empty());
    while i < budget && !ended
        invariant
            i <= budget == xml@.len() + 1,
            c.source() == xml@,
            c.read() == i,
            !ended ==> i <= xml@.len(),
            !ended ==> forall|j: nat| j < i ==> !ends_reading(#[trigger] xml_event_at(xml@, j)),
            statement_scan(xml@, i as nat) == (record_views(out@), ended),
        decreases budget - i,
    {
        let e = next_xml_event(&mut c);
        match e {
            XmlEvent::Tag(_, name, attrs) => {
                match record_of_tag(&name, &attrs) {
                    Some(x) => {
                        let ghost before = out@;
                        out.push(x);
                        assert(record_views(out@) =~= record_views(before).push(x@));
                    },
                    None => {},
                }
            },
            XmlEvent::Eof => {
                ended = true;
            },
            XmlEvent::Error(_) => {
                ended = true;
            },
            _ => {},
        }
        i += 1;
    }
    proof {
        lemma_statement_scan_ended(xml@, i as nat, event_budget(xml@.len()));
    }
    out
}

} // verus!
