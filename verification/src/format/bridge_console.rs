//! Events that the Jest bridge reports from inside a test: HTTP responses
//! and aborts, failed assertions and console output, told apart from the
//! test's own console lines and gathered into their lists.
use crate::format::console::{entry_views, ConsoleEntry, ConsoleEntryView};
use crate::test_model::opt_seq;
use crate::text::{contains, owned, rfind, rfind_str, chars_of, string_of_range, trim, trim_str};
use vstd::prelude::*;

verus! {

/// One HTTP exchange seen while a test ran (its JSON body is kept as text).
#[derive(Debug, Clone)]
pub struct HttpEvent {
    pub timestamp_ms: u64,
    pub kind: Option<String>,
    pub method: Option<String>,
    pub url: Option<String>,
    pub route: Option<String>,
    pub status_code: Option<i64>,
    pub duration_ms: Option<i64>,
    pub content_type: Option<String>,
    pub request_id: Option<String>,
    pub json: Option<String>,
    pub body_preview: Option<String>,
    pub test_path: Option<String>,
    pub current_test_name: Option<String>,
}

pub struct HttpEventView {
    pub timestamp_ms: u64,
    pub kind: Option<Seq<char>>,
    pub method: Option<Seq<char>>,
    pub url: Option<Seq<char>>,
    pub route: Option<Seq<char>>,
    pub status_code: Option<i64>,
    pub duration_ms: Option<i64>,
    pub content_type: Option<Seq<char>>,
    pub request_id: Option<Seq<char>>,
    pub json: Option<Seq<char>>,
    pub body_preview: Option<Seq<char>>,
    pub test_path: Option<Seq<char>>,
    pub current_test_name: Option<Seq<char>>,
}

impl View for HttpEvent {
    type V = HttpEventView;

    open spec fn view(&self) -> HttpEventView {
        HttpEventView {
            timestamp_ms: self.timestamp_ms,
            kind: opt_seq(self.kind),
            method: opt_seq(self.method),
            url: opt_seq(self.url),
            route: opt_seq(self.route),
            status_code: self.status_code,
            duration_ms: self.duration_ms,
            content_type: opt_seq(self.content_type),
            request_id: opt_seq(self.request_id),
            json: opt_seq(self.json),
            body_preview: opt_seq(self.body_preview),
            test_path: opt_seq(self.test_path),
            current_test_name: opt_seq(self.current_test_name),
        }
    }
}

/// A failed assertion as the bridge reported it.
#[derive(Debug, Clone)]
pub struct AssertionEvt {
    pub timestamp_ms: Option<u64>,
    pub matcher: Option<String>,
    pub expected_number: Option<i64>,
    pub received_number: Option<i64>,
    pub message: Option<String>,
    pub stack: Option<String>,
    pub test_path: Option<String>,
    pub current_test_name: Option<String>,
    pub expected_preview: Option<String>,
    pub actual_preview: Option<String>,
}

pub struct AssertionEvtView {
    pub timestamp_ms: Option<u64>,
    pub matcher: Option<Seq<char>>,
    pub expected_number: Option<i64>,
    pub received_number: Option<i64>,
    pub message: Option<Seq<char>>,
    pub stack: Option<Seq<char>>,
    pub test_path: Option<Seq<char>>,
    pub current_test_name: Option<Seq<char>>,
    pub expected_preview: Option<Seq<char>>,
    pub actual_preview: Option<Seq<char>>,
}

impl View for AssertionEvt {
    type V = AssertionEvtView;

    open spec fn view(&self) -> AssertionEvtView {
        AssertionEvtView {
            timestamp_ms: self.timestamp_ms,
            matcher: opt_seq(self.matcher),
            expected_number: self.expected_number,
            received_number: self.received_number,
            message: opt_seq(self.message),
            stack: opt_seq(self.stack),
            test_path: opt_seq(self.test_path),
            current_test_name: opt_seq(self.current_test_name),
            expected_preview: opt_seq(self.expected_preview),
            actual_preview: opt_seq(self.actual_preview),
        }
    }
}

pub open spec fn http_views(v: Seq<HttpEvent>) -> Seq<HttpEventView> {
    v.map_values(|e: HttpEvent| e@)
}

pub open spec fn evt_views(v: Seq<AssertionEvt>) -> Seq<AssertionEvtView> {
    v.map_values(|e: AssertionEvt| e@)
}

pub fn copy_opt_text(o: &Option<String>) -> (res: Option<String>)
    ensures
        opt_seq(res) == opt_seq(*o),
{
    match o {
        Some(s) => Some(owned(s.as_str())),
        None => None,
    }
}

/// A copy of an HTTP event.
pub fn copy_http_event(e: &HttpEvent) -> (res: HttpEvent)
    ensures
        res@ == e@,
{
    HttpEvent {
        timestamp_ms: e.timestamp_ms,
        kind: copy_opt_text(&e.kind),
        method: copy_opt_text(&e.method),
        url: copy_opt_text(&e.url),
        route: copy_opt_text(&e.route),
        status_code: e.status_code,
        duration_ms: e.duration_ms,
        content_type: copy_opt_text(&e.content_type),
        request_id: copy_opt_text(&e.request_id),
        json: copy_opt_text(&e.json),
        body_preview: copy_opt_text(&e.body_preview),
        test_path: copy_opt_text(&e.test_path),
        current_test_name: copy_opt_text(&e.current_test_name),
    }
}

/// A copy of an assertion event.
pub fn copy_assertion_evt(e: &AssertionEvt) -> (res: AssertionEvt)
    ensures
        res@ == e@,
{
    AssertionEvt {
        timestamp_ms: e.timestamp_ms,
        matcher: copy_opt_text(&e.matcher),
        expected_number: e.expected_number,
        received_number: e.received_number,
        message: copy_opt_text(&e.message),
        stack: copy_opt_text(&e.stack),
        test_path: copy_opt_text(&e.test_path),
        current_test_name: copy_opt_text(&e.current_test_name),
        expected_preview: copy_opt_text(&e.expected_preview),
        actual_preview: copy_opt_text(&e.actual_preview),
    }
}


/// The marker that starts an event line of the bridge.
pub const BRIDGE_EVENT_MARKER: &'static str = "[JEST-BRIDGE-EVENT]";

/// The JSON text of a bridge event line: what follows the last marker,
/// trimmed; `None` for a line without the marker.
pub open spec fn bridge_event_json_spec(raw: Seq<char>) -> Option<Seq<char>> {
    match rfind(raw, BRIDGE_EVENT_MARKER@) {
        Some(i) => Some(trim(raw.skip(i + BRIDGE_EVENT_MARKER@.len()))),
        None => None,
    }
}

pub fn bridge_event_json_text(raw: &str) -> (res: Option<String>)
    ensures
        opt_seq(res) == bridge_event_json_spec(raw@),
{
    match rfind_str(raw, BRIDGE_EVENT_MARKER) {
        Some(i) => {
            let v = chars_of(raw);
            let m = chars_of(BRIDGE_EVENT_MARKER);
            proof {
                crate::text::lemma_rfind_props(raw@, BRIDGE_EVENT_MARKER@);
                assert(m@ == BRIDGE_EVENT_MARKER@);
                assert(i + BRIDGE_EVENT_MARKER@.len() <= raw@.len());
            }
            assert(v@.len() == raw@.len());
            assert(i + m.len() <= v.len());
            let rest = string_of_range(&v, i + m.len(), v.len());
            assert(rest@ =~= raw@.skip(i + BRIDGE_EVENT_MARKER@.len()));
            Some(trim_str(rest.as_str()))
        },
        None => None,
    }
}

/// The kinds of bridge events the report reads.
#[derive(PartialEq, Eq, Structural)]
pub enum BridgeEventKind {
    HttpResponse,
    HttpResponseBatch,
    HttpAbort,
    AssertionFailure,
    Console,
    ConsoleBatch,
    Other,
}

pub open spec fn bridge_event_kind_spec(t: Seq<char>) -> BridgeEventKind {
    if t == "httpResponse"@ {
        BridgeEventKind::HttpResponse
    } else if t == "httpResponseBatch"@ {
        BridgeEventKind::HttpResponseBatch
    } else if t == "httpAbort"@ {
        BridgeEventKind::HttpAbort
    } else if t == "assertionFailure"@ {
        BridgeEventKind::AssertionFailure
    } else if t == "console"@ {
        BridgeEventKind::Console
    } else if t == "consoleBatch"@ {
        BridgeEventKind::ConsoleBatch
    } else {
        BridgeEventKind::Other
    }
}

/// The kind of an event by the `type` its line gives.
pub fn bridge_event_kind(event_type: &str) -> (res: BridgeEventKind)
    ensures
        res == bridge_event_kind_spec(event_type@),
{
    if crate::text::str_eq(event_type, "httpResponse") {
        BridgeEventKind::HttpResponse
    } else if crate::text::str_eq(event_type, "httpResponseBatch") {
        BridgeEventKind::HttpResponseBatch
    } else if crate::text::str_eq(event_type, "httpAbort") {
        BridgeEventKind::HttpAbort
    } else if crate::text::str_eq(event_type, "assertionFailure") {
        BridgeEventKind::AssertionFailure
    } else if crate::text::str_eq(event_type, "console") {
        BridgeEventKind::Console
    } else if crate::text::str_eq(event_type, "consoleBatch") {
        BridgeEventKind::ConsoleBatch
    } else {
        BridgeEventKind::Other
    }
}

/// What an HTTP response event carries (its JSON body as text).
pub struct HttpResponseFields {
    pub method: Option<String>,
    pub url: Option<String>,
    pub route: Option<String>,
    pub status_code: Option<i64>,
    pub duration_ms: Option<i64>,
    pub content_type: Option<String>,
    pub request_id: Option<String>,
    pub json: Option<String>,
    pub body_preview: Option<String>,
    pub test_path: Option<String>,
    pub current_test_name: Option<String>,
}

/// One entry of a console batch: its type and message.
pub struct ConsoleBatchEntry {
    pub entry_type: Option<String>,
    pub message: Option<String>,
}

/// A bridge event as its JSON decoded; `Skip` for a kind the report does
/// not read or a payload that did not decode.
pub enum BridgePayload {
    HttpResponse(HttpResponseFields),
    HttpResponseBatch {
        events: Option<Vec<HttpResponseFields>>,
        test_path: Option<String>,
        current_test_name: Option<String>,
    },
    HttpAbort {
        method: Option<String>,
        url: Option<String>,
        route: Option<String>,
        duration_ms: Option<i64>,
        test_path: Option<String>,
        current_test_name: Option<String>,
    },
    AssertionFailure(AssertionEvt),
    Console {
        level: Option<String>,
        message: Option<String>,
        test_path: Option<String>,
        current_test_name: Option<String>,
    },
    ConsoleBatch(Option<Vec<ConsoleBatchEntry>>),
    Skip,
}

/// One console entry of a test file: a line of its own (with its type,
/// origin and rendered message), a bridge event (with the time it names,
/// if any), or an event line whose header did not decode.
pub enum BridgeConsoleItem {
    Plain { entry_type: Option<String>, origin: Option<String>, text: String },
    Event { timestamp_ms: Option<u64>, payload: BridgePayload },
    Unreadable,
}

/// The HTTP event of a response.
pub open spec fn response_view(
    ts: u64,
    f: HttpResponseFields,
    test_path: Option<Seq<char>>,
    current_test_name: Option<Seq<char>>,
) -> HttpEventView {
    HttpEventView {
        timestamp_ms: ts,
        kind: Some("response"@),
        method: opt_seq(f.method),
        url: opt_seq(f.url),
        route: opt_seq(f.route),
        status_code: f.status_code,
        duration_ms: f.duration_ms,
        content_type: opt_seq(f.content_type),
        request_id: opt_seq(f.request_id),
        json: opt_seq(f.json),
        body_preview: opt_seq(f.body_preview),
        test_path,
        current_test_name,
    }
}

/// The HTTP events of a batch: each response under the batch's test.
pub open spec fn batch_views(
    ts: u64,
    events: Seq<HttpResponseFields>,
    test_path: Option<Seq<char>>,
    current_test_name: Option<Seq<char>>,
) -> Seq<HttpEventView> {
    events.map_values(|f: HttpResponseFields| response_view(ts, f, test_path, current_test_name))
}

/// The HTTP events one console entry gives.
pub open spec fn item_http(it: BridgeConsoleItem, now_ms: u64) -> Seq<HttpEventView> {
    match it {
        BridgeConsoleItem::Event { timestamp_ms, payload } => {
            let ts = match timestamp_ms {
                Some(t) => t,
                None => now_ms,
            };
            match payload {
                BridgePayload::HttpResponse(f) => seq![
                    response_view(ts, f, opt_seq(f.test_path), opt_seq(f.current_test_name)),
                ],
                BridgePayload::HttpResponseBatch { events, test_path, current_test_name } => match events {
                    Some(es) => batch_views(ts, es@, opt_seq(test_path), opt_seq(current_test_name)),
                    None => Seq::empty(),
                },
                BridgePayload::HttpAbort { method, url, route, duration_ms, test_path, current_test_name } => seq![
                    HttpEventView {
                        timestamp_ms: ts,
                        kind: Some("abort"@),
                        method: opt_seq(method),
                        url: opt_seq(url),
                        route: opt_seq(route),
                        status_code: None,
                        duration_ms: duration_ms,
                        content_type: None,
                        request_id: None,
                        json: None,
                        body_preview: None,
                        test_path: opt_seq(test_path),
                        current_test_name: opt_seq(current_test_name),
                    },
                ],
                _ => Seq::empty(),
            }
        },
        _ => Seq::empty(),
    }
}

/// The failed assertions one console entry gives.
pub open spec fn item_assertions(it: BridgeConsoleItem) -> Seq<AssertionEvtView> {
    match it {
        BridgeConsoleItem::Event { payload: BridgePayload::AssertionFailure(a), .. } => seq![a@],
        _ => Seq::empty(),
    }
}

/// The console entries one console entry gives.
pub open spec fn item_console(it: BridgeConsoleItem) -> Seq<ConsoleEntryView> {
    match it {
        BridgeConsoleItem::Plain { entry_type, origin, text } => seq![
            ConsoleEntryView {
                entry_type: opt_seq(entry_type),
                message: Some(text@),
                origin: opt_seq(origin),
                test_path: None,
                current_test_name: None,
            },
        ],
        BridgeConsoleItem::Event { payload, .. } => match payload {
            BridgePayload::Console { level, message, test_path, current_test_name } => seq![
                ConsoleEntryView {
                    entry_type: opt_seq(level),
                    message: opt_seq(message),
                    origin: None,
                    test_path: opt_seq(test_path),
                    current_test_name: opt_seq(current_test_name),
                },
            ],
            BridgePayload::ConsoleBatch(Some(es)) => es@.map_values(
                |e: ConsoleBatchEntry|
                    ConsoleEntryView {
                        entry_type: opt_seq(e.entry_type),
                        message: opt_seq(e.message),
                        origin: None,
                        test_path: None,
                        current_test_name: None,
                    },
            ),
            _ => Seq::empty(),
        },
        _ => Seq::empty(),
    }
}

/// All the HTTP events of the entries, in order.
pub open spec fn all_http(items: Seq<BridgeConsoleItem>, now_ms: u64) -> Seq<HttpEventView>
    decreases items.len(),
{
    if items.len() == 0 {
        Seq::empty()
    } else {
        all_http(items.drop_last(), now_ms) + item_http(items.last(), now_ms)
    }
}

/// All the failed assertions of the entries, in order.
pub open spec fn all_assertions(items: Seq<BridgeConsoleItem>) -> Seq<AssertionEvtView>
    decreases items.len(),
{
    if items.len() == 0 {
        Seq::empty()
    } else {
        all_assertions(items.drop_last()) + item_assertions(items.last())
    }
}

/// All the console entries of the entries, in order.
pub open spec fn all_console(items: Seq<BridgeConsoleItem>) -> Seq<ConsoleEntryView>
    decreases items.len(),
{
    if items.len() == 0 {
        Seq::empty()
    } else {
        all_console(items.drop_last()) + item_console(items.last())
    }
}

fn response_event(ts: u64, f: &HttpResponseFields, test_path: &Option<String>, current_test_name: &Option<String>) -> (res: HttpEvent)
    ensures
        res@ == response_view(ts, *f, opt_seq(*test_path), opt_seq(*current_test_name)),
{
    HttpEvent {
        timestamp_ms: ts,
        kind: Some(owned("response")),
        method: copy_opt_text(&f.method),
        url: copy_opt_text(&f.url),
        route: copy_opt_text(&f.route),
        status_code: f.status_code,
        duration_ms: f.duration_ms,
        content_type: copy_opt_text(&f.content_type),
        request_id: copy_opt_text(&f.request_id),
        json: copy_opt_text(&f.json),
        body_preview: copy_opt_text(&f.body_preview),
        test_path: copy_opt_text(test_path),
        current_test_name: copy_opt_text(current_test_name),
    }
}

fn push_item_http(http: &mut Vec<HttpEvent>, it: &BridgeConsoleItem, now_ms: u64)
    ensures
        http_views(final(http)@) == http_views(old(http)@) + item_http(*it, now_ms),
{
    let ghost start = http_views(http@);
    match it {
        BridgeConsoleItem::Event { timestamp_ms, payload } => {
            let ts = match timestamp_ms {
                Some(t) => *t,
                None => now_ms,
            };
            match payload {
                BridgePayload::HttpResponse(f) => {
                    let e = response_event(ts, f, &f.test_path, &f.current_test_name);
                    http.push(e);
                    assert(http_views(http@) =~= start + item_http(*it, now_ms));
                },
                BridgePayload::HttpResponseBatch { events, test_path, current_test_name } => {
                    match events {
                        Some(es) => {
                            let ghost bv = batch_views(ts, es@, opt_seq(*test_path), opt_seq(*current_test_name));
                            let mut i: usize = 0;
                            while i < es.len()
                                invariant
                                    i <= es.len(),
                                    bv == batch_views(ts, es@, opt_seq(*test_path), opt_seq(*current_test_name)),
                                    http_views(http@) == start + bv.take(i as int),
                                decreases es.len() - i,
                            {
                                let e = response_event(ts, &es[i], test_path, current_test_name);
                                let ghost before = http_views(http@);
                                http.push(e);
                                assert(http_views(http@) =~= before.push(bv[i as int]));
                                assert(bv.take(i + 1) =~= bv.take(i as int).push(bv[i as int]));
                                i = i + 1;
                            }
                            assert(bv.take(es.len() as int) =~= bv);
                        },
                        None => {
                            assert(http_views(http@) =~= start + item_http(*it, now_ms));
                        },
                    }
                },
                BridgePayload::HttpAbort { method, url, route, duration_ms, test_path, current_test_name } => {
                    http.push(
                        HttpEvent {
                            timestamp_ms: ts,
                            kind: Some(owned("abort")),
                            method: copy_opt_text(method),
                            url: copy_opt_text(url),
                            route: copy_opt_text(route),
                            status_code: None,
                            duration_ms: *duration_ms,
                            content_type: None,
                            request_id: None,
                            json: None,
                            body_preview: None,
                            test_path: copy_opt_text(test_path),
                            current_test_name: copy_opt_text(current_test_name),
                        },
                    );
                    assert(http_views(http@) =~= start + item_http(*it, now_ms));
                },
                _ => {
                    assert(http_views(http@) =~= start + item_http(*it, now_ms));
                },
            }
        },
        _ => {
            assert(http_views(http@) =~= start + item_http(*it, now_ms));
        },
    }
}

fn push_item_console(console_list: &mut Vec<ConsoleEntry>, it: &BridgeConsoleItem)
    ensures
        entry_views(final(console_list)@) == entry_views(old(console_list)@) + item_console(*it),
{
    let ghost start = entry_views(console_list@);
    match it {
        BridgeConsoleItem::Plain { entry_type, origin, text } => {
            console_list.push(
                ConsoleEntry {
                    entry_type: copy_opt_text(entry_type),
                    message: Some(owned(text.as_str())),
                    origin: copy_opt_text(origin),
                    test_path: None,
                    current_test_name: None,
                },
            );
            assert(entry_views(console_list@) =~= start + item_console(*it));
        },
        BridgeConsoleItem::Event { payload, .. } => {
            match payload {
                BridgePayload::Console { level, message, test_path, current_test_name } => {
                    console_list.push(
                        ConsoleEntry {
                            entry_type: copy_opt_text(level),
                            message: copy_opt_text(message),
                            origin: None,
                            test_path: copy_opt_text(test_path),
                            current_test_name: copy_opt_text(current_test_name),
                        },
                    );
                    assert(entry_views(console_list@) =~= start + item_console(*it));
                },
                BridgePayload::ConsoleBatch(Some(es)) => {
                    let ghost bv = item_console(*it);
                    let mut i: usize = 0;
                    while i < es.len()
                        invariant
                            i <= es.len(),
                            bv == item_console(*it),
                            bv.len() == es.len(),
                            forall|k: int| 0 <= k < es.len() ==> #[trigger] bv[k] == (ConsoleEntryView {
                                entry_type: opt_seq(es@[k].entry_type),
                                message: opt_seq(es@[k].message),
                                origin: None,
                                test_path: None,
                                current_test_name: None,
                            }),
                            entry_views(console_list@) == start + bv.take(i as int),
                        decreases es.len() - i,
                    {
                        let ghost before = entry_views(console_list@);
                        console_list.push(
                            ConsoleEntry {
                                entry_type: copy_opt_text(&es[i].entry_type),
                                message: copy_opt_text(&es[i].message),
                                origin: None,
                                test_path: None,
                                current_test_name: None,
                            },
                        );
                        assert(entry_views(console_list@) =~= before.push(bv[i as int]));
                        assert(bv.take(i + 1) =~= bv.take(i as int).push(bv[i as int]));
                        i = i + 1;
                    }
                    assert(bv.take(es.len() as int) =~= bv);
                },
                _ => {
                    assert(entry_views(console_list@) =~= start + item_console(*it));
                },
            }
        },
        _ => {
            assert(entry_views(console_list@) =~= start + item_console(*it));
        },
    }
}

/// The HTTP events, failed assertions and console entries of a test file's
/// console, each in the order they came; an event without a time of its
/// own is stamped `now_ms`.
pub fn collect_bridge_console(items: &Vec<BridgeConsoleItem>, now_ms: u64) -> (res: (
    Vec<HttpEvent>,
    Vec<AssertionEvt>,
    Vec<ConsoleEntry>,
))
    ensures
        http_views(res.0@) == all_http(items@, now_ms),
        evt_views(res.1@) == all_assertions(items@),
        entry_views(res.2@) == all_console(items@),
{
    let mut http: Vec<HttpEvent> = Vec::new();
    let mut assertions: Vec<AssertionEvt> = Vec::new();
    let mut console_list: Vec<ConsoleEntry> = Vec::new();
    let mut i: usize = 0;
    while i < items.len()
        invariant
            i <= items.len(),
            http_views(http@) == all_http(items@.take(i as int), now_ms),
            evt_views(assertions@) == all_assertions(items@.take(i as int)),
            entry_views(console_list@) == all_console(items@.take(i as int)),
        decreases items.len() - i,
    {
        assert(items@.take(i + 1).drop_last() =~= items@.take(i as int));
        assert(items@.take(i + 1).last() == items@[i as int]);
        push_item_http(&mut http, &items[i], now_ms);
        push_item_console(&mut console_list, &items[i]);
        let ghost before = evt_views(assertions@);
        match &items[i] {
            BridgeConsoleItem::Event { payload: BridgePayload::AssertionFailure(a), .. } => {
                assertions.push(copy_assertion_evt(a));
                assert(evt_views(assertions@) =~= before + item_assertions(items@[i as int]));
            },
            _ => {
                assert(evt_views(assertions@) =~= before + item_assertions(items@[i as int]));
            },
        }
        i = i + 1;
    }
    assert(items@.take(items.len() as int) =~= items@);
    (http, assertions, console_list)
}

} // verus!
