//! The tracker's records and the rules by which events change them.
//!
//! The state is two lists: the spans that are still open ("active", at most
//! one per device) and the log of completed spans. Every operation here takes
//! the state as it was read from disk, changes it in memory, and says which of
//! the two files must be written back, and in which order.
use vstd::prelude::*;
use crate::address::BluetoothAddress;
use crate::device::{DeviceInfo, DeviceView};
use crate::search::{
    first_true, last_true, lemma_first_true_at, lemma_first_true_none, lemma_last_true_at,
    lemma_last_true_none,
};
use crate::text::{clone_opt_string, collapse_whitespace, collapsed, from_chars, opt_seq, push_str};
use crate::timestamp::Timestamp;

verus! {

/// Where a battery reading came from.
#[derive(Debug, Clone, Copy, PartialEq, Eq, Structural)]
pub enum BatterySource {
    BluezPropertiesChanged,
    Manual,
}

impl BatterySource {
    /// The stable name of the source, as it is written to disk and shown.
    pub open spec fn spec_name(self) -> Seq<char> {
        match self {
            BatterySource::BluezPropertiesChanged => "bluez-properties-changed"@,
            BatterySource::Manual => "manual"@,
        }
    }

    pub fn name(&self) -> (r: &'static str)
        ensures
            r@ == self.spec_name(),
    {
        match self {
            BatterySource::BluezPropertiesChanged => "bluez-properties-changed",
            BatterySource::Manual => "manual",
        }
    }
}

/// A battery percentage observed at some time.
#[derive(Debug, Clone, Copy, PartialEq, Eq, Structural)]
pub struct BatteryObservation {
    pub observed_at: Timestamp,
    pub percentage: u8,
    pub source: BatterySource,
}

/// A span that has started and not yet ended.
#[derive(Debug, PartialEq, Eq)]
pub struct ActiveState {
    pub device_name: Option<String>,
    pub device_address: BluetoothAddress,
    pub started_at: Timestamp,
    pub start_source: String,
    pub start_note: Option<String>,
    pub end_note: Option<String>,
    pub battery_observations: Vec<BatteryObservation>,
}

/// A completed span.
#[derive(Debug, PartialEq, Eq)]
pub struct SpanRecord {
    pub device_name: Option<String>,
    pub device_address: BluetoothAddress,
    pub started_at: Timestamp,
    pub ended_at: Timestamp,
    pub start_source: String,
    pub end_source: String,
    pub end_uncertain: bool,
    pub start_note: Option<String>,
    pub end_note: Option<String>,
    pub battery_observations: Vec<BatteryObservation>,
}

pub struct ActiveView {
    pub device_name: Option<Seq<char>>,
    pub device_address: Seq<char>,
    pub started_at: Timestamp,
    pub start_source: Seq<char>,
    pub start_note: Option<Seq<char>>,
    pub end_note: Option<Seq<char>>,
    pub battery_observations: Seq<BatteryObservation>,
}

pub struct SpanView {
    pub device_name: Option<Seq<char>>,
    pub device_address: Seq<char>,
    pub started_at: Timestamp,
    pub ended_at: Timestamp,
    pub start_source: Seq<char>,
    pub end_source: Seq<char>,
    pub end_uncertain: bool,
    pub start_note: Option<Seq<char>>,
    pub end_note: Option<Seq<char>>,
    pub battery_observations: Seq<BatteryObservation>,
}

impl View for ActiveState {
    type V = ActiveView;

    open spec fn view(&self) -> ActiveView {
        ActiveView {
            device_name: opt_seq(self.device_name),
            device_address: self.device_address@,
            started_at: self.started_at,
            start_source: self.start_source@,
            start_note: opt_seq(self.start_note),
            end_note: opt_seq(self.end_note),
            battery_observations: self.battery_observations@,
        }
    }
}

impl View for SpanRecord {
    type V = SpanView;

    open spec fn view(&self) -> SpanView {
        SpanView {
            device_name: opt_seq(self.device_name),
            device_address: self.device_address@,
            started_at: self.started_at,
            ended_at: self.ended_at,
            start_source: self.start_source@,
            end_source: self.end_source@,
            end_uncertain: self.end_uncertain,
            start_note: opt_seq(self.start_note),
            end_note: opt_seq(self.end_note),
            battery_observations: self.battery_observations@,
        }
    }
}

fn copy_observations(v: &Vec<BatteryObservation>) -> (r: Vec<BatteryObservation>)
    ensures
        r@ == v@,
{
    let mut r: Vec<BatteryObservation> = Vec::new();
    let n = v.len();
    let mut i: usize = 0;
    while i < n
        invariant
            i <= n,
            n == v@.len(),
            r@ == v@.take(i as int),
        decreases n - i,
    {
        r.push(v[i]);
        assert(v@.take(i + 1) =~= v@.take(i as int).push(v@[i as int]));
        i = i + 1;
    }
    assert(v@.take(n as int) =~= v@);
    r
}

impl Clone for ActiveState {
    fn clone(&self) -> (r: Self)
        ensures
            r@ == self@,
    {
        ActiveState {
            device_name: clone_opt_string(&self.device_name),
            device_address: self.device_address.clone(),
            started_at: self.started_at,
            start_source: self.start_source.clone(),
            start_note: clone_opt_string(&self.start_note),
            end_note: clone_opt_string(&self.end_note),
            battery_observations: copy_observations(&self.battery_observations),
        }
    }
}

impl Clone for SpanRecord {
    fn clone(&self) -> (r: Self)
        ensures
            r@ == self@,
    {
        SpanRecord {
            device_name: clone_opt_string(&self.device_name),
            device_address: self.device_address.clone(),
            started_at: self.started_at,
            ended_at: self.ended_at,
            start_source: self.start_source.clone(),
            end_source: self.end_source.clone(),
            end_uncertain: self.end_uncertain,
            start_note: clone_opt_string(&self.start_note),
            end_note: clone_opt_string(&self.end_note),
            battery_observations: copy_observations(&self.battery_observations),
        }
    }
}

/// Length of a span in whole seconds; a span that ends before it starts
/// counts as zero.
pub open spec fn span_seconds(started_at: Timestamp, ended_at: Timestamp) -> int {
    let s = crate::timestamp::whole_seconds(ended_at.instant() - started_at.instant());
    if s < 0 {
        0
    } else {
        s
    }
}

impl SpanRecord {
    /// The length of the span in whole seconds, never negative.
    pub fn duration_seconds(&self) -> (r: u64)
        ensures
            r == span_seconds(self.started_at, self.ended_at),
            r <= i64::MAX,
    {
        let s = self.ended_at.whole_seconds_since(&self.started_at);
        if s < 0 {
            0
        } else {
            s as u64
        }
    }
}

/// Both lists of the tracker: the active spans and the completed ones.
#[derive(Debug)]
pub struct Store {
    pub actives: Vec<ActiveState>,
    pub spans: Vec<SpanRecord>,
}

pub struct StoreView {
    pub actives: Seq<ActiveView>,
    pub spans: Seq<SpanView>,
}

pub open spec fn actives_view(s: Seq<ActiveState>) -> Seq<ActiveView> {
    s.map_values(|a: ActiveState| a@)
}

pub open spec fn spans_view(s: Seq<SpanRecord>) -> Seq<SpanView> {
    s.map_values(|r: SpanRecord| r@)
}

impl View for Store {
    type V = StoreView;

    open spec fn view(&self) -> StoreView {
        StoreView { actives: actives_view(self.actives@), spans: spans_view(self.spans@) }
    }
}

/// Which files an operation changed, in the order they must be written.
/// When both changed, the span log goes first: should the second write not
/// happen, the next operation on the device finds the span already logged and
/// does not log it twice.
#[derive(Debug, Clone, Copy, PartialEq, Eq, Structural)]
pub enum Persist {
    Nothing,
    Actives,
    Spans,
    SpansThenActives,
}

#[derive(Debug, Clone, Copy, PartialEq, Eq, Structural)]
pub enum ConnectOutcome {
    Started,
    AlreadyActive,
}

#[derive(Debug, PartialEq, Eq)]
pub enum DisconnectOutcome {
    Closed(SpanRecord),
    NoActiveSpan,
}

impl View for DisconnectOutcome {
    type V = Option<SpanView>;

    open spec fn view(&self) -> Option<SpanView> {
        match self {
            DisconnectOutcome::Closed(r) => Some(r@),
            DisconnectOutcome::NoActiveSpan => None,
        }
    }
}

/// Where in the active list the device has its open span, if anywhere.
pub open spec fn first_active(actives: Seq<ActiveView>, address: Seq<char>) -> Option<int> {
    first_true(actives.map_values(|a: ActiveView| a.device_address == address))
}

/// The last completed span of a device.
pub open spec fn last_span_for(spans: Seq<SpanView>, address: Seq<char>) -> Option<int> {
    last_true(spans.map_values(|s: SpanView| s.device_address == address))
}

/// Whether a logged span is the closure of an active span: same device, same
/// starting instant.
pub open spec fn closes(span: SpanView, active: ActiveView) -> bool {
    span.device_address == active.device_address && span.started_at.instant()
        == active.started_at.instant()
}

/// The last logged span that closes the active span: it exists when the span
/// was logged but the active entry was not removed afterwards.
pub open spec fn completed_span(spans: Seq<SpanView>, active: ActiveView) -> Option<int> {
    last_true(spans.map_values(|s: SpanView| closes(s, active)))
}

/// The active entry that a connection starts.
pub open spec fn new_active(device: DeviceView, at: Timestamp, source: Seq<char>) -> ActiveView {
    ActiveView {
        device_name: device.name,
        device_address: device.address,
        started_at: at,
        start_source: source,
        start_note: None,
        end_note: None,
        battery_observations: Seq::empty(),
    }
}

/// The span that a disconnection logs: it keeps what the active entry holds,
/// and the device name that BlueZ reports now, or else the saved one.
pub open spec fn closed_span(
    device: DeviceView,
    active: ActiveView,
    at: Timestamp,
    source: Seq<char>,
    uncertain: bool,
) -> SpanView {
    SpanView {
        device_name: if device.name is Some {
            device.name
        } else {
            active.device_name
        },
        device_address: device.address,
        started_at: active.started_at,
        ended_at: at,
        start_source: active.start_source,
        end_source: source,
        end_uncertain: uncertain,
        start_note: active.start_note,
        end_note: active.end_note,
        battery_observations: active.battery_observations,
    }
}

/// A connection observed: a span starts unless the device has one open.
/// An open span whose closure is already logged (an interrupted close) is
/// dropped and a new one starts.
pub open spec fn connect(store: StoreView, device: DeviceView, at: Timestamp, source: Seq<char>) -> (
    StoreView,
    ConnectOutcome,
) {
    let started = new_active(device, at, source);
    match first_active(store.actives, device.address) {
        None => (StoreView { actives: store.actives.push(started), spans: store.spans }, ConnectOutcome::Started),
        Some(i) => if completed_span(store.spans, store.actives[i]) is Some {
            (
                StoreView { actives: store.actives.remove(i).push(started), spans: store.spans },
                ConnectOutcome::Started,
            )
        } else {
            (store, ConnectOutcome::AlreadyActive)
        },
    }
}

/// A disconnection observed: the device's open span is closed and logged. If
/// its closure is logged already (an interrupted close), only the active
/// entry is dropped and the logged span is the result.
pub open spec fn disconnect(
    store: StoreView,
    device: DeviceView,
    at: Timestamp,
    source: Seq<char>,
    uncertain: bool,
) -> (StoreView, Option<SpanView>, Persist) {
    match first_active(store.actives, device.address) {
        None => (store, None, Persist::Nothing),
        Some(i) => {
            let active = store.actives[i];
            match completed_span(store.spans, active) {
                Some(j) => (
                    StoreView { actives: store.actives.remove(i), spans: store.spans },
                    Some(store.spans[j]),
                    Persist::Actives,
                ),
                None => {
                    let record = closed_span(device, active, at, source, uncertain);
                    (
                        StoreView { actives: store.actives.remove(i), spans: store.spans.push(record) },
                        Some(record),
                        Persist::SpansThenActives,
                    )
                },
            }
        },
    }
}

/// Finds the open span of a device.
pub fn find_active(actives: &Vec<ActiveState>, address: &BluetoothAddress) -> (r: Option<usize>)
    ensures
        match r {
            Some(i) => i < actives@.len() && first_active(actives_view(actives@), address@) == Some(i as int),
            None => first_active(actives_view(actives@), address@) is None,
        },
{
    let ghost bs = actives_view(actives@).map_values(|a: ActiveView| a.device_address == address@);
    let n = actives.len();
    let mut i: usize = 0;
    while i < n
        invariant
            i <= n,
            n == actives@.len(),
            bs.len() == n,
            bs == actives_view(actives@).map_values(|a: ActiveView| a.device_address == address@),
            forall|k: int| 0 <= k < i ==> !bs[k],
        decreases n - i,
    {
        if actives[i].device_address == *address {
            proof {
                lemma_first_true_at(bs, i as int);
            }
            return Some(i);
        }
        i = i + 1;
    }
    proof {
        lemma_first_true_none(bs);
    }
    None
}

/// Finds the last completed span of a device.
pub fn find_last_span(spans: &Vec<SpanRecord>, address: &BluetoothAddress) -> (r: Option<usize>)
    ensures
        match r {
            Some(j) => j < spans@.len() && last_span_for(spans_view(spans@), address@) == Some(j as int),
            None => last_span_for(spans_view(spans@), address@) is None,
        },
{
    let ghost bs = spans_view(spans@).map_values(|s: SpanView| s.device_address == address@);
    let n = spans.len();
    let mut j: usize = n;
    while j > 0
        invariant
            j <= n,
            n == spans@.len(),
            bs.len() == n,
            bs == spans_view(spans@).map_values(|s: SpanView| s.device_address == address@),
            forall|k: int| j <= k < n ==> !bs[k],
        decreases j,
    {
        if spans[j - 1].device_address == *address {
            proof {
                lemma_last_true_at(bs, j - 1);
            }
            return Some(j - 1);
        }
        j = j - 1;
    }
    proof {
        lemma_last_true_none(bs);
    }
    None
}

/// Finds the logged closure of an active span.
pub fn completed_span_for_active(spans: &Vec<SpanRecord>, active: &ActiveState) -> (r: Option<
    usize,
>)
    ensures
        match r {
            Some(j) => j < spans@.len() && completed_span(spans_view(spans@), active@) == Some(j as int),
            None => completed_span(spans_view(spans@), active@) is None,
        },
{
    let ghost bs = spans_view(spans@).map_values(|s: SpanView| closes(s, active@));
    let n = spans.len();
    let mut j: usize = n;
    while j > 0
        invariant
            j <= n,
            n == spans@.len(),
            bs.len() == n,
            bs == spans_view(spans@).map_values(|s: SpanView| closes(s, active@)),
            forall|k: int| j <= k < n ==> !bs[k],
        decreases j,
    {
        let span = &spans[j - 1];
        if span.device_address == active.device_address && span.started_at.same_instant(
            &active.started_at,
        ) {
            proof {
                lemma_last_true_at(bs, j - 1);
            }
            return Some(j - 1);
        }
        j = j - 1;
    }
    proof {
        lemma_last_true_none(bs);
    }
    None
}

/// Records that a device was seen connected at `started_at`. On `Started`
/// the active list changed and must be written; otherwise nothing changed.
pub fn mark_connected(
    store: &mut Store,
    device: &DeviceInfo,
    started_at: Timestamp,
    source: &str,
) -> (r: ConnectOutcome)
    ensures
        (final(store)@, r) == connect(old(store)@, device@, started_at, source@),
{
    let ghost pre = store@;
    if let Some(index) = find_active(&store.actives, &device.address) {
        match completed_span_for_active(&store.spans, &store.actives[index]) {
            Some(_) => {
                store.actives.remove(index);
            },
            None => {
                return ConnectOutcome::AlreadyActive;
            },
        }
    }
    let ghost mid = store.actives@;
    store.actives.push(
        ActiveState {
            device_address: device.address.clone(),
            device_name: clone_opt_string(&device.name),
            started_at,
            start_source: String::from_str(source),
            start_note: None,
            end_note: None,
            battery_observations: Vec::new(),
        },
    );
    proof {
        let post = connect(pre, device@, started_at, source@).0;
        assert(actives_view(store.actives@) =~= post.actives);
        assert(spans_view(store.spans@) =~= post.spans);
    }
    ConnectOutcome::Started
}

/// Records that a device was seen disconnected at `ended_at`, closing its
/// open span.
pub fn mark_disconnected(
    store: &mut Store,
    device: &DeviceInfo,
    ended_at: Timestamp,
    source: &str,
    end_uncertain: bool,
) -> (r: (DisconnectOutcome, Persist))
    ensures
        (final(store)@, r.0@, r.1) == disconnect(
            old(store)@,
            device@,
            ended_at,
            source@,
            end_uncertain,
        ),
{
    let ghost pre = store@;
    let index = match find_active(&store.actives, &device.address) {
        Some(index) => index,
        None => {
            return (DisconnectOutcome::NoActiveSpan, Persist::Nothing);
        },
    };
    let active = store.actives.remove(index);
    proof {
        assert(active@ == pre.actives[index as int]);
        assert(actives_view(store.actives@) =~= pre.actives.remove(index as int));
    }
    if let Some(j) = completed_span_for_active(&store.spans, &active) {
        let record = store.spans[j].clone();
        return (DisconnectOutcome::Closed(record), Persist::Actives);
    }
    let record = SpanRecord {
        device_address: device.address.clone(),
        device_name: match clone_opt_string(&device.name) {
            Some(name) => Some(name),
            None => active.device_name,
        },
        started_at: active.started_at,
        ended_at,
        start_source: active.start_source,
        end_source: String::from_str(source),
        end_uncertain,
        start_note: active.start_note,
        end_note: active.end_note,
        battery_observations: active.battery_observations,
    };
    store.spans.push(record.clone());
    proof {
        let post = disconnect(pre, device@, ended_at, source@, end_uncertain);
        assert(spans_view(store.spans@) =~= post.0.spans);
        assert(record@ == post.1.unwrap());
    }
    (DisconnectOutcome::Closed(record), Persist::SpansThenActives)
}


/// Whether the operation changed the span log.
pub open spec fn writes_spans(p: Persist) -> bool {
    p == Persist::Spans || p == Persist::SpansThenActives
}

/// Whether the operation changed the active list.
pub open spec fn writes_actives(p: Persist) -> bool {
    p == Persist::Actives || p == Persist::SpansThenActives
}

/// The files to write after two operations: each file that either changed.
pub open spec fn persist_union(a: Persist, b: Persist) -> Persist {
    let spans = writes_spans(a) || writes_spans(b);
    let actives = writes_actives(a) || writes_actives(b);
    if spans && actives {
        Persist::SpansThenActives
    } else if spans {
        Persist::Spans
    } else if actives {
        Persist::Actives
    } else {
        Persist::Nothing
    }
}

/// Which files to write after two operations, one after the other.
pub fn union_persist(a: Persist, b: Persist) -> (r: Persist)
    ensures
        r == persist_union(a, b),
{
    let spans = matches!(a, Persist::Spans | Persist::SpansThenActives) || matches!(b, Persist::Spans | Persist::SpansThenActives);
    let actives = matches!(a, Persist::Actives | Persist::SpansThenActives) || matches!(b, Persist::Actives | Persist::SpansThenActives);
    if spans && actives {
        Persist::SpansThenActives
    } else if spans {
        Persist::Spans
    } else if actives {
        Persist::Actives
    } else {
        Persist::Nothing
    }
}

/// Disconnections of the devices, in order, all at `at` from the same source:
/// the lists afterwards, and the files that changed.
pub open spec fn close_all(
    store: StoreView,
    devices: Seq<DeviceView>,
    at: Timestamp,
    source: Seq<char>,
    uncertain: bool,
) -> (StoreView, Persist)
    decreases devices.len(),
{
    if devices.len() == 0 {
        (store, Persist::Nothing)
    } else {
        let (before, p) = close_all(store, devices.drop_last(), at, source, uncertain);
        let (after, _, q) = disconnect(before, devices.last(), at, source, uncertain);
        (after, persist_union(p, q))
    }
}

/// The longest note accepted, in characters.
pub const MAX_NOTE_CHARS: usize = 200;

/// Which end of a span a note describes.
#[derive(Debug, Clone, Copy, PartialEq, Eq, Structural)]
pub enum SpanBoundary {
    Start,
    End,
}

impl SpanBoundary {
    pub open spec fn spec_label(self) -> Seq<char> {
        match self {
            SpanBoundary::Start => "start"@,
            SpanBoundary::End => "end"@,
        }
    }

    pub fn label(self) -> (r: &'static str)
        ensures
            r@ == self.spec_label(),
    {
        match self {
            SpanBoundary::Start => "start",
            SpanBoundary::End => "end",
        }
    }
}

/// Which span a battery reading was recorded on.
#[derive(Debug, Clone, PartialEq, Eq)]
pub enum BatteryOutcome {
    ActiveSpan(BluetoothAddress),
    LatestSpan(BluetoothAddress),
}

/// Which span a note was recorded on.
#[derive(Debug, Clone, PartialEq, Eq)]
pub enum NoteOutcome {
    ActiveSpan(BluetoothAddress),
    LatestSpan(BluetoothAddress),
}

/// Why a battery reading could not be recorded.
#[derive(Debug, Clone, PartialEq, Eq)]
pub enum BatteryError {
    /// No address was given and more than one span is open.
    MultipleActiveSpans,
    /// No span, open or completed, for the address (or at all).
    NoSpans(Option<BluetoothAddress>),
}

/// Why a note could not be recorded.
#[derive(Debug, Clone, PartialEq, Eq)]
pub enum NoteError {
    /// The note holds nothing but white space.
    Empty,
    /// The note is longer than `MAX_NOTE_CHARS` characters.
    TooLong,
    /// No address was given and more than one span is open.
    MultipleActiveSpans,
    /// No span, open or completed, for the address (or at all).
    NoSpans(Option<BluetoothAddress>),
}

impl BatteryError {
    /// The text that describes the error.
    pub fn message(&self) -> (r: String)
        ensures
            r@ == match self {
                BatteryError::MultipleActiveSpans =>
                    "multiple active spans; specify an address to record a battery level"@,
                BatteryError::NoSpans(Some(a)) => "no active or completed spans for "@ + a@
                    + " to record a battery level"@,
                BatteryError::NoSpans(None) =>
                    "no active or completed spans to record a battery level"@,
            },
    {
        match self {
            BatteryError::MultipleActiveSpans => String::from_str(
                "multiple active spans; specify an address to record a battery level",
            ),
            BatteryError::NoSpans(Some(a)) => {
                let mut out: Vec<char> = Vec::new();
                push_str(&mut out, "no active or completed spans for ");
                push_str(&mut out, a.as_str());
                push_str(&mut out, " to record a battery level");
                from_chars(out.as_slice())
            },
            BatteryError::NoSpans(None) => String::from_str(
                "no active or completed spans to record a battery level",
            ),
        }
    }
}

impl NoteError {
    /// The text that describes the error.
    pub fn message(&self) -> (r: String)
        ensures
            r@ == match self {
                NoteError::Empty => "note cannot be empty"@,
                NoteError::TooLong => "note must be 200 characters or fewer"@,
                NoteError::MultipleActiveSpans =>
                    "multiple active spans; specify an address to add a note"@,
                NoteError::NoSpans(Some(a)) => "no active or completed spans for "@ + a@
                    + " to annotate"@,
                NoteError::NoSpans(None) => "no active or completed spans to annotate"@,
            },
    {
        match self {
            NoteError::Empty => String::from_str("note cannot be empty"),
            NoteError::TooLong => String::from_str("note must be 200 characters or fewer"),
            NoteError::MultipleActiveSpans => String::from_str(
                "multiple active spans; specify an address to add a note",
            ),
            NoteError::NoSpans(Some(a)) => {
                let mut out: Vec<char> = Vec::new();
                push_str(&mut out, "no active or completed spans for ");
                push_str(&mut out, a.as_str());
                push_str(&mut out, " to annotate");
                from_chars(out.as_slice())
            },
            NoteError::NoSpans(None) => String::from_str("no active or completed spans to annotate"),
        }
    }
}

pub open spec fn address_opt(a: Option<&BluetoothAddress>) -> Option<Seq<char>> {
    match a {
        Some(a) => Some(a@),
        None => None,
    }
}

pub open spec fn owned_address_opt(a: Option<BluetoothAddress>) -> Option<Seq<char>> {
    match a {
        Some(a) => Some(a@),
        None => None,
    }
}

/// The span that a battery reading or a note without a given span goes to.
pub enum Selection {
    /// No address was given and more than one span is open.
    Multiple,
    /// There is no span to use.
    Nothing,
    /// The open span at this index.
    Active(int),
    /// The completed span at this index.
    Span(int),
}

/// With an address: the device's open span, else its latest completed span.
/// Without: the only open span; none open, the latest completed span of any
/// device; several open, none (the caller must name the device).
pub open spec fn selection(store: StoreView, address: Option<Seq<char>>) -> Selection {
    match address {
        Some(a) => match first_active(store.actives, a) {
            Some(i) => Selection::Active(i),
            None => match last_span_for(store.spans, a) {
                Some(j) => Selection::Span(j),
                None => Selection::Nothing,
            },
        },
        None => if store.actives.len() == 1 {
            Selection::Active(0)
        } else if store.actives.len() > 1 {
            Selection::Multiple
        } else if store.spans.len() > 0 {
            Selection::Span(store.spans.len() - 1)
        } else {
            Selection::Nothing
        },
    }
}

enum Choice {
    Multiple,
    Nothing,
    Active(usize),
    Span(usize),
}

spec fn choice_is(c: Choice, s: Selection) -> bool {
    match (c, s) {
        (Choice::Multiple, Selection::Multiple) => true,
        (Choice::Nothing, Selection::Nothing) => true,
        (Choice::Active(i), Selection::Active(j)) => i == j,
        (Choice::Span(i), Selection::Span(j)) => i == j,
        _ => false,
    }
}

fn select(store: &Store, address: Option<&BluetoothAddress>) -> (r: Choice)
    ensures
        choice_is(r, selection(store@, address_opt(address))),
        r matches Choice::Active(i) ==> i < store.actives@.len(),
        r matches Choice::Span(j) ==> j < store.spans@.len(),
{
    match address {
        Some(a) => match find_active(&store.actives, a) {
            Some(i) => Choice::Active(i),
            None => match find_last_span(&store.spans, a) {
                Some(j) => Choice::Span(j),
                None => Choice::Nothing,
            },
        },
        None => {
            if store.actives.len() == 1 {
                Choice::Active(0)
            } else if store.actives.len() > 1 {
                Choice::Multiple
            } else if store.spans.len() > 0 {
                Choice::Span(store.spans.len() - 1)
            } else {
                Choice::Nothing
            }
        },
    }
}

pub open spec fn active_with_observation(a: ActiveView, o: BatteryObservation) -> ActiveView {
    ActiveView { battery_observations: a.battery_observations.push(o), ..a }
}

pub open spec fn span_with_observation(s: SpanView, o: BatteryObservation) -> SpanView {
    SpanView { battery_observations: s.battery_observations.push(o), ..s }
}

pub open spec fn active_with_note(a: ActiveView, boundary: SpanBoundary, note: Seq<char>) -> ActiveView {
    match boundary {
        SpanBoundary::Start => ActiveView { start_note: Some(note), ..a },
        SpanBoundary::End => ActiveView { end_note: Some(note), ..a },
    }
}

pub open spec fn span_with_note(s: SpanView, boundary: SpanBoundary, note: Seq<char>) -> SpanView {
    match boundary {
        SpanBoundary::Start => SpanView { start_note: Some(note), ..s },
        SpanBoundary::End => SpanView { end_note: Some(note), ..s },
    }
}

/// The lists after a battery reading is added to the selected span (unchanged
/// when no span is selected).
pub open spec fn with_reading(store: StoreView, sel: Selection, o: BatteryObservation) -> StoreView {
    match sel {
        Selection::Active(i) => StoreView {
            actives: store.actives.update(i, active_with_observation(store.actives[i], o)),
            spans: store.spans,
        },
        Selection::Span(j) => StoreView {
            actives: store.actives,
            spans: store.spans.update(j, span_with_observation(store.spans[j], o)),
        },
        _ => store,
    }
}

/// The lists after a note is set on the selected span (unchanged when no span
/// is selected).
pub open spec fn with_note(
    store: StoreView,
    sel: Selection,
    boundary: SpanBoundary,
    note: Seq<char>,
) -> StoreView {
    match sel {
        Selection::Active(i) => StoreView {
            actives: store.actives.update(i, active_with_note(store.actives[i], boundary, note)),
            spans: store.spans,
        },
        Selection::Span(j) => StoreView {
            actives: store.actives,
            spans: store.spans.update(j, span_with_note(store.spans[j], boundary, note)),
        },
        _ => store,
    }
}

/// Records a battery reading on the span chosen by `selection`.
pub fn record_battery_observation(
    store: &mut Store,
    address: Option<&BluetoothAddress>,
    observation: BatteryObservation,
) -> (r: Result<(BatteryOutcome, Persist), BatteryError>)
    ensures
        final(store)@ == with_reading(old(store)@, selection(old(store)@, address_opt(address)), observation),
        match selection(old(store)@, address_opt(address)) {
            Selection::Multiple => r matches Err(BatteryError::MultipleActiveSpans) && final(store)@
                == old(store)@,
            Selection::Nothing => r matches Err(BatteryError::NoSpans(a)) && owned_address_opt(a)
                == address_opt(address) && final(store)@ == old(store)@,
            Selection::Active(i) => r matches Ok((BatteryOutcome::ActiveSpan(a), p)) && p
                == Persist::Actives && a@ == old(store)@.actives[i].device_address && final(store)@
                == (StoreView {
                actives: old(store)@.actives.update(
                    i,
                    active_with_observation(old(store)@.actives[i], observation),
                ),
                spans: old(store)@.spans,
            }),
            Selection::Span(j) => r matches Ok((BatteryOutcome::LatestSpan(a), p)) && p
                == Persist::Spans && a@ == old(store)@.spans[j].device_address && final(store)@
                == (StoreView {
                actives: old(store)@.actives,
                spans: old(store)@.spans.update(
                    j,
                    span_with_observation(old(store)@.spans[j], observation),
                ),
            }),
        },
{
    let ghost pre = store@;
    match select(store, address) {
        Choice::Multiple => Err(BatteryError::MultipleActiveSpans),
        Choice::Nothing => Err(
            BatteryError::NoSpans(
                match address {
                    Some(a) => Some(a.clone()),
                    None => None,
                },
            ),
        ),
        Choice::Active(i) => {
            let mut active = store.actives.remove(i);
            let selected = active.device_address.clone();
            active.battery_observations.push(observation);
            store.actives.insert(i, active);
            proof {
                assert(actives_view(store.actives@) =~= pre.actives.update(
                    i as int,
                    active_with_observation(pre.actives[i as int], observation),
                ));
            }
            Ok((BatteryOutcome::ActiveSpan(selected), Persist::Actives))
        },
        Choice::Span(j) => {
            let mut span = store.spans.remove(j);
            let selected = span.device_address.clone();
            span.battery_observations.push(observation);
            store.spans.insert(j, span);
            proof {
                assert(spans_view(store.spans@) =~= pre.spans.update(
                    j as int,
                    span_with_observation(pre.spans[j as int], observation),
                ));
            }
            Ok((BatteryOutcome::LatestSpan(selected), Persist::Spans))
        },
    }
}

/// Records a battery percentage given by hand.
pub fn record_manual_battery(
    store: &mut Store,
    address: Option<&BluetoothAddress>,
    percentage: u8,
    observed_at: Timestamp,
) -> (r: Result<(BatteryOutcome, Persist), BatteryError>)
    ensures
        ({
            let observation = BatteryObservation {
                observed_at,
                percentage,
                source: BatterySource::Manual,
            };
            &&& final(store)@ == with_reading(
                old(store)@,
                selection(old(store)@, address_opt(address)),
                observation,
            )
            &&& match selection(old(store)@, address_opt(address)) {
                Selection::Multiple => r matches Err(BatteryError::MultipleActiveSpans)
                    && final(store)@ == old(store)@,
                Selection::Nothing => r matches Err(BatteryError::NoSpans(a)) && owned_address_opt(a)
                    == address_opt(address) && final(store)@ == old(store)@,
                Selection::Active(i) => r matches Ok((BatteryOutcome::ActiveSpan(a), p)) && p
                    == Persist::Actives && a@ == old(store)@.actives[i].device_address
                    && final(store)@ == (StoreView {
                    actives: old(store)@.actives.update(
                        i,
                        active_with_observation(old(store)@.actives[i], observation),
                    ),
                    spans: old(store)@.spans,
                }),
                Selection::Span(j) => r matches Ok((BatteryOutcome::LatestSpan(a), p)) && p
                    == Persist::Spans && a@ == old(store)@.spans[j].device_address && final(store)@
                    == (StoreView {
                    actives: old(store)@.actives,
                    spans: old(store)@.spans.update(
                        j,
                        span_with_observation(old(store)@.spans[j], observation),
                    ),
                }),
            }
        }),
{
    let observation = BatteryObservation { observed_at, percentage, source: BatterySource::Manual };
    record_battery_observation(store, address, observation)
}

/// The note as it is stored: white space collapsed.
pub open spec fn note_text(note: Seq<char>) -> Seq<char> {
    collapsed(note)
}

/// Collapses the white space of a note and checks its length.
pub fn normalize_note(note: &str) -> (r: Result<String, NoteError>)
    ensures
        note_text(note@).len() == 0 ==> r matches Err(NoteError::Empty),
        note_text(note@).len() > MAX_NOTE_CHARS ==> r matches Err(NoteError::TooLong),
        0 < note_text(note@).len() <= MAX_NOTE_CHARS ==> (r matches Ok(n) && n@ == note_text(
            note@,
        )),
{
    let chars = collapse_whitespace(note);
    if chars.len() == 0 {
        return Err(NoteError::Empty);
    }
    if chars.len() > MAX_NOTE_CHARS {
        return Err(NoteError::TooLong);
    }
    Ok(from_chars(chars.as_slice()))
}

/// Adds a note to the span chosen by `selection`, replacing the note that was
/// there at that end.
pub fn set_span_note(
    store: &mut Store,
    address: Option<&BluetoothAddress>,
    boundary: SpanBoundary,
    note: &str,
) -> (r: Result<(NoteOutcome, Persist), NoteError>)
    ensures
        note_text(note@).len() == 0 ==> (r matches Err(NoteError::Empty) && final(store)@ == old(
            store,
        )@),
        note_text(note@).len() > MAX_NOTE_CHARS ==> (r matches Err(NoteError::TooLong)
            && final(store)@ == old(store)@),
        0 < note_text(note@).len() <= MAX_NOTE_CHARS ==> final(store)@ == with_note(
            old(store)@,
            selection(old(store)@, address_opt(address)),
            boundary,
            note_text(note@),
        ),
        0 < note_text(note@).len() <= MAX_NOTE_CHARS ==> ({
            let text = note_text(note@);
            match selection(old(store)@, address_opt(address)) {
                Selection::Multiple => r matches Err(NoteError::MultipleActiveSpans)
                    && final(store)@ == old(store)@,
                Selection::Nothing => r matches Err(NoteError::NoSpans(a)) && owned_address_opt(a)
                    == address_opt(address) && final(store)@ == old(store)@,
                Selection::Active(i) => r matches Ok((NoteOutcome::ActiveSpan(a), p)) && p
                    == Persist::Actives && a@ == old(store)@.actives[i].device_address
                    && final(store)@ == (StoreView {
                    actives: old(store)@.actives.update(
                        i,
                        active_with_note(old(store)@.actives[i], boundary, text),
                    ),
                    spans: old(store)@.spans,
                }),
                Selection::Span(j) => r matches Ok((NoteOutcome::LatestSpan(a), p)) && p
                    == Persist::Spans && a@ == old(store)@.spans[j].device_address && final(store)@
                    == (StoreView {
                    actives: old(store)@.actives,
                    spans: old(store)@.spans.update(
                        j,
                        span_with_note(old(store)@.spans[j], boundary, text),
                    ),
                }),
            }
        }),
{
    let ghost pre = store@;
    let ghost text = note_text(note@);
    let note = match normalize_note(note) {
        Ok(n) => n,
        Err(e) => {
            return Err(e);
        },
    };
    match select(store, address) {
        Choice::Multiple => Err(NoteError::MultipleActiveSpans),
        Choice::Nothing => Err(
            NoteError::NoSpans(
                match address {
                    Some(a) => Some(a.clone()),
                    None => None,
                },
            ),
        ),
        Choice::Active(i) => {
            let mut active = store.actives.remove(i);
            let selected = active.device_address.clone();
            match boundary {
                SpanBoundary::Start => {
                    active.start_note = Some(note);
                },
                SpanBoundary::End => {
                    active.end_note = Some(note);
                },
            }
            store.actives.insert(i, active);
            proof {
                assert(actives_view(store.actives@) =~= pre.actives.update(
                    i as int,
                    active_with_note(pre.actives[i as int], boundary, text),
                ));
            }
            Ok((NoteOutcome::ActiveSpan(selected), Persist::Actives))
        },
        Choice::Span(j) => {
            let mut span = store.spans.remove(j);
            let selected = span.device_address.clone();
            match boundary {
                SpanBoundary::Start => {
                    span.start_note = Some(note);
                },
                SpanBoundary::End => {
                    span.end_note = Some(note);
                },
            }
            store.spans.insert(j, span);
            proof {
                assert(spans_view(store.spans@) =~= pre.spans.update(
                    j as int,
                    span_with_note(pre.spans[j as int], boundary, text),
                ));
            }
            Ok((NoteOutcome::LatestSpan(selected), Persist::Spans))
        },
    }
}

} // verus!
