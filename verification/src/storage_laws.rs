//! Properties of the storage rules that hold across operations.
use vstd::prelude::*;
use crate::device::DeviceView;
use crate::search::{first_true, last_true, lemma_first_true, lemma_first_true_at, lemma_last_true};
use crate::storage::{
    ActiveView, BatteryObservation, close_all, ConnectOutcome, Persist, Selection, SpanBoundary, SpanView,
    StoreView, active_with_note, active_with_observation, closed_span, closes, completed_span,
    connect, disconnect, first_active, new_active, note_text, selection, with_note,
    with_reading,
};
use crate::text::lemma_collapsed_stable;
use crate::timestamp::Timestamp;

verus! {

/// No two open spans belong to the same device.
pub open spec fn one_active_per_device(actives: Seq<ActiveView>) -> bool {
    forall|i: int, j: int|
        0 <= i < j < actives.len() ==> actives[i].device_address != actives[j].device_address
}

/// The state that remains when a close wrote the span log and stopped before
/// it rewrote the active list.
pub open spec fn interrupted(before: StoreView, after: StoreView) -> StoreView {
    StoreView { actives: before.actives, spans: after.spans }
}

proof fn lemma_first_active(actives: Seq<ActiveView>, address: Seq<char>)
    ensures
        match first_active(actives, address) {
            Some(i) => 0 <= i < actives.len() && actives[i].device_address == address && forall|
                k: int,
            | 0 <= k < i ==> actives[k].device_address != address,
            None => forall|k: int| 0 <= k < actives.len() ==> actives[k].device_address != address,
        },
{
    let bs = actives.map_values(|a: ActiveView| a.device_address == address);
    lemma_first_true(bs);
    assert forall|k: int| 0 <= k < actives.len() implies bs[k] == (actives[k].device_address
        == address) by {}
    match first_true(bs) {
        Some(i) => {
            assert(bs[i]);
            assert forall|k: int| 0 <= k < i implies actives[k].device_address != address by {
                assert(!bs[k]);
            }
        },
        None => {
            assert forall|k: int| 0 <= k < actives.len() implies actives[k].device_address
                != address by {
                assert(!bs[k]);
            }
        },
    }
}

proof fn lemma_completed_after_push(spans: Seq<SpanView>, record: SpanView, active: ActiveView)
    requires
        closes(record, active),
    ensures
        completed_span(spans.push(record), active) == Some(spans.len() as int),
{
    let bs = spans.push(record).map_values(|s: SpanView| closes(s, active));
    assert(bs.last() == closes(record, active));
}

/// Retrying a close that was interrupted after the span was logged drops the
/// open span and gives back the logged span, without logging it twice.
pub proof fn lemma_retry_interrupted_close(
    store: StoreView,
    device: DeviceView,
    at: Timestamp,
    source: Seq<char>,
    uncertain: bool,
    retry_at: Timestamp,
    retry_source: Seq<char>,
    retry_uncertain: bool,
)
    requires
        disconnect(store, device, at, source, uncertain).2 == Persist::SpansThenActives,
    ensures
        ({
            let (after, record, _) = disconnect(store, device, at, source, uncertain);
            disconnect(
                interrupted(store, after),
                device,
                retry_at,
                retry_source,
                retry_uncertain,
            ) == (after, record, Persist::Actives)
        }),
{
    lemma_first_active(store.actives, device.address);
    let i = first_active(store.actives, device.address).unwrap();
    let active = store.actives[i];
    let record = closed_span(device, active, at, source, uncertain);
    lemma_completed_after_push(store.spans, record, active);
}

/// After an interrupted close, the next connection of the device starts a
/// new span and the logged span stays logged once.
pub proof fn lemma_connect_after_interrupted_close(
    store: StoreView,
    device: DeviceView,
    at: Timestamp,
    source: Seq<char>,
    uncertain: bool,
    reconnected: DeviceView,
    start_at: Timestamp,
    start_source: Seq<char>,
)
    requires
        disconnect(store, device, at, source, uncertain).2 == Persist::SpansThenActives,
        reconnected.address == device.address,
    ensures
        ({
            let (after, _, _) = disconnect(store, device, at, source, uncertain);
            connect(interrupted(store, after), reconnected, start_at, start_source) == (
                StoreView {
                    actives: after.actives.push(new_active(reconnected, start_at, start_source)),
                    spans: after.spans,
                },
                ConnectOutcome::Started,
            )
        }),
{
    lemma_first_active(store.actives, device.address);
    let i = first_active(store.actives, device.address).unwrap();
    let active = store.actives[i];
    let record = closed_span(device, active, at, source, uncertain);
    lemma_completed_after_push(store.spans, record, active);
}

/// A device that had no open span, connected and then disconnected, leaves
/// the open spans as they were and logs one span from the connection to the
/// disconnection (unless a span of the device starting at that very instant
/// was logged already).
pub proof fn lemma_connect_then_disconnect(
    store: StoreView,
    device: DeviceView,
    start_at: Timestamp,
    start_source: Seq<char>,
    end_at: Timestamp,
    end_source: Seq<char>,
    uncertain: bool,
)
    requires
        first_active(store.actives, device.address) is None,
        completed_span(store.spans, new_active(device, start_at, start_source)) is None,
    ensures
        ({
            let (connected, outcome) = connect(store, device, start_at, start_source);
            let (after, record, persist) = disconnect(
                connected,
                device,
                end_at,
                end_source,
                uncertain,
            );
            &&& outcome == ConnectOutcome::Started
            &&& persist == Persist::SpansThenActives
            &&& after.actives == store.actives
            &&& record is Some
            &&& after.spans == store.spans.push(record.unwrap())
            &&& ({
                let r = record.unwrap();
                r.device_address == device.address && r.started_at == start_at && r.ended_at
                == end_at && r.start_source == start_source && r.end_source == end_source
                    && r.end_uncertain == uncertain && r.start_note is None && r.end_note is None
                    && r.battery_observations.len() == 0
            })
        }),
{
    let started = new_active(device, start_at, start_source);
    let actives = store.actives.push(started);
    lemma_first_active(store.actives, device.address);
    let bs = actives.map_values(|a: ActiveView| a.device_address == device.address);
    assert forall|k: int| 0 <= k < store.actives.len() implies !bs[k] by {
        assert(actives[k] == store.actives[k]);
    }
    lemma_first_true_at(bs, store.actives.len() as int);
    assert(actives.remove(store.actives.len() as int) =~= store.actives);
}

/// Opening spans never gives a device two of them.
pub proof fn lemma_connect_keeps_one_active_per_device(
    store: StoreView,
    device: DeviceView,
    at: Timestamp,
    source: Seq<char>,
)
    requires
        one_active_per_device(store.actives),
    ensures
        one_active_per_device(connect(store, device, at, source).0.actives),
{
    lemma_first_active(store.actives, device.address);
    let started = new_active(device, at, source);
    let post = connect(store, device, at, source).0.actives;
    match first_active(store.actives, device.address) {
        None => {
            assert forall|i: int, j: int| 0 <= i < j < post.len() implies post[i].device_address
                != post[j].device_address by {
                if j == store.actives.len() {
                    assert(post[i] == store.actives[i]);
                } else {
                    assert(post[i] == store.actives[i]);
                    assert(post[j] == store.actives[j]);
                }
            }
        },
        Some(x) => {
            if completed_span(store.spans, store.actives[x]) is Some {
                let removed = store.actives.remove(x);
                assert forall|i: int, j: int| 0 <= i < j < post.len() implies post[i].device_address
                    != post[j].device_address by {
                    let oi = if i < x { i } else { i + 1 };
                    assert(post[i] == store.actives[oi]);
                    if j == removed.len() {
                        assert(oi != x);
                        if oi < x {
                        } else {
                            assert(store.actives[x].device_address == device.address);
                        }
                    } else {
                        let oj = if j < x { j } else { j + 1 };
                        assert(post[j] == store.actives[oj]);
                    }
                }
            }
        },
    }
}

/// Closing spans never gives a device two open spans.
pub proof fn lemma_disconnect_keeps_one_active_per_device(
    store: StoreView,
    device: DeviceView,
    at: Timestamp,
    source: Seq<char>,
    uncertain: bool,
)
    requires
        one_active_per_device(store.actives),
    ensures
        one_active_per_device(disconnect(store, device, at, source, uncertain).0.actives),
{
    let post = disconnect(store, device, at, source, uncertain).0.actives;
    if let Some(x) = first_active(store.actives, device.address) {
        lemma_first_active(store.actives, device.address);
        assert forall|i: int, j: int| 0 <= i < j < post.len() implies post[i].device_address
            != post[j].device_address by {
            let oi = if i < x { i } else { i + 1 };
            let oj = if j < x { j } else { j + 1 };
            assert(post[i] == store.actives[oi]);
            assert(post[j] == store.actives[oj]);
        }
    }
}

/// The open spans of other devices are left as they were by a connection.
pub proof fn lemma_connect_leaves_other_devices(
    store: StoreView,
    device: DeviceView,
    at: Timestamp,
    source: Seq<char>,
    other: ActiveView,
)
    requires
        other.device_address != device.address,
    ensures
        store.actives.contains(other) <==> connect(store, device, at, source).0.actives.contains(
            other,
        ),
{
    lemma_first_active(store.actives, device.address);
    let post = connect(store, device, at, source).0.actives;
    let started = new_active(device, at, source);
    match first_active(store.actives, device.address) {
        None => {
            if store.actives.contains(other) {
                let k = choose|k: int| 0 <= k < store.actives.len() && store.actives[k] == other;
                assert(post[k] == other);
            }
            if post.contains(other) {
                let k = choose|k: int| 0 <= k < post.len() && post[k] == other;
                assert(k < store.actives.len());
                assert(store.actives[k] == other);
            }
        },
        Some(x) => {
            if completed_span(store.spans, store.actives[x]) is Some {
                let removed = store.actives.remove(x);
                if store.actives.contains(other) {
                    let k = choose|k: int| 0 <= k < store.actives.len() && store.actives[k] == other;
                    assert(k != x);
                    let pk = if k < x { k } else { k - 1 };
                    assert(post[pk] == other);
                }
                if post.contains(other) {
                    let k = choose|k: int| 0 <= k < post.len() && post[k] == other;
                    assert(k < removed.len());
                    let ok = if k < x { k } else { k + 1 };
                    assert(store.actives[ok] == other);
                }
            }
        },
    }
}

/// The open spans of other devices are left as they were by a disconnection.
pub proof fn lemma_disconnect_leaves_other_devices(
    store: StoreView,
    device: DeviceView,
    at: Timestamp,
    source: Seq<char>,
    uncertain: bool,
    other: ActiveView,
)
    requires
        other.device_address != device.address,
    ensures
        store.actives.contains(other) <==> disconnect(
            store,
            device,
            at,
            source,
            uncertain,
        ).0.actives.contains(other),
{
    lemma_first_active(store.actives, device.address);
    let post = disconnect(store, device, at, source, uncertain).0.actives;
    if let Some(x) = first_active(store.actives, device.address) {
        if store.actives.contains(other) {
            let k = choose|k: int| 0 <= k < store.actives.len() && store.actives[k] == other;
            assert(k != x);
            let pk = if k < x { k } else { k - 1 };
            assert(post[pk] == other);
        }
        if post.contains(other) {
            let k = choose|k: int| 0 <= k < post.len() && post[k] == other;
            let ok = if k < x { k } else { k + 1 };
            assert(store.actives[ok] == other);
        }
    }
}

/// Connections and disconnections never drop or alter a logged span: the old
/// log is a prefix of the new one, longer by at most one span.
pub proof fn lemma_span_log_only_grows(
    store: StoreView,
    device: DeviceView,
    at: Timestamp,
    source: Seq<char>,
    uncertain: bool,
)
    ensures
        connect(store, device, at, source).0.spans == store.spans,
        ({
            let spans = disconnect(store, device, at, source, uncertain).0.spans;
            spans == store.spans || exists|r: SpanView| spans == store.spans.push(r)
        }),
{
    let (after, record, _) = disconnect(store, device, at, source, uncertain);
    if after.spans != store.spans {
        assert(after.spans == store.spans.push(record.unwrap()));
    }
}

/// A device seen disconnected never gets an open span: closing keeps only
/// open spans that were there before.
pub proof fn lemma_disconnect_opens_no_span(
    store: StoreView,
    device: DeviceView,
    at: Timestamp,
    source: Seq<char>,
    uncertain: bool,
    active: ActiveView,
)
    ensures
        disconnect(store, device, at, source, uncertain).0.actives.contains(active)
            ==> store.actives.contains(active),
{
    let post = disconnect(store, device, at, source, uncertain).0.actives;
    if let Some(x) = first_active(store.actives, device.address) {
        lemma_first_active(store.actives, device.address);
        if post.contains(active) {
            let k = choose|k: int| 0 <= k < post.len() && post[k] == active;
            let ok = if k < x { k } else { k + 1 };
            assert(store.actives[ok] == active);
        }
    }
}

/// A note as it was stored is stored unchanged when it is given again.
pub proof fn lemma_stored_note_is_stable(note: Seq<char>)
    ensures
        note_text(note_text(note)) == note_text(note),
{
    lemma_collapsed_stable(note);
}

/// After a disconnection no open span belongs to the disconnected device.
proof fn lemma_disconnect_closes_device(
    store: StoreView,
    device: DeviceView,
    at: Timestamp,
    source: Seq<char>,
    uncertain: bool,
)
    requires
        one_active_per_device(store.actives),
    ensures
        first_active(disconnect(store, device, at, source, uncertain).0.actives, device.address)
            is None,
{
    let post = disconnect(store, device, at, source, uncertain).0.actives;
    lemma_first_active(store.actives, device.address);
    lemma_first_active(post, device.address);
    if let Some(x) = first_active(store.actives, device.address) {
        if let Some(j) = first_active(post, device.address) {
            let oj = if j < x { j } else { j + 1 };
            assert(post[j] == store.actives[oj]);
            if oj < x {
            } else {
                assert(store.actives[x].device_address == device.address);
            }
        }
    }
}

/// A device without an open span has none after another disconnection.
proof fn lemma_disconnect_keeps_closed(
    store: StoreView,
    device: DeviceView,
    at: Timestamp,
    source: Seq<char>,
    uncertain: bool,
    address: Seq<char>,
)
    requires
        first_active(store.actives, address) is None,
    ensures
        first_active(disconnect(store, device, at, source, uncertain).0.actives, address) is None,
{
    let post = disconnect(store, device, at, source, uncertain).0.actives;
    lemma_first_active(store.actives, address);
    lemma_first_active(post, address);
    if let Some(j) = first_active(post, address) {
        assert(post.contains(post[j]));
        lemma_disconnect_opens_no_span(store, device, at, source, uncertain, post[j]);
        let k = choose|k: int| 0 <= k < store.actives.len() && store.actives[k] == post[j];
        assert(store.actives[k].device_address == address);
    }
}

/// Going to sleep closes the open span of every tracked device: afterwards
/// none of them has an open span, the log keeps what it held, and every span
/// added ends at the time of the sleep, from the sleep's source and with the
/// sleep's certainty.
pub proof fn lemma_sleep_closes_every_span(
    store: StoreView,
    devices: Seq<DeviceView>,
    at: Timestamp,
    source: Seq<char>,
    uncertain: bool,
)
    requires
        one_active_per_device(store.actives),
    ensures
        ({
            let after = close_all(store, devices, at, source, uncertain).0;
            &&& one_active_per_device(after.actives)
            &&& forall|i: int|
                0 <= i < devices.len() ==> first_active(after.actives, #[trigger] devices[i].address)
                    is None
            &&& store.spans.len() <= after.spans.len()
            &&& after.spans.take(store.spans.len() as int) == store.spans
            &&& forall|k: int|
                store.spans.len() <= k < after.spans.len() ==> {
                    &&& (#[trigger] after.spans[k]).ended_at == at
                    &&& after.spans[k].end_source == source
                    &&& after.spans[k].end_uncertain == uncertain
                }
        }),
    decreases devices.len(),
{
    if devices.len() == 0 {
        assert(store.spans.take(store.spans.len() as int) =~= store.spans);
    } else {
        let init = devices.drop_last();
        let last = devices.last();
        lemma_sleep_closes_every_span(store, init, at, source, uncertain);
        let before = close_all(store, init, at, source, uncertain).0;
        let after = close_all(store, devices, at, source, uncertain).0;
        assert(after == disconnect(before, last, at, source, uncertain).0);
        lemma_disconnect_keeps_one_active_per_device(before, last, at, source, uncertain);
        lemma_disconnect_closes_device(before, last, at, source, uncertain);
        assert forall|i: int| 0 <= i < devices.len() implies first_active(
            after.actives,
            #[trigger] devices[i].address,
        ) is None by {
            if i < init.len() {
                assert(init[i] == devices[i]);
                lemma_disconnect_keeps_closed(before, last, at, source, uncertain, devices[i].address);
            } else {
                assert(devices[i] == last);
            }
        }
        if after.spans != before.spans {
            let x = first_active(before.actives, last.address).unwrap();
            let record = closed_span(last, before.actives[x], at, source, uncertain);
            assert(after.spans == before.spans.push(record));
            assert(after.spans.take(store.spans.len() as int) =~= before.spans.take(
                store.spans.len() as int,
            ));
            assert forall|k: int| store.spans.len() <= k < after.spans.len() implies {
                &&& (#[trigger] after.spans[k]).ended_at == at
                &&& after.spans[k].end_source == source
                &&& after.spans[k].end_uncertain == uncertain
            } by {
                if k < before.spans.len() {
                    assert(after.spans[k] == before.spans[k]);
                }
            }
        }
    }
}

/// The span that `selection` picks lies within its list.
proof fn lemma_selection_in_range(store: StoreView, address: Option<Seq<char>>)
    ensures
        selection(store, address) matches Selection::Active(i) ==> 0 <= i < store.actives.len(),
        selection(store, address) matches Selection::Span(j) ==> 0 <= j < store.spans.len(),
{
    if let Some(a) = address {
        lemma_first_active(store.actives, a);
        lemma_last_true(store.spans.map_values(|s: SpanView| s.device_address == a));
    }
}

/// Lists of open spans with the same devices at the same places give the same
/// answer to "where is the open span of this device".
proof fn lemma_first_active_by_addresses(a: Seq<ActiveView>, b: Seq<ActiveView>, address: Seq<char>)
    requires
        a.len() == b.len(),
        forall|k: int| 0 <= k < a.len() ==> a[k].device_address == b[k].device_address,
    ensures
        first_active(a, address) == first_active(b, address),
{
    assert(a.map_values(|x: ActiveView| x.device_address == address) =~= b.map_values(
        |x: ActiveView| x.device_address == address,
    ));
}

/// Whether a span was logged as the closure of an open span depends only on
/// the device and the start of the open span.
proof fn lemma_completed_by_start(spans: Seq<SpanView>, a: ActiveView, b: ActiveView)
    requires
        a.device_address == b.device_address,
        a.started_at == b.started_at,
    ensures
        completed_span(spans, a) == completed_span(spans, b),
{
    assert(spans.map_values(|s: SpanView| closes(s, a)) =~= spans.map_values(
        |s: SpanView| closes(s, b),
    ));
}

/// Recording a battery reading never gives a device two open spans.
pub proof fn lemma_reading_keeps_one_active_per_device(
    store: StoreView,
    address: Option<Seq<char>>,
    observation: BatteryObservation,
)
    requires
        one_active_per_device(store.actives),
    ensures
        one_active_per_device(with_reading(store, selection(store, address), observation).actives),
{
    lemma_selection_in_range(store, address);
    let post = with_reading(store, selection(store, address), observation).actives;
    assert forall|i: int, j: int| 0 <= i < j < post.len() implies post[i].device_address
        != post[j].device_address by {
        assert(post[i].device_address == store.actives[i].device_address);
        assert(post[j].device_address == store.actives[j].device_address);
    }
}

/// Setting a note never gives a device two open spans.
pub proof fn lemma_note_keeps_one_active_per_device(
    store: StoreView,
    address: Option<Seq<char>>,
    boundary: SpanBoundary,
    note: Seq<char>,
)
    requires
        one_active_per_device(store.actives),
    ensures
        one_active_per_device(with_note(store, selection(store, address), boundary, note).actives),
{
    lemma_selection_in_range(store, address);
    let post = with_note(store, selection(store, address), boundary, note).actives;
    assert forall|i: int, j: int| 0 <= i < j < post.len() implies post[i].device_address
        != post[j].device_address by {
        assert(post[i].device_address == store.actives[i].device_address);
        assert(post[j].device_address == store.actives[j].device_address);
    }
}

/// A battery reading recorded for a device while its span is open ends up in
/// the span that its disconnection logs, after the readings recorded before
/// it (unless the closure of that span was logged already by an interrupted
/// close).
pub proof fn lemma_reading_carried_to_closed_span(
    store: StoreView,
    device: DeviceView,
    observation: BatteryObservation,
    at: Timestamp,
    source: Seq<char>,
    uncertain: bool,
)
    requires
        first_active(store.actives, device.address) is Some,
        completed_span(
            store.spans,
            store.actives[first_active(store.actives, device.address).unwrap()],
        ) is None,
    ensures
        ({
            let active = store.actives[first_active(store.actives, device.address).unwrap()];
            let after = with_reading(store, selection(store, Some(device.address)), observation);
            let record = disconnect(after, device, at, source, uncertain).1;
            &&& record == Some(
                closed_span(device, active_with_observation(active, observation), at, source, uncertain),
            )
            &&& record.unwrap().battery_observations == active.battery_observations.push(
                observation,
            )
        }),
{
    lemma_first_active(store.actives, device.address);
    let i = first_active(store.actives, device.address).unwrap();
    let after = with_reading(store, selection(store, Some(device.address)), observation);
    lemma_first_active_by_addresses(after.actives, store.actives, device.address);
    lemma_completed_by_start(store.spans, after.actives[i], store.actives[i]);
}

/// A note set on a device's open span is the note of the span that its
/// disconnection logs (unless the closure of that span was logged already by
/// an interrupted close).
pub proof fn lemma_note_carried_to_closed_span(
    store: StoreView,
    device: DeviceView,
    boundary: SpanBoundary,
    note: Seq<char>,
    at: Timestamp,
    source: Seq<char>,
    uncertain: bool,
)
    requires
        first_active(store.actives, device.address) is Some,
        completed_span(
            store.spans,
            store.actives[first_active(store.actives, device.address).unwrap()],
        ) is None,
    ensures
        ({
            let active = store.actives[first_active(store.actives, device.address).unwrap()];
            let after = with_note(store, selection(store, Some(device.address)), boundary, note);
            let record = disconnect(after, device, at, source, uncertain).1;
            &&& record == Some(
                closed_span(device, active_with_note(active, boundary, note), at, source, uncertain),
            )
            &&& boundary == SpanBoundary::Start ==> record.unwrap().start_note == Some(note)
            &&& boundary == SpanBoundary::End ==> record.unwrap().end_note == Some(note)
        }),
{
    lemma_first_active(store.actives, device.address);
    let i = first_active(store.actives, device.address).unwrap();
    let after = with_note(store, selection(store, Some(device.address)), boundary, note);
    lemma_first_active_by_addresses(after.actives, store.actives, device.address);
    lemma_completed_by_start(store.spans, after.actives[i], store.actives[i]);
}

} // verus!

verus! {

/// The span that a reading or a note goes to belongs to the device asked
/// for. With an address: the device's open span; with none open, the last
/// completed span of that device in the log; with neither, nothing. Without
/// an address: the only open span; none open, the last span of the log;
/// several open, none.
pub proof fn lemma_selection_picks_the_device(store: StoreView, address: Option<Seq<char>>)
    ensures
        match address {
            Some(a) => match selection(store, Some(a)) {
                Selection::Active(i) => 0 <= i < store.actives.len()
                    && store.actives[i].device_address == a,
                Selection::Span(j) => {
                    &&& 0 <= j < store.spans.len()
                    &&& store.spans[j].device_address == a
                    &&& forall|k: int|
                        0 <= k < store.actives.len() ==> (#[trigger] store.actives[k]).device_address
                            != a
                    &&& forall|k: int|
                        j < k < store.spans.len() ==> (#[trigger] store.spans[k]).device_address != a
                },
                Selection::Nothing => {
                    &&& forall|k: int|
                        0 <= k < store.actives.len() ==> (#[trigger] store.actives[k]).device_address
                            != a
                    &&& forall|k: int|
                        0 <= k < store.spans.len() ==> (#[trigger] store.spans[k]).device_address != a
                },
                Selection::Multiple => false,
            },
            None => match selection(store, None) {
                Selection::Active(i) => store.actives.len() == 1 && i == 0,
                Selection::Multiple => store.actives.len() > 1,
                Selection::Span(j) => store.actives.len() == 0 && store.spans.len() > 0 && j
                    == store.spans.len() - 1,
                Selection::Nothing => store.actives.len() == 0 && store.spans.len() == 0,
            },
        },
{
    if let Some(a) = address {
        lemma_first_active(store.actives, a);
        let bs = store.spans.map_values(|s: SpanView| s.device_address == a);
        lemma_last_true(bs);
        assert forall|k: int| 0 <= k < store.spans.len() implies bs[k] == ((
        #[trigger] store.spans[k]).device_address == a) by {}
    }
}

/// A battery reading is added after the readings the selected span already
/// has; nothing else changes. Without a selected span nothing changes at all.
pub proof fn lemma_reading_appends(
    store: StoreView,
    address: Option<Seq<char>>,
    observation: BatteryObservation,
)
    ensures
        ({
            let after = with_reading(store, selection(store, address), observation);
            match selection(store, address) {
                Selection::Active(i) => {
                    let old_readings = store.actives[i].battery_observations;
                    let readings = after.actives[i].battery_observations;
                    &&& after.spans == store.spans
                    &&& after.actives.len() == store.actives.len()
                    &&& forall|k: int|
                        0 <= k < store.actives.len() && k != i ==> #[trigger] after.actives[k]
                            == store.actives[k]
                    &&& readings.len() == old_readings.len() + 1
                    &&& readings.take(old_readings.len() as int) == old_readings
                    &&& readings.last() == observation
                    &&& after.actives[i] == (ActiveView {
                        battery_observations: readings,
                        ..store.actives[i]
                    })
                },
                Selection::Span(j) => {
                    let old_readings = store.spans[j].battery_observations;
                    let readings = after.spans[j].battery_observations;
                    &&& after.actives == store.actives
                    &&& after.spans.len() == store.spans.len()
                    &&& forall|k: int|
                        0 <= k < store.spans.len() && k != j ==> #[trigger] after.spans[k]
                            == store.spans[k]
                    &&& readings.len() == old_readings.len() + 1
                    &&& readings.take(old_readings.len() as int) == old_readings
                    &&& readings.last() == observation
                    &&& after.spans[j] == (SpanView { battery_observations: readings, ..store.spans[j] })
                },
                _ => after == store,
            }
        }),
{
    lemma_selection_in_range(store, address);
    let after = with_reading(store, selection(store, address), observation);
    match selection(store, address) {
        Selection::Active(i) => {
            let old_readings = store.actives[i].battery_observations;
            assert(after.actives[i].battery_observations.take(old_readings.len() as int)
                =~= old_readings);
        },
        Selection::Span(j) => {
            let old_readings = store.spans[j].battery_observations;
            assert(after.spans[j].battery_observations.take(old_readings.len() as int)
                =~= old_readings);
        },
        _ => {},
    }
}

/// A start note goes to the start of the selected span and an end note to its
/// end; the other note, and everything else, stays as it was. Without a
/// selected span nothing changes.
pub proof fn lemma_note_sets_its_boundary(
    store: StoreView,
    address: Option<Seq<char>>,
    boundary: SpanBoundary,
    note: Seq<char>,
)
    ensures
        ({
            let after = with_note(store, selection(store, address), boundary, note);
            match selection(store, address) {
                Selection::Active(i) => {
                    let before = store.actives[i];
                    let now = after.actives[i];
                    &&& after.spans == store.spans
                    &&& after.actives.len() == store.actives.len()
                    &&& forall|k: int|
                        0 <= k < store.actives.len() && k != i ==> #[trigger] after.actives[k]
                            == store.actives[k]
                    &&& boundary == SpanBoundary::Start ==> now.start_note == Some(note)
                        && now.end_note == before.end_note
                    &&& boundary == SpanBoundary::End ==> now.end_note == Some(note)
                        && now.start_note == before.start_note
                    &&& now == (ActiveView {
                        start_note: now.start_note,
                        end_note: now.end_note,
                        ..before
                    })
                },
                Selection::Span(j) => {
                    let before = store.spans[j];
                    let now = after.spans[j];
                    &&& after.actives == store.actives
                    &&& after.spans.len() == store.spans.len()
                    &&& forall|k: int|
                        0 <= k < store.spans.len() && k != j ==> #[trigger] after.spans[k]
                            == store.spans[k]
                    &&& boundary == SpanBoundary::Start ==> now.start_note == Some(note)
                        && now.end_note == before.end_note
                    &&& boundary == SpanBoundary::End ==> now.end_note == Some(note)
                        && now.start_note == before.start_note
                    &&& now == (SpanView { start_note: now.start_note, end_note: now.end_note, ..before })
                },
                _ => after == store,
            }
        }),
{
    lemma_selection_in_range(store, address);
}

} // verus!

verus! {

/// A device without an open span that is seen connected gets one, at the end
/// of the list: its address and BlueZ name, starting at the time and from the
/// source of the observation, without notes or readings. Nothing else changes.
pub proof fn lemma_connect_opens_a_span(
    store: StoreView,
    device: DeviceView,
    at: Timestamp,
    source: Seq<char>,
)
    requires
        forall|k: int|
            0 <= k < store.actives.len() ==> (#[trigger] store.actives[k]).device_address
                != device.address,
    ensures
        ({
            let (after, outcome) = connect(store, device, at, source);
            &&& outcome == ConnectOutcome::Started
            &&& after.spans == store.spans
            &&& after.actives.len() == store.actives.len() + 1
            &&& after.actives.take(store.actives.len() as int) == store.actives
            &&& after.actives.last().device_address == device.address
            &&& after.actives.last().device_name == device.name
            &&& after.actives.last().started_at == at
            &&& after.actives.last().start_source == source
            &&& after.actives.last().start_note is None
            &&& after.actives.last().end_note is None
            &&& after.actives.last().battery_observations.len() == 0
        }),
{
    lemma_first_active(store.actives, device.address);
    if let Some(i) = first_active(store.actives, device.address) {
        assert(store.actives[i].device_address == device.address);
    }
    let after = connect(store, device, at, source).0;
    assert(after.actives.take(store.actives.len() as int) =~= store.actives);
}

/// A device seen disconnected while its span is open (and not yet logged)
/// has that span removed from the open ones and appended to the log, ended
/// at the time, from the source and with the certainty of the observation;
/// the span keeps its start, notes and readings, and takes the name BlueZ
/// reports, or else the name it was saved with. The result is the logged span.
pub proof fn lemma_disconnect_logs_the_open_span(
    store: StoreView,
    device: DeviceView,
    at: Timestamp,
    source: Seq<char>,
    uncertain: bool,
    i: int,
)
    requires
        0 <= i < store.actives.len(),
        store.actives[i].device_address == device.address,
        one_active_per_device(store.actives),
        forall|k: int|
            0 <= k < store.spans.len() ==> !((#[trigger] store.spans[k]).device_address
                == device.address && store.spans[k].started_at.instant()
                == store.actives[i].started_at.instant()),
    ensures
        ({
            let (after, record, persist) = disconnect(store, device, at, source, uncertain);
            let open = store.actives[i];
            let r = record.unwrap();
            &&& record is Some
            &&& persist == Persist::SpansThenActives
            &&& after.actives == store.actives.remove(i)
            &&& after.spans == store.spans.push(r)
            &&& r.device_address == device.address
            &&& r.device_name == (if device.name is Some {
                device.name
            } else {
                open.device_name
            })
            &&& r.started_at == open.started_at
            &&& r.ended_at == at
            &&& r.start_source == open.start_source
            &&& r.end_source == source
            &&& r.end_uncertain == uncertain
            &&& r.start_note == open.start_note
            &&& r.end_note == open.end_note
            &&& r.battery_observations == open.battery_observations
        }),
{
    lemma_first_active(store.actives, device.address);
    let x = first_active(store.actives, device.address).unwrap();
    assert(x == i) by {
        if x < i {
            assert(store.actives[x].device_address == store.actives[i].device_address);
        } else if x > i {
        }
    }
    let bs = store.spans.map_values(|s: SpanView| closes(s, store.actives[i]));
    lemma_last_true(bs);
    if let Some(j) = completed_span(store.spans, store.actives[i]) {
        assert(bs[j]);
        assert(closes(store.spans[j], store.actives[i]));
    }
}

} // verus!
