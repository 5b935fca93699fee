//! What the report shows: the spans and battery readings of the selected
//! devices.
use vstd::prelude::*;
use crate::address::BluetoothAddress;
use crate::display::{duration_text, format_duration};
use crate::storage::{
    ActiveState, ActiveView, BatteryObservation, SpanRecord, SpanView, Store, StoreView,
    actives_view, span_seconds, spans_view,
};
use crate::text::{
    append_lines, clone_opt_string, concat_str, decimal, from_chars, opt_seq, push_decimal, push_line,
    push_str, string_views,
};
use crate::timestamp::Timestamp;

verus! {

/// `Name (ADDRESS)` when the device has a non-empty name, else the address.
pub open spec fn label_text(address: Seq<char>, name: Option<Seq<char>>) -> Seq<char> {
    match name {
        Some(n) => if n.len() > 0 {
            n + " ("@ + address + ")"@
        } else {
            address
        },
        None => address,
    }
}

/// How a device is named in the output.
pub fn device_label(address: &BluetoothAddress, name: Option<&str>) -> (r: String)
    ensures
        r@ == label_text(
            address@,
            match name {
                Some(n) => Some(n@),
                None => None,
            },
        ),
{
    proof {
        reveal_strlit(" (");
        reveal_strlit(")");
    }
    let mut out: Vec<char> = Vec::new();
    match name {
        Some(n) => {
            let chars = crate::text::to_chars(n);
            if chars.len() > 0 {
                push_str(&mut out, n);
                push_str(&mut out, " (");
                push_str(&mut out, address.as_str());
                push_str(&mut out, ")");
            } else {
                push_str(&mut out, address.as_str());
            }
        },
        None => {
            push_str(&mut out, address.as_str());
        },
    }
    from_chars(out.as_slice())
}


/// A device is reported when no addresses were given or it is among them.
pub open spec fn is_selected(addresses: Seq<Seq<char>>, address: Seq<char>) -> bool {
    addresses.len() == 0 || addresses.contains(address)
}

pub fn selected(addresses: &Vec<BluetoothAddress>, address: &BluetoothAddress) -> (r: bool)
    ensures
        r == is_selected(crate::order::address_views(addresses@), address@),
{
    let ghost views = crate::order::address_views(addresses@);
    if addresses.len() == 0 {
        return true;
    }
    let mut i: usize = 0;
    while i < addresses.len()
        invariant
            i <= addresses@.len(),
            views == crate::order::address_views(addresses@),
            forall|k: int| 0 <= k < i ==> views[k] != address@,
        decreases addresses@.len() - i,
    {
        if addresses[i] == *address {
            assert(views[i as int] == address@);
            return true;
        }
        i = i + 1;
    }
    false
}

/// The stored spans of the selected devices, in stored order.
pub open spec fn selected_store(store: StoreView, addresses: Seq<Seq<char>>) -> StoreView {
    StoreView {
        actives: store.actives.filter(|a: ActiveView| is_selected(addresses, a.device_address)),
        spans: store.spans.filter(|s: SpanView| is_selected(addresses, s.device_address)),
    }
}

/// Keeps the spans of the selected devices.
pub fn select_for_report(store: &Store, addresses: &Vec<BluetoothAddress>) -> (r: Store)
    ensures
        r@ == selected_store(store@, crate::order::address_views(addresses@)),
{
    let ghost views = crate::order::address_views(addresses@);
    let ghost pa = |a: ActiveView| is_selected(views, a.device_address);
    let ghost ps = |s: SpanView| is_selected(views, s.device_address);
    let mut kept_actives: Vec<ActiveState> = Vec::new();
    proof {
        reveal_with_fuel(Seq::filter, 1);
        assert(store@.actives.take(0).filter(pa) =~= Seq::empty());
        assert(store@.spans.take(0).filter(ps) =~= Seq::empty());
    }
    let n = store.actives.len();
    let mut i: usize = 0;
    while i < n
        invariant
            i <= n,
            n == store.actives@.len(),
            views == crate::order::address_views(addresses@),
            pa == (|a: ActiveView| is_selected(views, a.device_address)),
            actives_view(kept_actives@) == store@.actives.take(i as int).filter(pa),
        decreases n - i,
    {
        let a = &store.actives[i];
        assert(store@.actives[i as int] == a@);
        assert(store@.actives.take(i + 1).drop_last() =~= store@.actives.take(i as int));
        assert(store@.actives.take(i + 1).last() == a@);
        let keep = selected(addresses, &a.device_address);
        assert(keep == pa(a@));
        proof {
            reveal_with_fuel(Seq::filter, 1);
        }
        assert(store@.actives.take(i + 1).filter(pa) == if pa(a@) {
            store@.actives.take(i as int).filter(pa).push(a@)
        } else {
            store@.actives.take(i as int).filter(pa)
        });
        if keep {
            let ghost before = actives_view(kept_actives@);
            kept_actives.push(a.clone());
            assert(actives_view(kept_actives@) =~= before.push(a@));
        }
        i = i + 1;
    }
    assert(store@.actives.take(n as int) =~= store@.actives);
    let mut kept_spans: Vec<SpanRecord> = Vec::new();
    let m = store.spans.len();
    let mut j: usize = 0;
    while j < m
        invariant
            j <= m,
            m == store.spans@.len(),
            views == crate::order::address_views(addresses@),
            ps == (|s: SpanView| is_selected(views, s.device_address)),
            spans_view(kept_spans@) == store@.spans.take(j as int).filter(ps),
        decreases m - j,
    {
        let s = &store.spans[j];
        assert(store@.spans[j as int] == s@);
        assert(store@.spans.take(j + 1).drop_last() =~= store@.spans.take(j as int));
        assert(store@.spans.take(j + 1).last() == s@);
        let keep = selected(addresses, &s.device_address);
        assert(keep == ps(s@));
        proof {
            reveal_with_fuel(Seq::filter, 1);
        }
        assert(store@.spans.take(j + 1).filter(ps) == if ps(s@) {
            store@.spans.take(j as int).filter(ps).push(s@)
        } else {
            store@.spans.take(j as int).filter(ps)
        });
        if keep {
            let ghost before = spans_view(kept_spans@);
            kept_spans.push(s.clone());
            assert(spans_view(kept_spans@) =~= before.push(s@));
        }
        j = j + 1;
    }
    assert(store@.spans.take(m as int) =~= store@.spans);
    Store { actives: kept_actives, spans: kept_spans }
}


/// A battery reading with the device it was recorded for.
#[derive(Debug)]
pub struct BatteryReportEntry {
    pub address: BluetoothAddress,
    pub name: Option<String>,
    pub observation: BatteryObservation,
}

pub struct EntryView {
    pub address: Seq<char>,
    pub name: Option<Seq<char>>,
    pub observation: BatteryObservation,
}

impl View for BatteryReportEntry {
    type V = EntryView;

    open spec fn view(&self) -> EntryView {
        EntryView { address: self.address@, name: opt_seq(self.name), observation: self.observation }
    }
}

impl Clone for BatteryReportEntry {
    fn clone(&self) -> (r: Self)
        ensures
            r@ == self@,
    {
        BatteryReportEntry {
            address: self.address.clone(),
            name: clone_opt_string(&self.name),
            observation: self.observation,
        }
    }
}

pub open spec fn entries_view(v: Seq<BatteryReportEntry>) -> Seq<EntryView> {
    v.map_values(|e: BatteryReportEntry| e@)
}

pub open spec fn observation_entries(
    address: Seq<char>,
    name: Option<Seq<char>>,
    observations: Seq<BatteryObservation>,
) -> Seq<EntryView> {
    observations.map_values(|o: BatteryObservation| EntryView { address, name, observation: o })
}

/// The readings of the open spans, span by span, each in recorded order.
pub open spec fn active_entries(actives: Seq<ActiveView>) -> Seq<EntryView>
    decreases actives.len(),
{
    if actives.len() == 0 {
        Seq::empty()
    } else {
        active_entries(actives.drop_last()) + observation_entries(
            actives.last().device_address,
            actives.last().device_name,
            actives.last().battery_observations,
        )
    }
}

/// The readings of the completed spans, span by span, each in recorded order.
pub open spec fn span_entries(spans: Seq<SpanView>) -> Seq<EntryView>
    decreases spans.len(),
{
    if spans.len() == 0 {
        Seq::empty()
    } else {
        span_entries(spans.drop_last()) + observation_entries(
            spans.last().device_address,
            spans.last().device_name,
            spans.last().battery_observations,
        )
    }
}

/// All readings: those of the open spans, then those of the completed ones.
pub open spec fn report_entries(store: StoreView) -> Seq<EntryView> {
    active_entries(store.actives) + span_entries(store.spans)
}

pub open spec fn time_key(e: EntryView) -> int {
    e.observation.observed_at.instant()
}

/// `order` lists every position of `entries` once, by time and, among
/// readings of the same instant, by position.
pub open spec fn stable_order(entries: Seq<EntryView>, order: Seq<int>) -> bool {
    &&& order.len() == entries.len()
    &&& forall|k: int| 0 <= k < order.len() ==> 0 <= #[trigger] order[k] < entries.len()
    &&& forall|a: int, b: int|
        0 <= a < b < order.len() ==> time_key(entries[#[trigger] order[a]]) < time_key(
            entries[#[trigger] order[b]],
        ) || (time_key(entries[order[a]]) == time_key(entries[order[b]]) && order[a] < order[b])
}

/// `sorted` holds the readings of `entries` ordered by time; readings of the
/// same instant keep their relative order.
pub open spec fn stably_sorted_by_time(entries: Seq<EntryView>, sorted: Seq<EntryView>) -> bool {
    exists|order: Seq<int>|
        stable_order(entries, order) && sorted == order.map_values(|k: int| entries[k])
}

fn push_entries(
    out: &mut Vec<BatteryReportEntry>,
    address: &BluetoothAddress,
    name: &Option<String>,
    observations: &Vec<BatteryObservation>,
)
    ensures
        entries_view(final(out)@) == entries_view(old(out)@) + observation_entries(
            address@,
            opt_seq(*name),
            observations@,
        ),
{
    let ghost start = entries_view(out@);
    let n = observations.len();
    let mut i: usize = 0;
    while i < n
        invariant
            i <= n,
            n == observations@.len(),
            entries_view(out@) == start + observation_entries(
                address@,
                opt_seq(*name),
                observations@.take(i as int),
            ),
        decreases n - i,
    {
        let ghost before = entries_view(out@);
        out.push(
            BatteryReportEntry {
                address: address.clone(),
                name: clone_opt_string(name),
                observation: observations[i],
            },
        );
        assert(observations@.take(i + 1) =~= observations@.take(i as int).push(observations@[i as int]));
        assert(entries_view(out@) =~= before.push(
            EntryView { address: address@, name: opt_seq(*name), observation: observations@[i as int] },
        ));
        assert(entries_view(out@) =~= start + observation_entries(
            address@,
            opt_seq(*name),
            observations@.take(i + 1),
        ));
        i = i + 1;
    }
    assert(observations@.take(n as int) =~= observations@);
}

fn all_entries(store: &Store) -> (r: Vec<BatteryReportEntry>)
    ensures
        entries_view(r@) == report_entries(store@),
{
    let mut out: Vec<BatteryReportEntry> = Vec::new();
    let n = store.actives.len();
    let mut i: usize = 0;
    while i < n
        invariant
            i <= n,
            n == store.actives@.len(),
            entries_view(out@) == active_entries(store@.actives.take(i as int)),
        decreases n - i,
    {
        let a = &store.actives[i];
        push_entries(&mut out, &a.device_address, &a.device_name, &a.battery_observations);
        proof {
            let t = store@.actives.take(i + 1);
            assert(t.drop_last() =~= store@.actives.take(i as int));
            assert(t.last() == a@);
        }
        i = i + 1;
    }
    assert(store@.actives.take(n as int) =~= store@.actives);
    let ghost from_actives = entries_view(out@);
    let m = store.spans.len();
    let mut j: usize = 0;
    while j < m
        invariant
            j <= m,
            m == store.spans@.len(),
            from_actives == active_entries(store@.actives),
            entries_view(out@) == from_actives + span_entries(store@.spans.take(j as int)),
        decreases m - j,
    {
        let s = &store.spans[j];
        push_entries(&mut out, &s.device_address, &s.device_name, &s.battery_observations);
        proof {
            let t = store@.spans.take(j + 1);
            assert(t.drop_last() =~= store@.spans.take(j as int));
            assert(t.last() == s@);
            assert(entries_view(out@) =~= from_actives + span_entries(t));
        }
        j = j + 1;
    }
    assert(store@.spans.take(m as int) =~= store@.spans);
    out
}

/// All battery readings of the stored spans, ordered by the time they were
/// observed; readings of the same instant keep the order of the store (open
/// spans first, then completed ones).
pub fn collect_battery_observations(store: &Store) -> (r: Vec<BatteryReportEntry>)
    ensures
        stably_sorted_by_time(report_entries(store@), entries_view(r@)),
{
    let entries = all_entries(store);
    let ghost ev = entries_view(entries@);
    let n = entries.len();
    let mut order: Vec<usize> = Vec::new();
    let mut i: usize = 0;
    while i < n
        invariant
            i <= n,
            n == entries@.len(),
            ev == entries_view(entries@),
            order@.len() == i,
            forall|k: int| 0 <= k < order@.len() ==> #[trigger] order@[k] < i,
            forall|a: int, b: int|
                0 <= a < b < order@.len() ==> time_key(ev[#[trigger] order@[a] as int]) < time_key(
                    ev[#[trigger] order@[b] as int],
                ) || (time_key(ev[order@[a] as int]) == time_key(ev[order@[b] as int])
                    && order@[a] < order@[b]),
        decreases n - i,
    {
        let key = entries[i].observation.observed_at;
        assert(ev[i as int].observation.observed_at == key);
        let mut q: usize = 0;
        while q < order.len()
            invariant
                q <= order@.len(),
                order@.len() == i,
                i < n,
                n == entries@.len(),
                ev == entries_view(entries@),
                ev[i as int].observation.observed_at == key,
                forall|k: int| 0 <= k < order@.len() ==> #[trigger] order@[k] < i,
                forall|k: int|
                    0 <= k < q ==> time_key(ev[#[trigger] order@[k] as int]) <= time_key(
                        ev[i as int],
                    ),
            ensures
                q <= order@.len(),
                forall|k: int|
                    0 <= k < q ==> time_key(ev[#[trigger] order@[k] as int]) <= time_key(
                        ev[i as int],
                    ),
                q < order@.len() ==> time_key(ev[i as int]) < time_key(ev[order@[q as int] as int]),
            decreases order@.len() - q,
        {
            let other = entries[order[q]].observation.observed_at;
            assert(ev[order@[q as int] as int].observation.observed_at == other);
            if key.is_before(&other) {
                break;
            }
            q = q + 1;
        }
        let ghost old_order = order@;
        order.insert(q, i);
        proof {
            assert(order@ =~= old_order.insert(q as int, i));
            assert forall|k: int| 0 <= k < order@.len() implies #[trigger] order@[k] < i + 1 by {
                if k < q {
                    assert(order@[k] == old_order[k]);
                } else if k > q {
                    assert(order@[k] == old_order[k - 1]);
                }
            }
            assert forall|a: int, b: int| 0 <= a < b < order@.len() implies time_key(
                ev[#[trigger] order@[a] as int],
            ) < time_key(ev[#[trigger] order@[b] as int]) || (time_key(ev[order@[a] as int])
                == time_key(ev[order@[b] as int]) && order@[a] < order@[b]) by {
                if b < q {
                    assert(order@[a] == old_order[a] && order@[b] == old_order[b]);
                } else if b == q {
                    assert(order@[a] == old_order[a]);
                    assert(time_key(ev[old_order[a] as int]) <= time_key(ev[i as int]));
                } else if a == q {
                    assert(order@[b] == old_order[b - 1]);
                    if b - 1 > q {
                        let x = old_order[q as int];
                        let y = old_order[b - 1];
                        assert(time_key(ev[x as int]) < time_key(ev[y as int]) || time_key(
                            ev[x as int],
                        ) == time_key(ev[y as int]));
                    }
                } else if a < q {
                    assert(order@[a] == old_order[a] && order@[b] == old_order[b - 1]);
                    assert(time_key(ev[old_order[a] as int]) <= time_key(ev[i as int]));
                    if b - 1 > q {
                        let x = old_order[q as int];
                        let y = old_order[b - 1];
                        assert(time_key(ev[x as int]) < time_key(ev[y as int]) || time_key(
                            ev[x as int],
                        ) == time_key(ev[y as int]));
                    }
                    assert(time_key(ev[i as int]) < time_key(ev[old_order[b - 1] as int]));
                } else {
                    assert(order@[a] == old_order[a - 1] && order@[b] == old_order[b - 1]);
                }
            }
        }
        i = i + 1;
    }
    let mut r: Vec<BatteryReportEntry> = Vec::new();
    let mut k: usize = 0;
    while k < n
        invariant
            k <= n,
            n == entries@.len(),
            order@.len() == n,
            ev == entries_view(entries@),
            forall|j: int| 0 <= j < order@.len() ==> #[trigger] order@[j] < n,
            entries_view(r@) == order@.take(k as int).map_values(|j: usize| ev[j as int]),
        decreases n - k,
    {
        let ghost before = entries_view(r@);
        let e = entries[order[k]].clone();
        assert(e@ == ev[order@[k as int] as int]);
        r.push(e);
        assert(entries_view(r@) =~= before.push(ev[order@[k as int] as int]));
        assert(order@.take(k + 1) =~= order@.take(k as int).push(order@[k as int]));
        assert(entries_view(r@) =~= order@.take(k + 1).map_values(|j: usize| ev[j as int]));
        k = k + 1;
    }
    proof {
        let witness = order@.map_values(|j: usize| j as int);
        assert(order@.take(n as int) =~= order@);
        assert(stable_order(ev, witness));
        assert(entries_view(r@) =~= witness.map_values(|j: int| ev[j]));
    }
    r
}


/// How many of the most recent spans and readings the report lists.
pub const RECENT_LIMIT: usize = 10;

/// The index from which the report lists the last `RECENT_LIMIT` items of `len`.
pub fn recent_start(len: usize) -> (r: usize)
    ensures
        r == if len > RECENT_LIMIT {
            len - RECENT_LIMIT
        } else {
            0
        },
{
    if len > RECENT_LIMIT {
        len - RECENT_LIMIT
    } else {
        0
    }
}

/// `<device>  <time>  <percentage>%  <source>`.
pub open spec fn reading_text(
    address: Seq<char>,
    name: Option<Seq<char>>,
    observation: BatteryObservation,
    time: Seq<char>,
) -> Seq<char> {
    label_text(address, name) + "  "@ + time + "  "@ + decimal(observation.percentage as nat)
        + "%  "@ + observation.source.spec_name()
}

/// `<device>  <start> -> <end>  <duration>`, with ` uncertain` appended when
/// the end is uncertain.
pub open spec fn span_text(span: SpanView, start: Seq<char>, end: Seq<char>) -> Seq<char> {
    label_text(span.device_address, span.device_name) + "  "@ + start + " -> "@ + end + "  "@
        + duration_text(span_seconds(span.started_at, span.ended_at)) + if span.end_uncertain {
        " uncertain"@
    } else {
        Seq::empty()
    }
}

/// `  <start> -> now  <elapsed>` for a span open since `started_at`.
pub open spec fn current_text(started_at: Timestamp, now: Timestamp, start: Seq<char>) -> Seq<char> {
    "  "@ + start + " -> now  "@ + duration_text(span_seconds(started_at, now))
}

/// `  <label>: <note>` when there is a note.
pub open spec fn note_lines(label: Seq<char>, note: Option<Seq<char>>) -> Seq<Seq<char>> {
    match note {
        Some(n) => seq!["  "@ + label + ": "@ + n],
        None => Seq::empty(),
    }
}

/// An open span in the report: the device, the time since its start, its notes.
pub open spec fn active_block(active: ActiveView, now: Timestamp, start: Seq<char>) -> Seq<Seq<char>> {
    seq![
        label_text(active.device_address, active.device_name),
        current_text(active.started_at, now, start),
    ] + note_lines("start"@, active.start_note) + note_lines("end"@, active.end_note)
}

/// A completed span in the report: its line and its notes.
pub open spec fn span_block(span: SpanView, start: Seq<char>, end: Seq<char>) -> Seq<Seq<char>> {
    seq![span_text(span, start, end)] + note_lines("start"@, span.start_note) + note_lines(
        "end"@,
        span.end_note,
    )
}

/// The blocks of the first `count` open spans.
pub open spec fn active_blocks(
    actives: Seq<ActiveView>,
    now: Timestamp,
    starts: Seq<Seq<char>>,
    count: int,
) -> Seq<Seq<char>>
    decreases count,
{
    if count <= 0 {
        Seq::empty()
    } else {
        active_blocks(actives, now, starts, count - 1) + active_block(
            actives[count - 1],
            now,
            starts[count - 1],
        )
    }
}

/// The blocks of the completed spans from `from` to `to`.
pub open spec fn span_blocks(
    spans: Seq<SpanView>,
    starts: Seq<Seq<char>>,
    ends: Seq<Seq<char>>,
    from: int,
    to: int,
) -> Seq<Seq<char>>
    decreases to - from,
{
    if to <= from {
        Seq::empty()
    } else {
        span_blocks(spans, starts, ends, from, to - 1) + span_block(
            spans[to - 1],
            starts[to - 1],
            ends[to - 1],
        )
    }
}

/// The lines of the readings from `from` to `to`.
pub open spec fn reading_lines(
    entries: Seq<EntryView>,
    times: Seq<Seq<char>>,
    from: int,
    to: int,
) -> Seq<Seq<char>>
    decreases to - from,
{
    if to <= from {
        Seq::empty()
    } else {
        reading_lines(entries, times, from, to - 1).push(
            reading_text(entries[to - 1].address, entries[to - 1].name, entries[to - 1].observation, times[to - 1]),
        )
    }
}

/// Where the report's list of the last items of `len` starts.
pub open spec fn recent_from(len: int) -> int {
    if len > RECENT_LIMIT {
        len - RECENT_LIMIT
    } else {
        0
    }
}

/// What `report` prints: the log's path and counts; the open spans; the last
/// completed spans; the last battery readings. Each list is left out when
/// empty, and a blank line comes before each. The times are how each
/// timestamp is shown, item by item.
pub open spec fn report_text(
    store: StoreView,
    entries: Seq<EntryView>,
    now: Timestamp,
    log: Seq<char>,
    active_starts: Seq<Seq<char>>,
    span_starts: Seq<Seq<char>>,
    span_ends: Seq<Seq<char>>,
    reading_times: Seq<Seq<char>>,
) -> Seq<Seq<char>> {
    let a = store.actives;
    let s = store.spans;
    seq![
        "Log: "@ + log,
        "Spans: "@ + decimal(s.len()),
        "Battery observations: "@ + decimal(entries.len()),
    ] + (if a.len() > 0 {
        seq![Seq::<char>::empty(), "Current spans:"@] + active_blocks(a, now, active_starts, a.len() as int)
    } else {
        Seq::empty()
    }) + (if s.len() > 0 {
        seq![Seq::<char>::empty(), "Recent spans:"@] + span_blocks(
            s,
            span_starts,
            span_ends,
            recent_from(s.len() as int),
            s.len() as int,
        )
    } else {
        Seq::empty()
    }) + (if entries.len() > 0 {
        seq![Seq::<char>::empty(), "Recent battery observations:"@] + reading_lines(
            entries,
            reading_times,
            recent_from(entries.len() as int),
            entries.len() as int,
        )
    } else {
        Seq::empty()
    })
}

/// `<device>  <time>  <percentage>%  <source>`.
pub fn battery_observation_line(
    address: &BluetoothAddress,
    name: Option<&str>,
    observation: &BatteryObservation,
    time: &str,
) -> (r: String)
    ensures
        r@ == reading_text(
            address@,
            match name {
                Some(n) => Some(n@),
                None => None,
            },
            *observation,
            time@,
        ),
{
    proof {
        reveal_strlit("  ");
        reveal_strlit("%  ");
    }
    let label = device_label(address, name);
    let mut out: Vec<char> = Vec::new();
    push_str(&mut out, label.as_str());
    push_str(&mut out, "  ");
    push_str(&mut out, time);
    push_str(&mut out, "  ");
    push_decimal(&mut out, observation.percentage as u64);
    push_str(&mut out, "%  ");
    push_str(&mut out, observation.source.name());
    from_chars(out.as_slice())
}

/// `<device>  <start> -> <end>  <duration>`, with ` uncertain` appended when
/// the end is uncertain.
pub fn span_line(span: &SpanRecord, start: &str, end: &str) -> (r: String)
    ensures
        r@ == span_text(span@, start@, end@),
{
    proof {
        reveal_strlit("  ");
        reveal_strlit(" -> ");
        reveal_strlit(" uncertain");
    }
    let label = match &span.device_name {
        Some(n) => device_label(&span.device_address, Some(n.as_str())),
        None => device_label(&span.device_address, None),
    };
    let seconds = span.duration_seconds();
    let duration = format_duration(seconds as i64);
    let mut out: Vec<char> = Vec::new();
    push_str(&mut out, label.as_str());
    push_str(&mut out, "  ");
    push_str(&mut out, start);
    push_str(&mut out, " -> ");
    push_str(&mut out, end);
    push_str(&mut out, "  ");
    push_str(&mut out, duration.as_str());
    if span.end_uncertain {
        push_str(&mut out, " uncertain");
    }
    from_chars(out.as_slice())
}

/// `  <start> -> now  <elapsed>` for an open span at `now` (elapsed time
/// below zero reads as zero).
pub fn current_span_line(active: &ActiveState, now: Timestamp, start: &str) -> (r: String)
    ensures
        r@ == current_text(active.started_at, now, start@),
{
    proof {
        reveal_strlit("  ");
        reveal_strlit(" -> now  ");
    }
    let s = now.whole_seconds_since(&active.started_at);
    let elapsed: i64 = if s < 0 {
        0
    } else {
        s
    };
    let duration = format_duration(elapsed);
    let mut out: Vec<char> = Vec::new();
    push_str(&mut out, "  ");
    push_str(&mut out, start);
    push_str(&mut out, " -> now  ");
    push_str(&mut out, duration.as_str());
    from_chars(out.as_slice())
}

/// `  <label>: <note>`.
pub fn note_line(label: &str, note: &str) -> (r: String)
    ensures
        r@ == "  "@ + label@ + ": "@ + note@,
{
    proof {
        reveal_strlit("  ");
        reveal_strlit(": ");
    }
    let mut out: Vec<char> = Vec::new();
    push_str(&mut out, "  ");
    push_str(&mut out, label);
    push_str(&mut out, ": ");
    push_str(&mut out, note);
    from_chars(out.as_slice())
}

} // verus!

verus! {

fn push_note_line(out: &mut Vec<String>, label: &str, note: &Option<String>)
    ensures
        string_views(final(out)@) == string_views(old(out)@) + note_lines(label@, opt_seq(*note)),
{
    match note {
        Some(n) => push_line(out, note_line(label, n.as_str())),
        None => {
            assert(string_views(out@) =~= string_views(out@) + Seq::<Seq<char>>::empty());
        },
    }
}

fn active_block_lines(out: &mut Vec<String>, active: &ActiveState, now: Timestamp, start: &str)
    ensures
        string_views(final(out)@) == string_views(old(out)@) + active_block(active@, now, start@),
{
    let ghost before = string_views(out@);
    let label = match &active.device_name {
        Some(n) => device_label(&active.device_address, Some(n.as_str())),
        None => device_label(&active.device_address, None),
    };
    push_line(out, label);
    push_line(out, current_span_line(active, now, start));
    push_note_line(out, "start", &active.start_note);
    push_note_line(out, "end", &active.end_note);
    assert(string_views(out@) =~= before + active_block(active@, now, start@));
}

fn span_block_lines(out: &mut Vec<String>, span: &SpanRecord, start: &str, end: &str)
    ensures
        string_views(final(out)@) == string_views(old(out)@) + span_block(span@, start@, end@),
{
    let ghost before = string_views(out@);
    push_line(out, span_line(span, start, end));
    push_note_line(out, "start", &span.start_note);
    push_note_line(out, "end", &span.end_note);
    assert(string_views(out@) =~= before + span_block(span@, start@, end@));
}

fn count_line(label: &str, n: usize) -> (r: String)
    ensures
        r@ == label@ + decimal(n as nat),
{
    let mut out = crate::text::to_chars(label);
    push_decimal(&mut out, n as u64);
    from_chars(out.as_slice())
}

/// The lines `report` prints, given the selected spans, their readings in
/// report order, the time now, the path of the log, and how each timestamp
/// is shown: the start of each open span, the start and end of each completed
/// span, and the time of each reading.
pub fn report_lines(
    store: &Store,
    entries: &Vec<BatteryReportEntry>,
    now: Timestamp,
    log: &str,
    active_starts: &Vec<String>,
    span_starts: &Vec<String>,
    span_ends: &Vec<String>,
    reading_times: &Vec<String>,
) -> (r: Vec<String>)
    requires
        active_starts.len() == store.actives.len(),
        span_starts.len() == store.spans.len(),
        span_ends.len() == store.spans.len(),
        reading_times.len() == entries.len(),
    ensures
        string_views(r@) == report_text(
            store@,
            entries_view(entries@),
            now,
            log@,
            string_views(active_starts@),
            string_views(span_starts@),
            string_views(span_ends@),
            string_views(reading_times@),
        ),
{
    let ghost sv = store@;
    let ghost ev = entries_view(entries@);
    let ghost ast = string_views(active_starts@);
    let ghost sst = string_views(span_starts@);
    let ghost set = string_views(span_ends@);
    let ghost rt = string_views(reading_times@);
    let mut out: Vec<String> = Vec::new();
    push_line(&mut out, concat_str("Log: ", log));
    push_line(&mut out, count_line("Spans: ", store.spans.len()));
    push_line(&mut out, count_line("Battery observations: ", entries.len()));

    let mut current: Vec<String> = Vec::new();
    let na = store.actives.len();
    if na > 0 {
        push_line(&mut current, String::new());
        push_line(&mut current, String::from_str("Current spans:"));
        let mut i: usize = 0;
        while i < na
            invariant
                i <= na,
                na == store.actives@.len(),
                active_starts@.len() == na,
                sv == store@,
                ast == string_views(active_starts@),
                string_views(current@) == seq![Seq::<char>::empty(), "Current spans:"@]
                    + active_blocks(sv.actives, now, ast, i as int),
            decreases na - i,
        {
            active_block_lines(&mut current, &store.actives[i], now, active_starts[i].as_str());
            proof {
                assert(sv.actives[i as int] == store.actives@[i as int]@);
                assert(ast[i as int] == active_starts@[i as int]@);
            }
            i = i + 1;
        }
    } else {
        assert(string_views(current@) =~= Seq::<Seq<char>>::empty());
    }

    let mut recent: Vec<String> = Vec::new();
    let ns = store.spans.len();
    if ns > 0 {
        push_line(&mut recent, String::new());
        push_line(&mut recent, String::from_str("Recent spans:"));
        let from = recent_start(ns);
        let mut j: usize = from;
        while j < ns
            invariant
                from <= j <= ns,
                from == recent_from(ns as int),
                ns == store.spans@.len(),
                span_starts@.len() == ns,
                span_ends@.len() == ns,
                sv == store@,
                sst == string_views(span_starts@),
                set == string_views(span_ends@),
                string_views(recent@) == seq![Seq::<char>::empty(), "Recent spans:"@] + span_blocks(
                    sv.spans,
                    sst,
                    set,
                    from as int,
                    j as int,
                ),
            decreases ns - j,
        {
            span_block_lines(&mut recent, &store.spans[j], span_starts[j].as_str(), span_ends[j].as_str());
            proof {
                assert(sv.spans[j as int] == store.spans@[j as int]@);
                assert(sst[j as int] == span_starts@[j as int]@);
                assert(set[j as int] == span_ends@[j as int]@);
            }
            j = j + 1;
        }
    } else {
        assert(string_views(recent@) =~= Seq::<Seq<char>>::empty());
    }

    let mut readings: Vec<String> = Vec::new();
    let ne = entries.len();
    if ne > 0 {
        push_line(&mut readings, String::new());
        push_line(&mut readings, String::from_str("Recent battery observations:"));
        let from = recent_start(ne);
        let mut k: usize = from;
        while k < ne
            invariant
                from <= k <= ne,
                from == recent_from(ne as int),
                ne == entries@.len(),
                reading_times@.len() == ne,
                ev == entries_view(entries@),
                rt == string_views(reading_times@),
                string_views(readings@) == seq![Seq::<char>::empty(), "Recent battery observations:"@]
                    + reading_lines(ev, rt, from as int, k as int),
            decreases ne - k,
        {
            let entry = &entries[k];
            let line = match &entry.name {
                Some(n) => battery_observation_line(
                    &entry.address,
                    Some(n.as_str()),
                    &entry.observation,
                    reading_times[k].as_str(),
                ),
                None => battery_observation_line(
                    &entry.address,
                    None,
                    &entry.observation,
                    reading_times[k].as_str(),
                ),
            };
            proof {
                assert(ev[k as int] == entries@[k as int]@);
                assert(rt[k as int] == reading_times@[k as int]@);
            }
            push_line(&mut readings, line);
            assert(string_views(readings@) =~= seq![Seq::<char>::empty(), "Recent battery observations:"@]
                + reading_lines(ev, rt, from as int, k + 1));
            k = k + 1;
        }
    } else {
        assert(string_views(readings@) =~= Seq::<Seq<char>>::empty());
    }

    append_lines(&mut out, current);
    append_lines(&mut out, recent);
    append_lines(&mut out, readings);
    assert(string_views(out@) =~= report_text(sv, ev, now, log@, ast, sst, set, rt));
    out
}

} // verus!

verus! {

proof fn lemma_reading_lines_shape(
    entries: Seq<EntryView>,
    times: Seq<Seq<char>>,
    from: int,
    to: int,
)
    requires
        from <= to,
    ensures
        reading_lines(entries, times, from, to).len() == to - from,
        forall|i: int|
            0 <= i < to - from ==> #[trigger] reading_lines(entries, times, from, to)[i]
                == reading_text(
                entries[from + i].address,
                entries[from + i].name,
                entries[from + i].observation,
                times[from + i],
            ),
    decreases to - from,
{
    if from < to {
        lemma_reading_lines_shape(entries, times, from, to - 1);
        let p = reading_lines(entries, times, from, to - 1);
        assert forall|i: int| 0 <= i < to - from implies #[trigger] reading_lines(
            entries,
            times,
            from,
            to,
        )[i] == reading_text(
            entries[from + i].address,
            entries[from + i].name,
            entries[from + i].observation,
            times[from + i],
        ) by {
            if i < to - from - 1 {
                assert(reading_lines(entries, times, from, to)[i] == p[i]);
            }
        }
    }
}

/// When there are readings, the report ends with them: a blank line, the
/// title, then the last ten readings (all of them when there are fewer),
/// oldest first, each with the time it is shown at.
pub proof fn lemma_report_ends_with_recent_readings(
    store: StoreView,
    entries: Seq<EntryView>,
    now: Timestamp,
    log: Seq<char>,
    active_starts: Seq<Seq<char>>,
    span_starts: Seq<Seq<char>>,
    span_ends: Seq<Seq<char>>,
    reading_times: Seq<Seq<char>>,
)
    requires
        entries.len() > 0,
    ensures
        ({
            let r = report_text(
                store,
                entries,
                now,
                log,
                active_starts,
                span_starts,
                span_ends,
                reading_times,
            );
            let n = entries.len() as int;
            let shown: int = if n > 10 {
                10
            } else {
                n
            };
            &&& r.len() >= shown + 2
            &&& r[r.len() - shown - 2] == Seq::<char>::empty()
            &&& r[r.len() - shown - 1] == "Recent battery observations:"@
            &&& forall|i: int|
                0 <= i < shown ==> #[trigger] r[r.len() - shown + i] == reading_text(
                    entries[n - shown + i].address,
                    entries[n - shown + i].name,
                    entries[n - shown + i].observation,
                    reading_times[n - shown + i],
                )
        }),
{
    let r = report_text(store, entries, now, log, active_starts, span_starts, span_ends, reading_times);
    let n = entries.len() as int;
    let shown: int = if n > 10 {
        10
    } else {
        n
    };
    let from = recent_from(n);
    assert(from == n - shown);
    lemma_reading_lines_shape(entries, reading_times, from, n);
    let tail = seq![Seq::<char>::empty(), "Recent battery observations:"@] + reading_lines(
        entries,
        reading_times,
        from,
        n,
    );
    let a = store.actives;
    let s = store.spans;
    let front = seq![
        "Log: "@ + log,
        "Spans: "@ + decimal(s.len()),
        "Battery observations: "@ + decimal(entries.len()),
    ] + (if a.len() > 0 {
        seq![Seq::<char>::empty(), "Current spans:"@] + active_blocks(a, now, active_starts, a.len() as int)
    } else {
        Seq::empty()
    }) + (if s.len() > 0 {
        seq![Seq::<char>::empty(), "Recent spans:"@] + span_blocks(
            s,
            span_starts,
            span_ends,
            recent_from(s.len() as int),
            s.len() as int,
        )
    } else {
        Seq::empty()
    });
    assert(r == front + tail);
    assert(tail.len() == shown + 2);
    assert(r[r.len() - shown - 2] == tail[0]);
    assert(r[r.len() - shown - 1] == tail[1]);
    assert forall|i: int| 0 <= i < shown implies #[trigger] r[r.len() - shown + i] == reading_text(
        entries[n - shown + i].address,
        entries[n - shown + i].name,
        entries[n - shown + i].observation,
        reading_times[n - shown + i],
    ) by {
        assert(r[r.len() - shown + i] == tail[2 + i]);
        assert(tail[2 + i] == reading_lines(entries, reading_times, from, n)[i]);
    }
}

} // verus!

verus! {

proof fn lemma_span_blocks_show_each_span(
    spans: Seq<SpanView>,
    starts: Seq<Seq<char>>,
    ends: Seq<Seq<char>>,
    from: int,
    to: int,
)
    ensures
        forall|k: int|
            from <= k < to ==> span_blocks(spans, starts, ends, from, to).contains(
                #[trigger] span_text(spans[k], starts[k], ends[k]),
            ),
    decreases to - from,
{
    if from < to {
        lemma_span_blocks_show_each_span(spans, starts, ends, from, to - 1);
        let p = span_blocks(spans, starts, ends, from, to - 1);
        let b = span_block(spans[to - 1], starts[to - 1], ends[to - 1]);
        let q = span_blocks(spans, starts, ends, from, to);
        assert(q == p + b);
        assert forall|k: int| from <= k < to implies q.contains(
            #[trigger] span_text(spans[k], starts[k], ends[k]),
        ) by {
            if k < to - 1 {
                let x = span_text(spans[k], starts[k], ends[k]);
                let m = choose|m: int| 0 <= m < p.len() && p[m] == x;
                assert(q[m] == x);
            } else {
                assert(q[p.len() as int] == b[0]);
            }
        }
    }
}

proof fn lemma_active_blocks_show_each_span(
    actives: Seq<ActiveView>,
    now: Timestamp,
    starts: Seq<Seq<char>>,
    count: int,
)
    ensures
        forall|k: int|
            0 <= k < count ==> active_blocks(actives, now, starts, count).contains(
                #[trigger] current_text(actives[k].started_at, now, starts[k]),
            ),
    decreases count,
{
    if count > 0 {
        lemma_active_blocks_show_each_span(actives, now, starts, count - 1);
        let p = active_blocks(actives, now, starts, count - 1);
        let b = active_block(actives[count - 1], now, starts[count - 1]);
        let q = active_blocks(actives, now, starts, count);
        assert(q == p + b);
        assert forall|k: int| 0 <= k < count implies q.contains(
            #[trigger] current_text(actives[k].started_at, now, starts[k]),
        ) by {
            if k < count - 1 {
                let x = current_text(actives[k].started_at, now, starts[k]);
                let m = choose|m: int| 0 <= m < p.len() && p[m] == x;
                assert(q[m] == x);
            } else {
                assert(q[p.len() as int + 1] == b[1]);
            }
        }
    }
}

/// The report begins with the path of the log, the number of completed
/// spans and the number of readings; it shows how long every open span has
/// been open, and the line of each of the last ten completed spans (all of
/// them when there are fewer).
pub proof fn lemma_report_shows_counts_and_spans(
    store: StoreView,
    entries: Seq<EntryView>,
    now: Timestamp,
    log: Seq<char>,
    active_starts: Seq<Seq<char>>,
    span_starts: Seq<Seq<char>>,
    span_ends: Seq<Seq<char>>,
    reading_times: Seq<Seq<char>>,
)
    ensures
        ({
            let r = report_text(
                store,
                entries,
                now,
                log,
                active_starts,
                span_starts,
                span_ends,
                reading_times,
            );
            let n = store.spans.len() as int;
            &&& r.len() >= 3
            &&& r[0] == "Log: "@ + log
            &&& r[1] == "Spans: "@ + decimal(store.spans.len())
            &&& r[2] == "Battery observations: "@ + decimal(entries.len())
            &&& forall|k: int|
                0 <= k < store.actives.len() ==> r.contains(
                    #[trigger] current_text(store.actives[k].started_at, now, active_starts[k]),
                )
            &&& forall|k: int|
                n - 10 <= k < n && 0 <= k ==> r.contains(
                    #[trigger] span_text(store.spans[k], span_starts[k], span_ends[k]),
                )
        }),
{
    let r = report_text(store, entries, now, log, active_starts, span_starts, span_ends, reading_times);
    let a = store.actives;
    let s = store.spans;
    let n = s.len() as int;
    let head = seq![
        "Log: "@ + log,
        "Spans: "@ + decimal(s.len()),
        "Battery observations: "@ + decimal(entries.len()),
    ];
    let cur = if a.len() > 0 {
        seq![Seq::<char>::empty(), "Current spans:"@] + active_blocks(a, now, active_starts, a.len() as int)
    } else {
        Seq::empty()
    };
    let rec = if s.len() > 0 {
        seq![Seq::<char>::empty(), "Recent spans:"@] + span_blocks(
            s,
            span_starts,
            span_ends,
            recent_from(n),
            n,
        )
    } else {
        Seq::empty()
    };
    let rd = if entries.len() > 0 {
        seq![Seq::<char>::empty(), "Recent battery observations:"@] + reading_lines(
            entries,
            reading_times,
            recent_from(entries.len() as int),
            entries.len() as int,
        )
    } else {
        Seq::empty()
    };
    assert(r == head + cur + rec + rd);
    assert(r[0] == head[0]);
    assert(r[1] == head[1]);
    assert(r[2] == head[2]);
    lemma_active_blocks_show_each_span(a, now, active_starts, a.len() as int);
    lemma_span_blocks_show_each_span(s, span_starts, span_ends, recent_from(n), n);
    assert forall|k: int| 0 <= k < a.len() implies r.contains(
        #[trigger] current_text(a[k].started_at, now, active_starts[k]),
    ) by {
        let x = current_text(a[k].started_at, now, active_starts[k]);
        let blocks = active_blocks(a, now, active_starts, a.len() as int);
        assert(blocks.contains(x));
        let m = choose|m: int| 0 <= m < blocks.len() && blocks[m] == x;
        assert(cur[m + 2] == x);
        assert(r[3 + m + 2] == x);
    }
    assert forall|k: int| n - 10 <= k < n && 0 <= k implies r.contains(
        #[trigger] span_text(s[k], span_starts[k], span_ends[k]),
    ) by {
        let x = span_text(s[k], span_starts[k], span_ends[k]);
        let blocks = span_blocks(s, span_starts, span_ends, recent_from(n), n);
        assert(blocks.contains(x));
        let m = choose|m: int| 0 <= m < blocks.len() && blocks[m] == x;
        assert(rec[m + 2] == x);
        assert(r[3 + cur.len() + m + 2] == x);
    }
}

} // verus!

verus! {

/// The readings come out in time order, as many as went in.
pub proof fn lemma_readings_sorted_by_time(entries: Seq<EntryView>, sorted: Seq<EntryView>)
    requires
        stably_sorted_by_time(entries, sorted),
    ensures
        sorted.len() == entries.len(),
        forall|a: int, b: int|
            0 <= a < b < sorted.len() ==> (#[trigger] sorted[a]).observation.observed_at.instant()
                <= (#[trigger] sorted[b]).observation.observed_at.instant(),
{
    let order = choose|order: Seq<int>|
        stable_order(entries, order) && sorted == order.map_values(|k: int| entries[k]);
    assert forall|a: int, b: int| 0 <= a < b < sorted.len() implies (
    #[trigger] sorted[a]).observation.observed_at.instant() <= (
    #[trigger] sorted[b]).observation.observed_at.instant() by {
        assert(sorted[a] == entries[order[a]]);
        assert(sorted[b] == entries[order[b]]);
        assert(time_key(entries[order[a]]) < time_key(entries[order[b]]) || time_key(
            entries[order[a]],
        ) == time_key(entries[order[b]]));
    }
}

} // verus!
