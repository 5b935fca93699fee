//! The decisions of the watcher: what an observation of a device does to the
//! stored spans, which device each configured address stands for, and how
//! the watcher reacts to timers, sleep and BlueZ signals.
use vstd::prelude::*;
use crate::address::BluetoothAddress;
use crate::device::{DeviceInfo, DeviceView};
use crate::display::{duration_text, format_duration};
use crate::order::{address_views, strictly_sorted, unique_addresses};
use crate::report::{device_label as named_label, label_text};
use crate::search::{first_true, lemma_first_true_at, lemma_first_true_none};
use crate::storage::{
    ActiveView, ConnectOutcome, DisconnectOutcome, Persist, SpanRecord, SpanView, Store, StoreView,
    close_all, connect, disconnect, union_persist, find_active, find_last_span, first_active, last_span_for, mark_connected,
    mark_disconnected, span_seconds,
};
use crate::text::{
    append_lines, clone_opt_string, concat_str, from_chars, join, opt_seq, push_line, push_str,
    string_views,
};
use crate::timestamp::Timestamp;

verus! {

/// What was seen, and why the tracker looked.
pub struct Observation {
    pub trigger: String,
    pub observation: String,
    pub end_uncertain: bool,
}

impl Observation {
    pub open spec fn spec_source(&self) -> Seq<char> {
        self.trigger@ + ": "@ + self.observation@
    }

    /// The source recorded with the span: `trigger: observation`.
    pub fn source(&self) -> (r: String)
        ensures
            r@ == self.spec_source(),
    {
        proof {
            reveal_strlit(": ");
        }
        let mut out: Vec<char> = Vec::new();
        push_str(&mut out, self.trigger.as_str());
        push_str(&mut out, ": ");
        push_str(&mut out, self.observation.as_str());
        from_chars(out.as_slice())
    }
}

/// How a device is named in the output of the watcher.
pub fn device_label(device: &DeviceInfo) -> (r: String)
    ensures
        r@ == label_text(device@.address, device@.name),
{
    match &device.name {
        Some(name) => named_label(&device.address, Some(name.as_str())),
        None => named_label(&device.address, None),
    }
}

/// The effect of an observation on the stored spans.
#[derive(Debug)]
pub enum Applied {
    Connected(ConnectOutcome),
    Disconnected(DisconnectOutcome, Persist),
}

/// A device seen connected starts (or keeps) its span; a device seen
/// disconnected closes it, with the certainty the observation carries.
pub fn apply_observed_state(
    store: &mut Store,
    device: &DeviceInfo,
    observed_at: Timestamp,
    observation: &Observation,
) -> (r: Applied)
    ensures
        device.connected ==> (r matches Applied::Connected(outcome) && (final(store)@, outcome)
            == connect(old(store)@, device@, observed_at, observation.spec_source())),
        !device.connected ==> (r matches Applied::Disconnected(outcome, persist) && (
            final(store)@,
            outcome@,
            persist,
        ) == disconnect(
            old(store)@,
            device@,
            observed_at,
            observation.spec_source(),
            observation.end_uncertain,
        )),
{
    let source = observation.source();
    if device.connected {
        Applied::Connected(mark_connected(store, device, observed_at, source.as_str()))
    } else {
        let (outcome, persist) = mark_disconnected(
            store,
            device,
            observed_at,
            source.as_str(),
            observation.end_uncertain,
        );
        Applied::Disconnected(outcome, persist)
    }
}

/// The line printed when a span starts: `Connected <device> via <source> at <time>`.
pub fn connected_message(device: &DeviceInfo, source: &str, time: &str) -> (r: String)
    ensures
        r@ == "Connected "@ + label_text(device@.address, device@.name) + " via "@ + source@
            + " at "@ + time@,
{
    proof {
        reveal_strlit("Connected ");
        reveal_strlit(" via ");
        reveal_strlit(" at ");
    }
    let label = device_label(device);
    let mut out: Vec<char> = Vec::new();
    push_str(&mut out, "Connected ");
    push_str(&mut out, label.as_str());
    push_str(&mut out, " via ");
    push_str(&mut out, source);
    push_str(&mut out, " at ");
    push_str(&mut out, time);
    from_chars(out.as_slice())
}

/// The line printed when a span closes:
/// `Disconnected <device> via <source> at <time> after <duration>`, with
/// ` (uncertain)` appended when the end is uncertain.
pub fn disconnected_message(device: &DeviceInfo, source: &str, time: &str, span: &SpanRecord) -> (r:
    String)
    ensures
        r@ == "Disconnected "@ + label_text(device@.address, device@.name) + " via "@ + source@
            + " at "@ + time@ + " after "@ + duration_text(
            span_seconds(span.started_at, span.ended_at),
        ) + if span.end_uncertain {
            " (uncertain)"@
        } else {
            Seq::empty()
        },
{
    proof {
        reveal_strlit("Disconnected ");
        reveal_strlit(" via ");
        reveal_strlit(" at ");
        reveal_strlit(" after ");
        reveal_strlit(" (uncertain)");
    }
    let label = device_label(device);
    let seconds = span.duration_seconds();
    let duration = format_duration(seconds as i64);
    let mut out: Vec<char> = Vec::new();
    push_str(&mut out, "Disconnected ");
    push_str(&mut out, label.as_str());
    push_str(&mut out, " via ");
    push_str(&mut out, source);
    push_str(&mut out, " at ");
    push_str(&mut out, time);
    push_str(&mut out, " after ");
    push_str(&mut out, duration.as_str());
    if span.end_uncertain {
        push_str(&mut out, " (uncertain)");
    }
    assert(seconds as i64 as int == span_seconds(span.started_at, span.ended_at));
    from_chars(out.as_slice())
}

pub open spec fn device_views(v: Seq<DeviceInfo>) -> Seq<DeviceView> {
    v.map_values(|d: DeviceInfo| d@)
}

/// The first device with the address.
pub open spec fn first_device(devices: Seq<DeviceView>, address: Seq<char>) -> Option<int> {
    first_true(devices.map_values(|d: DeviceView| d.address == address))
}

/// Finds the first device with the address.
pub fn find_device(devices: &Vec<DeviceInfo>, address: &BluetoothAddress) -> (r: Option<usize>)
    ensures
        match r {
            Some(i) => i < devices@.len() && first_device(device_views(devices@), address@) == Some(
                i as int,
            ),
            None => first_device(device_views(devices@), address@) is None,
        },
{
    let ghost bs = device_views(devices@).map_values(|d: DeviceView| d.address == address@);
    let n = devices.len();
    let mut i: usize = 0;
    while i < n
        invariant
            i <= n,
            n == devices@.len(),
            bs.len() == n,
            bs == device_views(devices@).map_values(|d: DeviceView| d.address == address@),
            forall|k: int| 0 <= k < i ==> !bs[k],
        decreases n - i,
    {
        if devices[i].address == *address {
            proof {
                lemma_first_true_at(bs, i as int);
            }
            return Some(i);
        }
        i = i + 1;
    }
    proof {
        lemma_first_true_none(bs);
    }
    None
}

/// The device that stands for a configured address that BlueZ does not list.
pub open spec fn missing_device(address: Seq<char>) -> DeviceView {
    DeviceView { path: Seq::empty(), address, name: None, connected: false }
}

/// What a resync reports of one configured address: the device BlueZ lists
/// for it, or a disconnected stand-in when it lists none; and the observation
/// to apply. A device that is listed but not connected, or not listed at all,
/// ends its span as uncertain.
pub fn observe_address(visible: &Vec<DeviceInfo>, address: &BluetoothAddress, trigger: &str) -> (r: (
    DeviceInfo,
    Observation,
))
    ensures
        r.1.trigger@ == trigger@,
        match first_device(device_views(visible@), address@) {
            Some(k) => {
                &&& r.0@ == visible@[k]@
                &&& r.1.observation@ == if visible@[k].connected {
                    "device reported connected"@
                } else {
                    "device reported disconnected"@
                }
                &&& r.1.end_uncertain == !visible@[k].connected
            },
            None => {
                &&& r.0@ == missing_device(address@)
                &&& r.1.observation@ == "device missing"@
                &&& r.1.end_uncertain
            },
        },
{
    match find_device(visible, address) {
        Some(k) => {
            let device = visible[k].clone();
            let observation = if device.connected {
                "device reported connected"
            } else {
                "device reported disconnected"
            };
            let uncertain = !device.connected;
            (
                device,
                Observation {
                    trigger: String::from_str(trigger),
                    observation: String::from_str(observation),
                    end_uncertain: uncertain,
                },
            )
        },
        None => (
            DeviceInfo {
                path: String::new(),
                address: address.clone(),
                name: None,
                connected: false,
            },
            Observation {
                trigger: String::from_str(trigger),
                observation: String::from_str("device missing"),
                end_uncertain: true,
            },
        ),
    }
}

/// The kept devices after a resync of one address: the listed device
/// replaces the kept one with its address (or joins the list); a device
/// that is no longer listed is kept, marked disconnected.
pub open spec fn tracked_after(
    devices: Seq<DeviceView>,
    address: Seq<char>,
    seen: Option<DeviceView>,
) -> Seq<DeviceView> {
    match seen {
        Some(d) => match first_device(devices, address) {
            Some(k) => devices.update(k, d),
            None => devices.push(d),
        },
        None => match first_device(devices, address) {
            Some(k) => devices.update(k, DeviceView { connected: false, ..devices[k] }),
            None => devices,
        },
    }
}

/// Updates the kept devices after a resync of one address.
pub fn track_device(
    devices: &mut Vec<DeviceInfo>,
    address: &BluetoothAddress,
    seen: Option<&DeviceInfo>,
)
    ensures
        device_views(final(devices)@) == tracked_after(
            device_views(old(devices)@),
            address@,
            match seen {
                Some(d) => Some(d@),
                None => None,
            },
        ),
{
    let ghost pre = device_views(devices@);
    match find_device(devices, address) {
        Some(k) => {
            let mut kept = devices.remove(k);
            match seen {
                Some(d) => {
                    kept = d.clone();
                },
                None => {
                    kept.connected = false;
                },
            }
            devices.insert(k, kept);
            proof {
                assert(device_views(devices@) =~= tracked_after(
                    pre,
                    address@,
                    match seen {
                        Some(d) => Some(d@),
                        None => None,
                    },
                ));
            }
        },
        None => {
            if let Some(d) = seen {
                devices.push(d.clone());
                assert(device_views(devices@) =~= pre.push(d@));
            }
        },
    }
}

/// The line printed when watching starts.
pub open spec fn tracking_text(devices: Seq<DeviceView>, configured: nat) -> Seq<char> {
    if devices.len() == 0 {
        "Tracking "@ + crate::text::decimal(configured) + " configured device"@ + (if configured
            == 1 {
            Seq::empty()
        } else {
            "s"@
        }) + "; none currently visible"@
    } else {
        "Tracking "@ + join(devices.map_values(|d: DeviceView| label_text(d.address, d.name)), ", "@)
    }
}

pub fn tracking_message(devices: &Vec<DeviceInfo>, configured: usize) -> (r: String)
    ensures
        r@ == tracking_text(device_views(devices@), configured as nat),
{
    proof {
        reveal_strlit("Tracking ");
        reveal_strlit(" configured device");
        reveal_strlit("s");
        reveal_strlit("; none currently visible");
        reveal_strlit(", ");
    }
    let mut out: Vec<char> = Vec::new();
    push_str(&mut out, "Tracking ");
    if devices.len() == 0 {
        crate::text::push_decimal(&mut out, configured as u64);
        push_str(&mut out, " configured device");
        if configured != 1 {
            push_str(&mut out, "s");
        }
        push_str(&mut out, "; none currently visible");
        return from_chars(out.as_slice());
    }
    let ghost labels = device_views(devices@).map_values(
        |d: DeviceView| label_text(d.address, d.name),
    );
    let n = devices.len();
    let mut i: usize = 0;
    while i < n
        invariant
            0 < n == devices@.len(),
            i <= n,
            labels == device_views(devices@).map_values(|d: DeviceView| label_text(d.address, d.name)),
            out@ == "Tracking "@ + join(labels.take(i as int), ", "@),
        decreases n - i,
    {
        let label = device_label(&devices[i]);
        proof {
            assert(labels.take(i + 1) =~= labels.take(i as int).push(labels[i as int]));
            assert(labels[i as int] == label@);
            if i > 0 {
                assert(labels.take(i + 1).drop_last() =~= labels.take(i as int));
            }
        }
        if i > 0 {
            push_str(&mut out, ", ");
        }
        push_str(&mut out, label.as_str());
        i = i + 1;
    }
    assert(labels.take(n as int) =~= labels);
    from_chars(out.as_slice())
}


/// Marks every tracked device disconnected (the system is going to sleep).
pub fn mark_all_disconnected(devices: &mut Vec<DeviceInfo>)
    ensures
        final(devices)@.len() == old(devices)@.len(),
        forall|i: int|
            0 <= i < final(devices)@.len() ==> #[trigger] final(devices)@[i]@ == (DeviceView {
                connected: false,
                ..old(devices)@[i]@
            }),
{
    let n = devices.len();
    let mut i: usize = 0;
    while i < n
        invariant
            i <= n,
            n == devices@.len(),
            n == old(devices)@.len(),
            forall|k: int|
                0 <= k < i ==> #[trigger] devices@[k]@ == (DeviceView {
                    connected: false,
                    ..old(devices)@[k]@
                }),
            forall|k: int| i <= k < n ==> #[trigger] devices@[k] == old(devices)@[k],
        decreases n - i,
    {
        let mut d = devices.remove(i);
        d.connected = false;
        devices.insert(i, d);
        i = i + 1;
    }
}

/// The observation applied to every tracked device when the system goes to
/// sleep: a certain end.
pub fn sleep_observation() -> (r: Observation)
    ensures
        r.trigger@ == "system sleep signal"@,
        r.observation@ == "system entering sleep"@,
        !r.end_uncertain,
{
    Observation {
        trigger: String::from_str("system sleep signal"),
        observation: String::from_str("system entering sleep"),
        end_uncertain: false,
    }
}

/// The source recorded with spans that sleep closes.
pub open spec fn sleep_source() -> Seq<char> {
    "system sleep signal"@ + ": "@ + "system entering sleep"@
}

/// The system goes to sleep at `at`: every tracked device is marked
/// disconnected and its open span is closed, as certain, from the sleep
/// source. Gives what each close gave, device by device, and which files
/// changed.
pub fn close_spans_for_sleep(store: &mut Store, devices: &mut Vec<DeviceInfo>, at: Timestamp) -> (r: (
    Vec<DisconnectOutcome>,
    Persist,
))
    ensures
        final(devices)@.len() == old(devices)@.len(),
        forall|i: int|
            0 <= i < final(devices)@.len() ==> #[trigger] final(devices)@[i]@ == (DeviceView {
                connected: false,
                ..old(devices)@[i]@
            }),
        (final(store)@, r.1) == close_all(
            old(store)@,
            device_views(final(devices)@),
            at,
            sleep_source(),
            false,
        ),
        r.0@.len() == old(devices)@.len(),
        forall|i: int|
            0 <= i < r.0@.len() ==> (#[trigger] r.0@[i])@ == disconnect(
                close_all(old(store)@, device_views(final(devices)@).take(i), at, sleep_source(), false).0,
                final(devices)@[i]@,
                at,
                sleep_source(),
                false,
            ).1,
{
    let ghost pre = store@;
    mark_all_disconnected(devices);
    let ghost dv = device_views(devices@);
    let observation = sleep_observation();
    let source = observation.source();
    let mut outcomes: Vec<DisconnectOutcome> = Vec::new();
    let mut persist = Persist::Nothing;
    let n = devices.len();
    let mut i: usize = 0;
    assert(dv.take(0) =~= Seq::<DeviceView>::empty());
    while i < n
        invariant
            i <= n,
            n == devices@.len(),
            dv == device_views(devices@),
            source@ == sleep_source(),
            (store@, persist) == close_all(pre, dv.take(i as int), at, sleep_source(), false),
            outcomes@.len() == i,
            forall|k: int|
                0 <= k < i ==> (#[trigger] outcomes@[k])@ == disconnect(
                    close_all(pre, dv.take(k), at, sleep_source(), false).0,
                    devices@[k]@,
                    at,
                    sleep_source(),
                    false,
                ).1,
        decreases n - i,
    {
        proof {
            let t = dv.take(i + 1);
            assert(t.drop_last() =~= dv.take(i as int));
            assert(t.last() == devices@[i as int]@);
        }
        let (outcome, changed) = mark_disconnected(store, &devices[i], at, source.as_str(), false);
        persist = union_persist(persist, changed);
        outcomes.push(outcome);
        i = i + 1;
    }
    assert(dv.take(n as int) =~= dv);
    (outcomes, persist)
}

/// Why the watcher resyncs.
#[derive(Debug, Clone, Copy, PartialEq, Eq, Structural)]
pub enum ResyncTrigger {
    Startup,
    Periodic,
    Wake,
    Change,
}

impl ResyncTrigger {
    pub open spec fn spec_text(self) -> Seq<char> {
        match self {
            ResyncTrigger::Startup => "startup resync"@,
            ResyncTrigger::Periodic => "periodic resync"@,
            ResyncTrigger::Wake => "wake resync"@,
            ResyncTrigger::Change => "BlueZ change signal"@,
        }
    }

    /// The trigger recorded in span sources.
    pub fn text(self) -> (r: &'static str)
        ensures
            r@ == self.spec_text(),
    {
        match self {
            ResyncTrigger::Startup => "startup resync",
            ResyncTrigger::Periodic => "periodic resync",
            ResyncTrigger::Wake => "wake resync",
            ResyncTrigger::Change => "BlueZ change signal",
        }
    }
}

/// What the watcher receives.
#[derive(Debug, Clone, Copy, PartialEq, Eq, Structural)]
pub enum WatchEvent {
    /// Ctrl-C.
    Interrupted,
    /// The periodic resync timer fired.
    ResyncTimer,
    /// logind's `PrepareForSleep`: `true` when going to sleep, `false` on wake.
    PrepareForSleep(bool),
    /// BlueZ reported changed device properties.
    DevicePropertiesChanged,
    /// The changed properties include `Connected`.
    ConnectedChanged,
}

/// What the watcher does in response.
#[derive(Debug, Clone, Copy, PartialEq, Eq, Structural)]
pub enum WatchAction {
    /// Stop watching.
    Stop,
    /// Query BlueZ and apply what it reports for every configured address.
    Resync(ResyncTrigger),
    /// Close the spans of all tracked devices as disconnected by sleep.
    EnterSleep,
    /// Look into the changed properties; report `ConnectedChanged` if
    /// `Connected` is among them.
    InspectChange,
    /// Nothing to do.
    Ignore,
}

/// The watcher's reaction: while asleep it neither resyncs on the timer nor
/// on BlueZ signals; going to sleep closes the spans once; waking resyncs.
pub open spec fn watch_step(sleeping: bool, event: WatchEvent) -> (bool, WatchAction) {
    match event {
        WatchEvent::Interrupted => (sleeping, WatchAction::Stop),
        WatchEvent::ResyncTimer => if sleeping {
            (true, WatchAction::Ignore)
        } else {
            (false, WatchAction::Resync(ResyncTrigger::Periodic))
        },
        WatchEvent::PrepareForSleep(entering) => if entering {
            if sleeping {
                (true, WatchAction::Ignore)
            } else {
                (true, WatchAction::EnterSleep)
            }
        } else {
            (false, WatchAction::Resync(ResyncTrigger::Wake))
        },
        WatchEvent::DevicePropertiesChanged => if sleeping {
            (true, WatchAction::Ignore)
        } else {
            (false, WatchAction::InspectChange)
        },
        WatchEvent::ConnectedChanged => if sleeping {
            (true, WatchAction::Ignore)
        } else {
            (false, WatchAction::Resync(ResyncTrigger::Change))
        },
    }
}

/// The state of the watch loop.
#[derive(Debug)]
pub struct Watcher {
    sleeping: bool,
}

impl Watcher {
    pub closed spec fn is_sleeping(&self) -> bool {
        self.sleeping
    }

    /// A watcher that is awake.
    pub fn new() -> (r: Self)
        ensures
            !r.is_sleeping(),
    {
        Watcher { sleeping: false }
    }

    pub fn sleeping(&self) -> (r: bool)
        ensures
            r == self.is_sleeping(),
    {
        self.sleeping
    }

    /// Takes in an event and says what to do.
    pub fn step(&mut self, event: WatchEvent) -> (r: WatchAction)
        ensures
            (final(self).is_sleeping(), r) == watch_step(old(self).is_sleeping(), event),
    {
        match event {
            WatchEvent::Interrupted => WatchAction::Stop,
            WatchEvent::ResyncTimer => {
                if self.sleeping {
                    WatchAction::Ignore
                } else {
                    WatchAction::Resync(ResyncTrigger::Periodic)
                }
            },
            WatchEvent::PrepareForSleep(entering) => {
                if entering {
                    if self.sleeping {
                        WatchAction::Ignore
                    } else {
                        self.sleeping = true;
                        WatchAction::EnterSleep
                    }
                } else {
                    self.sleeping = false;
                    WatchAction::Resync(ResyncTrigger::Wake)
                }
            },
            WatchEvent::DevicePropertiesChanged => {
                if self.sleeping {
                    WatchAction::Ignore
                } else {
                    WatchAction::InspectChange
                }
            },
            WatchEvent::ConnectedChanged => {
                if self.sleeping {
                    WatchAction::Ignore
                } else {
                    WatchAction::Resync(ResyncTrigger::Change)
                }
            },
        }
    }
}

/// While the system sleeps, nothing but waking (or Ctrl-C) makes the watcher
/// act, and it stays asleep.
pub proof fn lemma_asleep_ignores_all_but_wake(event: WatchEvent)
    requires
        event != WatchEvent::PrepareForSleep(false),
        event != WatchEvent::Interrupted,
    ensures
        watch_step(true, event) == (true, WatchAction::Ignore),
{
}

/// Going to sleep closes the spans once: a second sleep signal before waking
/// does nothing.
pub proof fn lemma_sleep_closes_once(sleeping: bool)
    ensures
        ({
            let (asleep, _) = watch_step(sleeping, WatchEvent::PrepareForSleep(true));
            &&& asleep
            &&& watch_step(asleep, WatchEvent::PrepareForSleep(true)).1 == WatchAction::Ignore
        }),
{
}

/// Waking always resyncs, and leaves the watcher awake.
pub proof fn lemma_wake_resyncs(sleeping: bool)
    ensures
        watch_step(sleeping, WatchEvent::PrepareForSleep(false)) == (
            false,
            WatchAction::Resync(ResyncTrigger::Wake),
        ),
{
}


/// The devices that appear in the stored spans, open or completed.
pub open spec fn stored_addresses(store: StoreView) -> Set<Seq<char>> {
    store.actives.map_values(|a: ActiveView| a.device_address).to_set().union(
        store.spans.map_values(|s: SpanView| s.device_address).to_set(),
    )
}

proof fn lemma_concat_to_set(a: Seq<Seq<char>>, b: Seq<Seq<char>>)
    ensures
        (a + b).to_set() == a.to_set().union(b.to_set()),
{
    let c = a + b;
    assert forall|e: Seq<char>| c.to_set().contains(e) implies a.to_set().union(b.to_set()).contains(
        e,
    ) by {
        let k = choose|k: int| 0 <= k < c.len() && c[k] == e;
        if k < a.len() {
            assert(a[k] == e);
        } else {
            assert(b[k - a.len()] == e);
        }
    }
    assert forall|e: Seq<char>| a.to_set().union(b.to_set()).contains(e) implies c.to_set().contains(
        e,
    ) by {
        if a.to_set().contains(e) {
            let k = choose|k: int| 0 <= k < a.len() && a[k] == e;
            assert(c[k] == e);
        } else {
            let k = choose|k: int| 0 <= k < b.len() && b[k] == e;
            assert(c[k + a.len()] == e);
        }
    }
    assert(c.to_set() =~= a.to_set().union(b.to_set()));
}

/// Every device that has a stored span, each once, in ascending order.
pub fn known_device_addresses(store: &Store) -> (r: Vec<BluetoothAddress>)
    ensures
        strictly_sorted(address_views(r@)),
        address_views(r@).to_set() == stored_addresses(store@),
{
    let mut all: Vec<BluetoothAddress> = Vec::new();
    let n = store.actives.len();
    let mut i: usize = 0;
    while i < n
        invariant
            i <= n,
            n == store.actives@.len(),
            address_views(all@) == store@.actives.take(i as int).map_values(
                |a: ActiveView| a.device_address,
            ),
        decreases n - i,
    {
        let ghost before = address_views(all@);
        all.push(store.actives[i].device_address.clone());
        assert(store@.actives[i as int] == store.actives@[i as int]@);
        assert(address_views(all@) =~= before.push(store@.actives[i as int].device_address));
        assert(store@.actives.take(i + 1) =~= store@.actives.take(i as int).push(store@.actives[i as int]));
        assert(address_views(all@) =~= store@.actives.take(i + 1).map_values(
            |a: ActiveView| a.device_address,
        ));
        i = i + 1;
    }
    assert(store@.actives.take(n as int) =~= store@.actives);
    let ghost from_actives = address_views(all@);
    let m = store.spans.len();
    let mut j: usize = 0;
    while j < m
        invariant
            j <= m,
            m == store.spans@.len(),
            address_views(all@) == from_actives + store@.spans.take(j as int).map_values(
                |s: SpanView| s.device_address,
            ),
        decreases m - j,
    {
        let ghost before = address_views(all@);
        all.push(store.spans[j].device_address.clone());
        assert(store@.spans[j as int] == store.spans@[j as int]@);
        assert(address_views(all@) =~= before.push(store@.spans[j as int].device_address));
        assert(store@.spans.take(j + 1) =~= store@.spans.take(j as int).push(store@.spans[j as int]));
        assert(address_views(all@) =~= from_actives + store@.spans.take(j + 1).map_values(
            |s: SpanView| s.device_address,
        ));
        j = j + 1;
    }
    assert(store@.spans.take(m as int) =~= store@.spans);
    proof {
        let a = store@.actives.map_values(|a: ActiveView| a.device_address);
        let b = store@.spans.map_values(|s: SpanView| s.device_address);
        assert(address_views(all@) =~= a + b);
        lemma_concat_to_set(a, b);
    }
    unique_addresses(all)
}

/// The addresses that `status` reports: the given ones (each once, sorted),
/// or every stored device when none are given.
pub fn status_addresses(requested: Vec<BluetoothAddress>, store: &Store) -> (r: Vec<
    BluetoothAddress,
>)
    ensures
        strictly_sorted(address_views(r@)),
        requested@.len() == 0 ==> address_views(r@).to_set() == stored_addresses(store@),
        requested@.len() > 0 ==> address_views(r@).to_set() == address_views(requested@).to_set(),
{
    if requested.len() == 0 {
        known_device_addresses(store)
    } else {
        unique_addresses(requested)
    }
}

/// The open span of a device, as `status` shows it.
#[derive(Debug)]
pub struct ActiveSummary {
    pub started_at: Timestamp,
    /// Whole seconds since the start (negative if the start lies ahead).
    pub elapsed_seconds: i64,
    pub start_note: Option<String>,
    pub end_note: Option<String>,
}

/// What `status` shows of one device.
#[derive(Debug)]
pub struct DeviceStatus {
    pub address: BluetoothAddress,
    /// The name BlueZ reports, else the name saved with the open span, else
    /// the one saved with the latest completed span; empty if none.
    pub name: String,
    /// Whether BlueZ reports the device connected; `None` when it does not
    /// list the device.
    pub connected: Option<bool>,
    pub active: Option<ActiveSummary>,
}

pub open spec fn first_some(a: Option<Seq<char>>, b: Option<Seq<char>>, c: Option<Seq<char>>) -> Seq<
    char,
> {
    if a is Some {
        a.unwrap()
    } else if b is Some {
        b.unwrap()
    } else if c is Some {
        c.unwrap()
    } else {
        Seq::empty()
    }
}

/// The name `status` shows for a device.
pub open spec fn status_name(
    visible: Seq<DeviceView>,
    store: StoreView,
    address: Seq<char>,
) -> Seq<char> {
    first_some(
        match first_device(visible, address) {
            Some(k) => visible[k].name,
            None => None,
        },
        match first_active(store.actives, address) {
            Some(i) => store.actives[i].device_name,
            None => None,
        },
        match last_span_for(store.spans, address) {
            Some(j) => store.spans[j].device_name,
            None => None,
        },
    )
}

/// Gathers what `status` shows of a device at `now`.
pub fn device_status(
    address: &BluetoothAddress,
    visible: &Vec<DeviceInfo>,
    store: &Store,
    now: Timestamp,
) -> (r: DeviceStatus)
    ensures
        r.address@ == address@,
        r.name@ == status_name(device_views(visible@), store@, address@),
        r.connected == match first_device(device_views(visible@), address@) {
            Some(k) => Some(visible@[k].connected),
            None => None,
        },
        match first_active(store@.actives, address@) {
            Some(i) => r.active matches Some(s) && s.started_at == store@.actives[i].started_at
                && s.elapsed_seconds == crate::timestamp::whole_seconds(
                now.instant() - s.started_at.instant(),
            ) && opt_seq(s.start_note) == store@.actives[i].start_note && opt_seq(s.end_note)
                == store@.actives[i].end_note,
            None => r.active is None,
        },
{
    let device = find_device(visible, address);
    let active = find_active(&store.actives, address);
    let from_device = match device {
        Some(k) => clone_opt_string(&visible[k].name),
        None => None,
    };
    let name = match from_device {
        Some(n) => n,
        None => {
            let from_active = match active {
                Some(i) => clone_opt_string(&store.actives[i].device_name),
                None => None,
            };
            match from_active {
                Some(n) => n,
                None => {
                    let from_span = match find_last_span(&store.spans, address) {
                        Some(j) => clone_opt_string(&store.spans[j].device_name),
                        None => None,
                    };
                    match from_span {
                        Some(n) => n,
                        None => String::new(),
                    }
                },
            }
        },
    };
    let connected = match device {
        Some(k) => Some(visible[k].connected),
        None => None,
    };
    let summary = match active {
        Some(i) => {
            let a = &store.actives[i];
            Some(
                ActiveSummary {
                    started_at: a.started_at,
                    elapsed_seconds: now.whole_seconds_since(&a.started_at),
                    start_note: clone_opt_string(&a.start_note),
                    end_note: clone_opt_string(&a.end_note),
                },
            )
        },
        None => None,
    };
    DeviceStatus { address: address.clone(), name, connected, active: summary }
}

} // verus!

verus! {

/// `yes`, `no`, or `unknown` when BlueZ does not list the device.
pub open spec fn connected_text(connected: Option<bool>) -> Seq<char> {
    match connected {
        Some(true) => "yes"@,
        Some(false) => "no"@,
        None => "unknown"@,
    }
}

/// A line `<label><note>` when there is a note.
pub open spec fn labelled_note(label: Seq<char>, note: Option<Seq<char>>) -> Seq<Seq<char>> {
    match note {
        Some(n) => seq![label + n],
        None => Seq::empty(),
    }
}

/// What `status` prints for a device; `started` is how the start of its
/// open span is shown.
pub open spec fn status_text(status: DeviceStatus, started: Seq<char>) -> Seq<Seq<char>> {
    seq![
        "Address: "@ + status.address@,
        "Name: "@ + status.name@,
        "Connected: "@ + connected_text(status.connected),
    ] + match status.active {
        Some(a) => seq!["Active span: yes"@, "Started: "@ + started, "Elapsed: "@ + duration_text(
            a.elapsed_seconds as int,
        )] + labelled_note("Start note: "@, opt_seq(a.start_note)) + labelled_note(
            "End note: "@,
            opt_seq(a.end_note),
        ),
        None => seq!["Active span: no"@],
    }
}

fn push_labelled_note(out: &mut Vec<String>, label: &str, note: &Option<String>)
    ensures
        string_views(final(out)@) == string_views(old(out)@) + labelled_note(label@, opt_seq(*note)),
{
    match note {
        Some(n) => push_line(out, concat_str(label, n.as_str())),
        None => {
            assert(string_views(out@) =~= string_views(out@) + Seq::<Seq<char>>::empty());
        },
    }
}

/// The lines `status` prints for a device.
pub fn status_lines(status: &DeviceStatus, started: &str) -> (r: Vec<String>)
    ensures
        string_views(r@) == status_text(*status, started@),
{
    let mut out: Vec<String> = Vec::new();
    push_line(&mut out, concat_str("Address: ", status.address.as_str()));
    push_line(&mut out, concat_str("Name: ", status.name.as_str()));
    let connected = match status.connected {
        Some(true) => "yes",
        Some(false) => "no",
        None => "unknown",
    };
    push_line(&mut out, concat_str("Connected: ", connected));
    match &status.active {
        Some(a) => {
            push_line(&mut out, String::from_str("Active span: yes"));
            push_line(&mut out, concat_str("Started: ", started));
            push_line(&mut out, concat_str("Elapsed: ", format_duration(a.elapsed_seconds).as_str()));
            push_labelled_note(&mut out, "Start note: ", &a.start_note);
            push_labelled_note(&mut out, "End note: ", &a.end_note);
        },
        None => {
            push_line(&mut out, String::from_str("Active span: no"));
        },
    }
    assert(string_views(out@) =~= status_text(*status, started@));
    out
}

} // verus!

verus! {

/// The line begins with `prefix`.
pub open spec fn starts_with(line: Seq<char>, prefix: Seq<char>) -> bool {
    prefix.len() <= line.len() && line.subrange(0, prefix.len() as int) == prefix
}

proof fn lemma_differs_at(line: Seq<char>, prefix: Seq<char>, k: int)
    requires
        0 <= k < prefix.len(),
        k < line.len(),
        line[k] != prefix[k],
    ensures
        !starts_with(line, prefix),
{
    if starts_with(line, prefix) {
        assert(line.subrange(0, prefix.len() as int)[k] == line[k]);
    }
}

/// `status` shows the start note of the open span, and only it, on a line
/// `Start note: <note>`, and the end note, and only it, on a line
/// `End note: <note>`; no other line begins like either.
pub proof fn lemma_status_shows_each_note_under_its_label(status: DeviceStatus, started: Seq<char>)
    ensures
        ({
            let lines = status_text(status, started);
            &&& (status.active is Some && status.active.unwrap().start_note is Some) ==> lines.contains(
                "Start note: "@ + status.active.unwrap().start_note.unwrap()@,
            )
            &&& (status.active is Some && status.active.unwrap().end_note is Some) ==> lines.contains(
                "End note: "@ + status.active.unwrap().end_note.unwrap()@,
            )
            &&& forall|i: int|
                0 <= i < lines.len() && starts_with(#[trigger] lines[i], "Start note: "@) ==> {
                    &&& status.active is Some
                    &&& status.active.unwrap().start_note is Some
                    &&& lines[i] == "Start note: "@ + status.active.unwrap().start_note.unwrap()@
                }
            &&& forall|i: int|
                0 <= i < lines.len() && starts_with(#[trigger] lines[i], "End note: "@) ==> {
                    &&& status.active is Some
                    &&& status.active.unwrap().end_note is Some
                    &&& lines[i] == "End note: "@ + status.active.unwrap().end_note.unwrap()@
                }
        }),
{
    reveal_strlit("Start note: ");
    reveal_strlit("End note: ");
    reveal_strlit("Address: ");
    reveal_strlit("Name: ");
    reveal_strlit("Connected: ");
    reveal_strlit("Active span: yes");
    reveal_strlit("Active span: no");
    reveal_strlit("Started: ");
    reveal_strlit("Elapsed: ");
    let lines = status_text(status, started);
    let sp = "Start note: "@;
    let ep = "End note: "@;
    let head = seq![
        "Address: "@ + status.address@,
        "Name: "@ + status.name@,
        "Connected: "@ + connected_text(status.connected),
    ];
    assert forall|k: int| 0 <= k < 3 implies !starts_with(#[trigger] head[k], sp) && !starts_with(
        head[k],
        ep,
    ) by {
        assert(head[k][0] != sp[0]);
        assert(head[k][0] != ep[0]);
        lemma_differs_at(head[k], sp, 0);
        lemma_differs_at(head[k], ep, 0);
    }
    match status.active {
        None => {
            let tail = seq!["Active span: no"@];
            assert(lines == head + tail);
            lemma_differs_at(tail[0], sp, 0);
            lemma_differs_at(tail[0], ep, 0);
            assert forall|i: int| 0 <= i < lines.len() implies !starts_with(#[trigger] lines[i], sp)
                && !starts_with(lines[i], ep) by {
                if i < 3 {
                    assert(lines[i] == head[i]);
                } else {
                    assert(lines[i] == tail[0]);
                }
            }
        },
        Some(a) => {
            let mid = seq!["Active span: yes"@, "Started: "@ + started, "Elapsed: "@ + duration_text(
                a.elapsed_seconds as int,
            )];
            let sn = labelled_note(sp, opt_seq(a.start_note));
            let en = labelled_note(ep, opt_seq(a.end_note));
            assert(lines == head + mid + sn + en);
            lemma_differs_at(mid[0], sp, 0);
            lemma_differs_at(mid[0], ep, 0);
            assert(mid[1][5] == 'e');
            lemma_differs_at(mid[1], sp, 5);
            lemma_differs_at(mid[1], ep, 0);
            lemma_differs_at(mid[2], sp, 0);
            assert(mid[2][1] == 'l');
            lemma_differs_at(mid[2], ep, 1);
            if a.start_note is Some {
                assert(sn[0] == sp + a.start_note.unwrap()@);
                assert(sn[0].subrange(0, sp.len() as int) =~= sp);
                lemma_differs_at(sn[0], ep, 0);
                assert(lines[6] == sn[0]);
            }
            if a.end_note is Some {
                assert(en[0] == ep + a.end_note.unwrap()@);
                assert(en[0].subrange(0, ep.len() as int) =~= ep);
                lemma_differs_at(en[0], sp, 0);
                assert(lines[6 + sn.len() as int] == en[0]);
            }
            assert forall|i: int| 0 <= i < lines.len() && starts_with(#[trigger] lines[i], sp) implies {
                &&& status.active is Some
                &&& status.active.unwrap().start_note is Some
                &&& lines[i] == sp + status.active.unwrap().start_note.unwrap()@
            } by {
                if i < 3 {
                    assert(lines[i] == head[i]);
                } else if i < 6 {
                    assert(lines[i] == mid[i - 3]);
                } else if i < 6 + sn.len() {
                    assert(lines[i] == sn[i - 6]);
                } else {
                    assert(lines[i] == en[i - 6 - sn.len()]);
                }
            }
            assert forall|i: int| 0 <= i < lines.len() && starts_with(#[trigger] lines[i], ep) implies {
                &&& status.active is Some
                &&& status.active.unwrap().end_note is Some
                &&& lines[i] == ep + status.active.unwrap().end_note.unwrap()@
            } by {
                if i < 3 {
                    assert(lines[i] == head[i]);
                } else if i < 6 {
                    assert(lines[i] == mid[i - 3]);
                } else if i < 6 + sn.len() {
                    assert(lines[i] == sn[i - 6]);
                } else {
                    assert(lines[i] == en[i - 6 - sn.len()]);
                }
            }
        },
    }
}

} // verus!

verus! {

/// `status` begins with the address, the name, and whether the device is
/// connected: `yes` exactly when BlueZ reports it connected, `no` exactly
/// when it reports it disconnected, `unknown` when it does not list it; then
/// whether a span is open.
pub proof fn lemma_status_heading(status: DeviceStatus, started: Seq<char>)
    ensures
        ({
            let lines = status_text(status, started);
            &&& lines.len() >= 4
            &&& lines[0] == "Address: "@ + status.address@
            &&& lines[1] == "Name: "@ + status.name@
            &&& (lines[2] == "Connected: yes"@ <==> status.connected == Some(true))
            &&& (lines[2] == "Connected: no"@ <==> status.connected == Some(false))
            &&& (lines[2] == "Connected: unknown"@ <==> status.connected is None)
            &&& (lines[3] == "Active span: yes"@ <==> status.active is Some)
            &&& (lines[3] == "Active span: no"@ <==> status.active is None)
        }),
{
    reveal_strlit("Connected: ");
    reveal_strlit("Connected: yes");
    reveal_strlit("Connected: no");
    reveal_strlit("Connected: unknown");
    reveal_strlit("yes");
    reveal_strlit("no");
    reveal_strlit("unknown");
    reveal_strlit("Active span: yes");
    reveal_strlit("Active span: no");
    let lines = status_text(status, started);
    assert("Connected: "@ + "yes"@ =~= "Connected: yes"@);
    assert("Connected: "@ + "no"@ =~= "Connected: no"@);
    assert("Connected: "@ + "unknown"@ =~= "Connected: unknown"@);
    assert("Connected: yes"@ != "Connected: no"@) by {
        assert("Connected: yes"@.len() != "Connected: no"@.len());
    }
    assert("Connected: yes"@ != "Connected: unknown"@) by {
        assert("Connected: yes"@.len() != "Connected: unknown"@.len());
    }
    assert("Connected: no"@ != "Connected: unknown"@) by {
        assert("Connected: no"@.len() != "Connected: unknown"@.len());
    }
    assert("Active span: yes"@ != "Active span: no"@) by {
        assert("Active span: yes"@.len() != "Active span: no"@.len());
    }
    assert(lines[2] == "Connected: "@ + connected_text(status.connected));
}

} // verus!
