//! Devices as BlueZ lists them.
use vstd::prelude::*;
use crate::address::{BluetoothAddress, normalized};
use crate::device::{DeviceInfo, DeviceView};
use crate::order::{address_lt, chars_lt, lemma_lt_total, lemma_lt_transitive};
use crate::text::opt_seq;
use crate::tracking::device_views;

verus! {

/// The device described by the properties of a `org.bluez.Device1` object:
/// none without an `Address`; the name is the `Alias`, else the `Name`; a
/// device without `Connected` counts as disconnected.
pub fn device_from_properties(
    path: String,
    address: Option<String>,
    alias: Option<String>,
    name: Option<String>,
    connected: Option<bool>,
) -> (r: Option<DeviceInfo>)
    ensures
        address is None ==> r is None,
        address matches Some(a) ==> r matches Some(d) && d@ == (DeviceView {
            path: path@,
            address: normalized(a@),
            name: if alias is Some {
                opt_seq(alias)
            } else {
                opt_seq(name)
            },
            connected: connected == Some(true),
        }),
{
    match address {
        None => None,
        Some(a) => Some(
            DeviceInfo {
                path,
                address: BluetoothAddress::new_unchecked(a.as_str()),
                name: match alias {
                    Some(x) => Some(x),
                    None => name,
                },
                connected: match connected {
                    Some(c) => c,
                    None => false,
                },
            },
        ),
    }
}

/// `order` lists every position of `devices` once, by address and, among
/// devices of the same address, by position.
pub open spec fn address_order(devices: Seq<DeviceView>, order: Seq<int>) -> bool {
    &&& order.len() == devices.len()
    &&& forall|k: int| 0 <= k < order.len() ==> 0 <= #[trigger] order[k] < devices.len()
    &&& forall|a: int, b: int|
        0 <= a < b < order.len() ==> chars_lt(
            devices[#[trigger] order[a]].address,
            devices[#[trigger] order[b]].address,
        ) || (devices[order[a]].address == devices[order[b]].address && order[a] < order[b])
}

/// `sorted` holds the devices of `devices` in ascending order of address;
/// devices of the same address keep their relative order.
pub open spec fn stably_sorted_by_address(devices: Seq<DeviceView>, sorted: Seq<DeviceView>) -> bool {
    exists|order: Seq<int>|
        address_order(devices, order) && sorted == order.map_values(|k: int| devices[k])
}

/// Sorts devices by address, keeping the relative order of equal addresses.
pub fn sort_devices(devices: Vec<DeviceInfo>) -> (r: Vec<DeviceInfo>)
    ensures
        stably_sorted_by_address(device_views(devices@), device_views(r@)),
{
    let ghost dv = device_views(devices@);
    let n = devices.len();
    let mut order: Vec<usize> = Vec::new();
    let mut i: usize = 0;
    while i < n
        invariant
            i <= n,
            n == devices@.len(),
            dv == device_views(devices@),
            order@.len() == i,
            forall|k: int| 0 <= k < order@.len() ==> #[trigger] order@[k] < i,
            forall|a: int, b: int|
                0 <= a < b < order@.len() ==> chars_lt(
                    dv[#[trigger] order@[a] as int].address,
                    dv[#[trigger] order@[b] as int].address,
                ) || (dv[order@[a] as int].address == dv[order@[b] as int].address && order@[a]
                    < order@[b]),
        decreases n - i,
    {
        let ghost key = dv[i as int].address;
        assert(devices@[i as int].address@ == key);
        let mut q: usize = 0;
        while q < order.len()
            invariant
                q <= order@.len(),
                order@.len() == i,
                i < n,
                n == devices@.len(),
                dv == device_views(devices@),
                key == dv[i as int].address,
                forall|k: int| 0 <= k < order@.len() ==> #[trigger] order@[k] < i,
                forall|k: int|
                    0 <= k < q ==> !chars_lt(key, dv[#[trigger] order@[k] as int].address),
            ensures
                q <= order@.len(),
                forall|k: int|
                    0 <= k < q ==> !chars_lt(key, dv[#[trigger] order@[k] as int].address),
                q < order@.len() ==> chars_lt(key, dv[order@[q as int] as int].address),
            decreases order@.len() - q,
        {
            let before = address_lt(&devices[i].address, &devices[order[q]].address);
            assert(dv[order@[q as int] as int].address == devices@[order@[q as int] as int].address@);
            if before {
                break;
            }
            q = q + 1;
        }
        let ghost old_order = order@;
        order.insert(q, i);
        proof {
            assert(order@ =~= old_order.insert(q as int, i));
            assert forall|k: int| 0 <= k < order@.len() implies #[trigger] order@[k] < i + 1 by {
                if k < q {
                    assert(order@[k] == old_order[k]);
                } else if k > q {
                    assert(order@[k] == old_order[k - 1]);
                }
            }
            assert forall|a: int, b: int| 0 <= a < b < order@.len() implies chars_lt(
                dv[#[trigger] order@[a] as int].address,
                dv[#[trigger] order@[b] as int].address,
            ) || (dv[order@[a] as int].address == dv[order@[b] as int].address && order@[a]
                < order@[b]) by {
                if b < q {
                    assert(order@[a] == old_order[a] && order@[b] == old_order[b]);
                } else if b == q {
                    assert(order@[a] == old_order[a]);
                    let x = dv[old_order[a] as int].address;
                    assert(!chars_lt(key, x));
                    lemma_lt_total(x, key);
                } else if a == q {
                    assert(order@[b] == old_order[b - 1]);
                    if b - 1 > q {
                        let x = dv[old_order[q as int] as int].address;
                        let y = dv[old_order[b - 1] as int].address;
                        if chars_lt(x, y) {
                            lemma_lt_transitive(key, x, y);
                        }
                    }
                } else if a < q {
                    assert(order@[a] == old_order[a] && order@[b] == old_order[b - 1]);
                    let x = dv[old_order[a] as int].address;
                    let z = dv[old_order[q as int] as int].address;
                    let y = dv[old_order[b - 1] as int].address;
                    assert(!chars_lt(key, x));
                    lemma_lt_total(x, key);
                    if b - 1 > q {
                        if chars_lt(z, y) {
                            lemma_lt_transitive(key, z, y);
                        }
                    }
                    assert(chars_lt(key, y));
                    if x == key {
                    } else {
                        lemma_lt_transitive(x, key, y);
                    }
                } else {
                    assert(order@[a] == old_order[a - 1] && order@[b] == old_order[b - 1]);
                }
            }
        }
        i = i + 1;
    }
    let mut r: Vec<DeviceInfo> = Vec::new();
    let mut k: usize = 0;
    while k < n
        invariant
            k <= n,
            n == devices@.len(),
            order@.len() == n,
            dv == device_views(devices@),
            forall|j: int| 0 <= j < order@.len() ==> #[trigger] order@[j] < n,
            device_views(r@) == order@.take(k as int).map_values(|j: usize| dv[j as int]),
        decreases n - k,
    {
        let ghost before = device_views(r@);
        let d = devices[order[k]].clone();
        assert(d@ == dv[order@[k as int] as int]);
        r.push(d);
        assert(device_views(r@) =~= before.push(dv[order@[k as int] as int]));
        assert(order@.take(k + 1) =~= order@.take(k as int).push(order@[k as int]));
        assert(device_views(r@) =~= order@.take(k + 1).map_values(|j: usize| dv[j as int]));
        k = k + 1;
    }
    proof {
        let witness = order@.map_values(|j: usize| j as int);
        assert(order@.take(n as int) =~= order@);
        assert(address_order(dv, witness));
        assert(device_views(r@) =~= witness.map_values(|j: int| dv[j]));
    }
    r
}

} // verus!
