//! What the tracker knows of a Bluetooth device.
use vstd::prelude::*;
use crate::address::BluetoothAddress;
use crate::text::{clone_opt_string, opt_seq};

verus! {

/// A device as BlueZ reports it.
#[derive(Debug, PartialEq, Eq)]
pub struct DeviceInfo {
    pub path: String,
    pub address: BluetoothAddress,
    pub name: Option<String>,
    pub connected: bool,
}

pub struct DeviceView {
    pub path: Seq<char>,
    pub address: Seq<char>,
    pub name: Option<Seq<char>>,
    pub connected: bool,
}

impl View for DeviceInfo {
    type V = DeviceView;

    open spec fn view(&self) -> DeviceView {
        DeviceView {
            path: self.path@,
            address: self.address@,
            name: opt_seq(self.name),
            connected: self.connected,
        }
    }
}

impl Clone for DeviceInfo {
    fn clone(&self) -> (r: Self)
        ensures
            r@ == self@,
    {
        DeviceInfo {
            path: self.path.clone(),
            address: self.address.clone(),
            name: clone_opt_string(&self.name),
            connected: self.connected,
        }
    }
}

} // verus!
