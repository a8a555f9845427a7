//! Messages between devices.

use crate::console::Packet;
use crate::device::DevicePath;
use vstd::prelude::*;

verus! {

/// What one device sends to another: the packets, with the path of the
/// device they are for and the path of the device they come from.
pub struct DeviceMessage {
    to: DevicePath,
    from: DevicePath,
    contents: Vec<Packet>,
}

impl DeviceMessage {
    /// The path of the device that the message is for.
    pub closed spec fn spec_to(&self) -> DevicePath {
        self.to
    }

    /// The path of the device that the message comes from.
    pub closed spec fn spec_from(&self) -> DevicePath {
        self.from
    }

    /// The packets that the message carries.
    pub closed spec fn spec_contents(&self) -> Seq<Packet> {
        self.contents@
    }

    /// A message for `to` from `from` that carries `contents`.
    pub fn new(to: DevicePath, from: DevicePath, contents: Vec<Packet>) -> (message: DeviceMessage)
        ensures
            message.spec_to() == to,
            message.spec_from() == from,
            message.spec_contents() == contents@,
    {
        DeviceMessage { to, from, contents }
    }

    /// The path of the device that the message is for.
    pub fn to(&self) -> (to: &DevicePath)
        ensures
            *to == self.spec_to(),
    {
        &self.to
    }

    /// The path of the device that the message comes from.
    pub fn from(&self) -> (from: &DevicePath)
        ensures
            *from == self.spec_from(),
    {
        &self.from
    }

    /// The packets that the message carries.
    pub fn contents(&self) -> (contents: &Vec<Packet>)
        ensures
            contents@ == self.spec_contents(),
    {
        &self.contents
    }
}

} // verus!
