//! The supported devices and how to reach them.

use vstd::prelude::*;
use vstd::string::*;
use vstd::utf8::*;

use crate::text::{
    ascii_lower, decimal, hex_byte, lowercase, push_decimal, push_hex_byte,
};

verus! {

/// Supported device types with their mux address and baud rate.
#[derive(Debug, Clone, Copy, PartialEq, Eq, Structural)]
pub enum DeviceType {
    DronetagTransmitter,
    DronetagRider,
}

/// The channel of the management protocol.
pub open spec fn management_channel(d: DeviceType) -> u8 {
    match d {
        DeviceType::DronetagTransmitter => 0x11,
        DeviceType::DronetagRider => 0x23,
    }
}

/// The channel of the settings protocol.
pub open spec fn settings_channel(d: DeviceType) -> u8 {
    match d {
        DeviceType::DronetagTransmitter => 0x13,
        DeviceType::DronetagRider => 0x25,
    }
}

pub open spec fn line_speed(d: DeviceType) -> u32 {
    match d {
        DeviceType::DronetagTransmitter => 500_000,
        DeviceType::DronetagRider => 115_200,
    }
}

pub open spec fn product_name(d: DeviceType) -> Seq<char> {
    match d {
        DeviceType::DronetagTransmitter => "Dronetag Transmitter"@,
        DeviceType::DronetagRider => "Dronetag RIDER"@,
    }
}

/// No channel serves two protocols or two devices.
pub proof fn law_channels_are_distinct(d: DeviceType, e: DeviceType)
    ensures
        management_channel(d) != settings_channel(e),
        management_channel(d) == management_channel(e) ==> d == e,
        settings_channel(d) == settings_channel(e) ==> d == e,
{
}

impl DeviceType {
    pub fn mux_addr(&self) -> (r: u8)
        ensures
            r == management_channel(*self),
            *self is DronetagTransmitter ==> r == 0x11,
            *self is DronetagRider ==> r == 0x23,
    {
        match self {
            DeviceType::DronetagTransmitter => 0x11,
            DeviceType::DronetagRider => 0x23,
        }
    }

    pub fn settings_mux_addr(&self) -> (r: u8)
        ensures
            r == settings_channel(*self),
            *self is DronetagTransmitter ==> r == 0x13,
            *self is DronetagRider ==> r == 0x25,
    {
        match self {
            DeviceType::DronetagTransmitter => 0x13,
            DeviceType::DronetagRider => 0x25,
        }
    }

    pub fn baud_rate(&self) -> (r: u32)
        ensures
            r == line_speed(*self),
            *self is DronetagTransmitter ==> r == 500_000,
            *self is DronetagRider ==> r == 115_200,
    {
        match self {
            DeviceType::DronetagTransmitter => 500_000,
            DeviceType::DronetagRider => 115_200,
        }
    }

    pub fn display_name(&self) -> (r: &'static str)
        ensures
            r@ == product_name(*self),
            *self is DronetagTransmitter ==> r@ == "Dronetag Transmitter"@,
            *self is DronetagRider ==> r@ == "Dronetag RIDER"@,
    {
        match self {
            DeviceType::DronetagTransmitter => "Dronetag Transmitter",
            DeviceType::DronetagRider => "Dronetag RIDER",
        }
    }

    /// Every device, once.
    pub fn all() -> (r: &'static [DeviceType])
        ensures
            r@ == seq![DeviceType::DronetagTransmitter, DeviceType::DronetagRider],
            r@.no_duplicates(),
            forall|d: DeviceType| #[trigger] r@.contains(d),
    {
        let all: &'static [DeviceType] = &[
            DeviceType::DronetagTransmitter,
            DeviceType::DronetagRider,
        ];
        assert forall|d: DeviceType| #[trigger] all@.contains(d) by {
            match d {
                DeviceType::DronetagTransmitter => {
                    assert(all@[0] == d);
                },
                DeviceType::DronetagRider => {
                    assert(all@[1] == d);
                },
            }
        }
        all
    }

    /// The device as a list to choose from shows it.
    pub fn menu_label(&self) -> (r: String)
        ensures
            r@ == product_name(*self) + " (0x"@ + hex_byte(management_channel(*self)) + ", "@
                + decimal(line_speed(*self) as nat) + " baud)"@,
    {
        let mut s = self.display_name().to_string();
        s.append(" (0x");
        push_hex_byte(&mut s, self.mux_addr());
        s.append(", ");
        push_decimal(&mut s, self.baud_rate() as u64);
        s.append(" baud)");
        s
    }
}

/// The device that a lower-case name stands for on the command line.
pub open spec fn device_named(name: Seq<char>) -> Option<DeviceType> {
    if name == "transmitter"@ {
        Some(DeviceType::DronetagTransmitter)
    } else if name == "rider"@ {
        Some(DeviceType::DronetagRider)
    } else {
        None
    }
}

/// The complaint about a name that stands for no device.
pub open spec fn unknown_device(name: Seq<char>) -> Seq<char> {
    "Unknown device type '"@ + name + "'. Valid options: transmitter, rider"@
}

/// The device that the lower-case name `lower` stands for.
pub fn device_by_name(lower: &String) -> (r: Option<DeviceType>)
    ensures
        r == device_named(lower@),
        r == Some(DeviceType::DronetagTransmitter) <==> lower@ == "transmitter"@,
        r == Some(DeviceType::DronetagRider) <==> lower@ == "rider"@,
{
    proof {
        law_names_of_devices(lower@);
    }
    if *lower == "transmitter".to_string() {
        Some(DeviceType::DronetagTransmitter)
    } else if *lower == "rider".to_string() {
        Some(DeviceType::DronetagRider)
    } else {
        None
    }
}

/// The device that a name stands for, in upper or lower case.
pub fn parse_device_type(s: &str) -> (r: Result<DeviceType, String>)
    ensures
        match device_named(lowercase(s@)) {
            Some(d) => r == Ok::<DeviceType, String>(d),
            None => r matches Err(e) && e@ == unknown_device(s@),
        },
        r == Ok::<DeviceType, String>(DeviceType::DronetagTransmitter) <==> lowercase(s@)
            == "transmitter"@,
        r == Ok::<DeviceType, String>(DeviceType::DronetagRider) <==> lowercase(s@) == "rider"@,
        r matches Err(e) ==> e@ == "Unknown device type '"@ + s@
            + "'. Valid options: transmitter, rider"@,
        is_ascii_chars(s@) ==> (r is Ok <==> device_named(
            s@.map_values(|c: char| ascii_lower(c)),
        ) is Some),
        is_ascii_chars(s@) ==> (r matches Ok(d) ==> device_named(
            s@.map_values(|c: char| ascii_lower(c)),
        ) == Some(d)),
{
    proof {
        law_names_of_devices(lowercase(s@));
    }
    match device_by_name(&s.to_lowercase()) {
        Some(d) => Ok(d),
        None => {
            let mut e = "Unknown device type '".to_string();
            e.append(s);
            e.append("'. Valid options: transmitter, rider");
            Err(e)
        },
    }
}

// ---------------------------------------------------------------------------
// The table of devices
// ---------------------------------------------------------------------------

/// How the two devices are reached, and what they are called.
pub proof fn law_table_of_devices(d: DeviceType)
    ensures
        d is DronetagTransmitter ==> {
            &&& management_channel(d) == 0x11
            &&& settings_channel(d) == 0x13
            &&& line_speed(d) == 500_000
            &&& product_name(d) == "Dronetag Transmitter"@
        },
        d is DronetagRider ==> {
            &&& management_channel(d) == 0x23
            &&& settings_channel(d) == 0x25
            &&& line_speed(d) == 115_200
            &&& product_name(d) == "Dronetag RIDER"@
        },
{
}

/// Two names stand for a device, one for each, and no other name stands for any.
pub proof fn law_names_of_devices(name: Seq<char>)
    ensures
        device_named(name) == Some(DeviceType::DronetagTransmitter) <==> name == "transmitter"@,
        device_named(name) == Some(DeviceType::DronetagRider) <==> name == "rider"@,
        device_named(name) is None <==> name != "transmitter"@ && name != "rider"@,
        unknown_device(name) == "Unknown device type '"@ + name
            + "'. Valid options: transmitter, rider"@,
{
    reveal_strlit("transmitter");
    reveal_strlit("rider");
    assert("transmitter"@.len() != "rider"@.len());
}

} // verus!
