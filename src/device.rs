//! Startup rules for the serial device: the baud rates that can be set, and
//! the device names that look like a USB serial adapter.

use vstd::prelude::*;

verus! {

/// The standard baud rates of a terminal line.
pub open spec fn standard_baud_rates() -> Seq<u32> {
    seq![
        0u32, 50, 75, 110, 134, 150, 200, 300, 600, 1200, 1800, 2400, 4800, 9600, 19200, 38400,
        57600, 115200, 230400, 460800, 500000, 576000, 921600, 1000000, 1152000, 1500000, 2000000,
        2500000, 3000000, 3500000, 4000000,
    ]
}

/// Whether `rate` is a standard baud rate.
pub fn is_standard_baud_rate(rate: u32) -> (r: bool)
    ensures
        r == standard_baud_rates().contains(rate),
{
    let rates: Vec<u32> = vec![
        0u32, 50, 75, 110, 134, 150, 200, 300, 600, 1200, 1800, 2400, 4800, 9600, 19200, 38400,
        57600, 115200, 230400, 460800, 500000, 576000, 921600, 1000000, 1152000, 1500000, 2000000,
        2500000, 3000000, 3500000, 4000000,
    ];
    proof {
        assert(rates@ == standard_baud_rates());
    }
    let mut i: usize = 0;
    while i < rates.len()
        invariant
            0 <= i <= rates@.len(),
            rates@ == standard_baud_rates(),
            forall|j: int| 0 <= j < i ==> rates@[j] != rate,
        decreases rates@.len() - i,
    {
        if rates[i] == rate {
            return true;
        }
        i = i + 1;
    }
    false
}

/// Whether a device file name names a USB serial adapter: `tty`, then `USB`
/// or `ACM`, then anything.
pub open spec fn is_serial_adapter_name(name: Seq<u8>) -> bool {
    &&& name.len() >= 6
    &&& name[0] == 116u8 && name[1] == 116u8 && name[2] == 121u8
    &&& (name[3] == 85u8 && name[4] == 83u8 && name[5] == 66u8)
        || (name[3] == 65u8 && name[4] == 67u8 && name[5] == 77u8)
}

/// Whether the device file `name` may be an Arduino board's serial port.
pub fn is_possible_arduino_dev(name: &[u8]) -> (r: bool)
    ensures
        r == is_serial_adapter_name(name@),
{
    if name.len() < 6 {
        return false;
    }
    let tty = name[0] == 116u8 && name[1] == 116u8 && name[2] == 121u8;
    let usb = name[3] == 85u8 && name[4] == 83u8 && name[5] == 66u8;
    let acm = name[3] == 65u8 && name[4] == 67u8 && name[5] == 77u8;
    tty && (usb || acm)
}

} // verus!
