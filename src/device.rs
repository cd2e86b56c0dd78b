//! Capabilities that a device offers to the bus and to the platform.
use vstd::prelude::*;
use vstd::string::StringExecFns;

verus! {

/// `std::io::Error`, carried opaquely in the results of [`RawIOHandler`].
#[verifier::external_type_specification]
#[verifier::external_body]
pub struct ExIoError(std::io::Error);

/// Trait for devices that respond to reads or writes in an arbitrary address
/// space.
///
/// The device does not care where it exists in address space as each method
/// is only given an offset into its allocated portion of address space. Each
/// method does nothing unless the device overrides it.
pub trait BusDevice: Send {
    /// Reads at `offset` from this device.
    fn read(&mut self, offset: u64, data: &mut [u8]) {
    }

    /// Writes at `offset` into this device.
    fn write(&mut self, offset: u64, data: &[u8]) {
    }

    /// Triggers the `irq_mask` interrupt on this device.
    fn interrupt(&self, irq_mask: u32) {
    }
}

/// Trait for devices that handle raw non-blocking I/O requests.
pub trait RawIOHandler {
    /// Send raw input to this emulated device.
    fn raw_input(&mut self, data: &[u8]) -> std::io::Result<()> {
        Ok(())
    }

    /// Receive raw output from this emulated device.
    fn raw_output(&mut self, data: &mut [u8]) -> std::io::Result<()> {
        Ok(())
    }
}

/// Types of devices that can get attached to this platform.
#[derive(Clone, Copy, Debug, PartialEq, Eq, Hash, Structural)]
pub enum DeviceType {
    /// Device Type: Virtio.
    Virtio(u32),
    /// Device Type: Serial.
    Serial,
    /// Device Type: i8042.
    I8042,
    /// Device Type: RTC.
    RTC,
}

/// The characters of the decimal digits.
pub open spec fn digit_chars() -> Seq<char> {
    seq!['0', '1', '2', '3', '4', '5', '6', '7', '8', '9']
}

/// The decimal text of `n`, without leading zeros.
pub open spec fn decimal(n: nat) -> Seq<char>
    decreases n,
{
    if n < 10 {
        seq![digit_chars()[n as int]]
    } else {
        decimal(n / 10) + seq![digit_chars()[(n % 10) as int]]
    }
}

/// The text of a device type: its variant's name, with the virtio type in
/// decimal between parentheses.
pub open spec fn type_text(t: DeviceType) -> Seq<char> {
    match t {
        DeviceType::Virtio(n) => "Virtio("@ + decimal(n as nat) + ")"@,
        DeviceType::Serial => "Serial"@,
        DeviceType::I8042 => "I8042"@,
        DeviceType::RTC => "RTC"@,
    }
}

fn digit_str(d: u32) -> (r: &'static str)
    requires
        d < 10,
    ensures
        r@ == seq![digit_chars()[d as int]],
{
    proof {
        reveal_strlit("0");
        reveal_strlit("1");
        reveal_strlit("2");
        reveal_strlit("3");
        reveal_strlit("4");
        reveal_strlit("5");
        reveal_strlit("6");
        reveal_strlit("7");
        reveal_strlit("8");
        reveal_strlit("9");
    }
    let r = if d == 0 {
        "0"
    } else if d == 1 {
        "1"
    } else if d == 2 {
        "2"
    } else if d == 3 {
        "3"
    } else if d == 4 {
        "4"
    } else if d == 5 {
        "5"
    } else if d == 6 {
        "6"
    } else if d == 7 {
        "7"
    } else if d == 8 {
        "8"
    } else {
        "9"
    };
    assert(r@ =~= seq![digit_chars()[d as int]]);
    r
}

/// Appends the decimal text of `n` to `s`.
fn push_decimal(s: &mut String, n: u32)
    ensures
        final(s)@ == old(s)@ + decimal(n as nat),
    decreases n,
{
    if n >= 10 {
        push_decimal(s, n / 10);
    }
    s.append(digit_str(n % 10));
    assert(final(s)@ =~= old(s)@ + decimal(n as nat)) by {
        if n >= 10 {
            assert(decimal(n as nat) == decimal((n / 10) as nat) + seq![
                digit_chars()[(n % 10) as int],
            ]);
        }
    }
}

impl DeviceType {
    /// The text of the device type, as in `Virtio(3)` or `Serial`.
    pub fn text(&self) -> (r: String)
        ensures
            r@ == type_text(*self),
    {
        proof {
            reveal_strlit("Virtio(");
            reveal_strlit(")");
            reveal_strlit("Serial");
            reveal_strlit("I8042");
            reveal_strlit("RTC");
        }
        match self {
            DeviceType::Virtio(n) => {
                let mut s = String::from_str("Virtio(");
                push_decimal(&mut s, *n);
                s.append(")");
                s
            },
            DeviceType::Serial => String::from_str("Serial"),
            DeviceType::I8042 => String::from_str("I8042"),
            DeviceType::RTC => String::from_str("RTC"),
        }
    }
}

/// Trait for devices to be added to the flattened device tree.
pub trait DeviceInfoForFDT {
    /// Returns the address where this device will be loaded.
    fn addr(&self) -> u64;

    /// Returns the associated interrupt for this device.
    fn irq(&self) -> u32;

    /// Returns the amount of memory that needs to be reserved for this device.
    fn length(&self) -> u64;
}

} // verus!
