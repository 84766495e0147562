//! The checks a boot makes before it puts the radio on the air: that the
//! stack is large enough for the transmit path, and that the pins claimed are
//! the pins the hardware record documents.

use vstd::prelude::*;

verus! {

/// The main stack the transmit path needs, measured, in bytes.
pub const REQUIRED_STACK_BYTES: usize = 49592;

/// The CC1101's GPIOs, as verified against a working board.
pub const SCK: u8 = 12;
pub const MOSI: u8 = 11;
pub const MISO: u8 = 13;
pub const CSN: u8 = 10;
/// GDO0, the transmit data input. GPIO3 is a strapping pin: the first
/// suspect for any boot anomaly.
pub const GDO0_TX: u8 = 3;
/// GDO2, the receive data output.
pub const GDO2_RX: u8 = 4;

/// The GPIO numbers of the pins actually claimed for the CC1101.
#[derive(Clone, Copy, Debug, PartialEq, Eq, Structural)]
pub struct Cc1101Pins {
    pub sck: u8,
    pub mosi: u8,
    pub miso: u8,
    pub csn: u8,
    pub gdo0_tx: u8,
    pub gdo2_rx: u8,
}

/// Why the controller refuses to start.
#[derive(Clone, Copy, Debug, PartialEq, Eq, Structural)]
pub enum StartError {
    /// The main stack is smaller than the transmit path needs.
    StackTooSmall { available: usize, required: usize },
    /// A pin claimed is not the pin the hardware record documents.
    PinMap { claimed: u8, documented: u8 },
}

/// The stack between the two linker symbols, if it is large enough.
pub fn check_stack_headroom(bottom: usize, top: usize) -> (checked: Result<usize, StartError>)
    ensures
        checked == (if top >= bottom && top - bottom >= REQUIRED_STACK_BYTES {
            Ok::<usize, StartError>((top - bottom) as usize)
        } else {
            Err(StartError::StackTooSmall {
                available: if top >= bottom { (top - bottom) as usize } else { 0 },
                required: REQUIRED_STACK_BYTES,
            })
        }),
{
    let available = top.saturating_sub(bottom);
    if available < REQUIRED_STACK_BYTES {
        return Err(StartError::StackTooSmall { available, required: REQUIRED_STACK_BYTES });
    }
    Ok(available)
}

/// The pins in the order they are checked, paired with what the record says.
pub open spec fn pin_pairs(pins: Cc1101Pins) -> Seq<(u8, u8)> {
    seq![
        (pins.sck, SCK),
        (pins.mosi, MOSI),
        (pins.miso, MISO),
        (pins.csn, CSN),
        (pins.gdo0_tx, GDO0_TX),
        (pins.gdo2_rx, GDO2_RX),
    ]
}

/// Check the pins claimed against the documented map, reporting the first
/// that differs: a radio on undocumented pins answers on SPI and then
/// transmits nothing.
pub fn check_pin_map(pins: &Cc1101Pins) -> (checked: Result<(), StartError>)
    ensures
        checked is Ok <==> (forall|i: int| 0 <= i < 6 ==> (#[trigger] pin_pairs(*pins)[i]).0 == pin_pairs(*pins)[i].1),
        checked matches Err(error) ==> exists|i: int| 0 <= i < 6
            && error == (StartError::PinMap { claimed: (#[trigger] pin_pairs(*pins)[i]).0, documented: pin_pairs(*pins)[i].1 })
            && pin_pairs(*pins)[i].0 != pin_pairs(*pins)[i].1
            && forall|j: int| 0 <= j < i ==> (#[trigger] pin_pairs(*pins)[j]).0 == pin_pairs(*pins)[j].1,
{
    let pairs: [(u8, u8); 6] = [
        (pins.sck, SCK),
        (pins.mosi, MOSI),
        (pins.miso, MISO),
        (pins.csn, CSN),
        (pins.gdo0_tx, GDO0_TX),
        (pins.gdo2_rx, GDO2_RX),
    ];
    assert(pairs@ =~= pin_pairs(*pins));
    let mut index: usize = 0;
    while index < 6
        invariant
            index <= 6,
            pairs@ == pin_pairs(*pins),
            forall|j: int| 0 <= j < index ==> (#[trigger] pin_pairs(*pins)[j]).0 == pin_pairs(*pins)[j].1,
        decreases 6 - index,
    {
        let (claimed, documented) = pairs[index];
        if claimed != documented {
            assert(pin_pairs(*pins)[index as int] == (claimed, documented));
            return Err(StartError::PinMap { claimed, documented });
        }
        index += 1;
    }
    Ok(())
}

} // verus!
