use vstd::prelude::*;

verus! {

/// I2C address of the battery charger.
pub const TARGET_I2C_ADDR: u8 = 0x6A;

/// Register that identifies the charger.
pub const WHO_AM_I_REG_ADDR: u8 = 0x14;

/// Identity the charger reports in the low six bits of its identification register.
pub const CHARGER_ID: u8 = 0x39;

/// Register holding the fast-charge current.
pub const CHARGE_CURRENT_REG: u8 = 0x04;

/// Fast-charge current setting of 512 mAh.
pub const CHARGE_CURRENT_512MA: u8 = 0x08;

/// Register holding the minimum system voltage, in bits 1 to 3.
pub const MIN_VOLTAGE_REG: u8 = 0x03;

/// Minimum system voltage setting of 3.3 V.
pub const MIN_VOLTAGE_3V3: u8 = 0b101;

/// The identification register names the expected charger.
pub fn charger_id_matches(who_am_i: u8) -> (r: bool)
    ensures
        r == (who_am_i & 0b111111u8 == CHARGER_ID),
{
    who_am_i & 0b111111u8 == CHARGER_ID
}

/// The value for the minimum-voltage register that selects 3.3 V and keeps the other bits.
pub fn min_voltage_setting(current: u8) -> (r: u8)
    ensures
        r == (current & 0b11110001u8) | (MIN_VOLTAGE_3V3 << 1u8),
        (r >> 1u8) & 0b111u8 == MIN_VOLTAGE_3V3,
        r & 0b11110001u8 == current & 0b11110001u8,
{
    let r = (current & 0b11110001u8) | (MIN_VOLTAGE_3V3 << 1u8);
    assert((((current & 0b11110001u8) | (0b101u8 << 1u8)) >> 1u8) & 0b111u8 == 0b101u8) by (bit_vector);
    assert(((current & 0b11110001u8) | (0b101u8 << 1u8)) & 0b11110001u8 == current & 0b11110001u8)
        by (bit_vector);
    r
}

} // verus!
