//! The GPIO pin assignment of the peripherals, and its validation.
use vstd::prelude::*;

verus! {

/// GPIO numbers of the peripherals.
#[derive(Debug, Clone, Copy, PartialEq, Eq, Structural)]
pub struct PinConfig {
    /// Temperature sensor data pin.
    pub temperature_sensor: u8,
    /// SPI clock.
    pub spi_sck: u8,
    /// SPI data out.
    pub spi_mosi: u8,
    /// SPI chip select.
    pub spi_cs: u8,
    /// Display data/command select.
    pub spi_dc: u8,
}

/// Errors of the GPIO manager.
#[derive(Debug, Clone, PartialEq, Eq)]
pub enum GPIOError {
    /// The pin is already taken.
    PinAlreadyUsed(u8),
    /// The pin number is not a usable GPIO.
    InvalidPin(u8),
    /// Initialisation failed, with a message.
    GPIOInit(String),
}

/// Errors of the peripheral manager.
#[derive(Debug, Clone, PartialEq, Eq)]
pub enum PeripheralError {
    /// The pin is already taken.
    PinAlreadyUsed(u8),
    /// The pin number is not a usable GPIO.
    InvalidPin(u8),
    /// The SPI2 bus is already taken.
    SpiAlreadyUsed,
    /// Initialisation failed, with a message.
    PeripheralInit(String),
}

/// The pins of a configuration, in field order.
pub open spec fn pin_list(c: PinConfig) -> Seq<u8> {
    seq![c.temperature_sensor, c.spi_sck, c.spi_mosi, c.spi_cs, c.spi_dc]
}

/// Some pin occurs twice.
pub open spec fn has_duplicate(s: Seq<u8>) -> bool {
    exists|i: int, j: int| 0 <= i < j < s.len() && s[i] == s[j]
}

/// A GPIO that the board offers: 0 to 19, and 21.
pub open spec fn usable_pin(p: u8) -> bool {
    p <= 19 || p == 21
}

/// The assignment the board is wired with.
pub fn default_pin_config() -> (r: PinConfig)
    ensures
        pin_list(r) == seq![5u8, 2, 0, 18, 12],
{
    let r = PinConfig { temperature_sensor: 5, spi_sck: 2, spi_mosi: 0, spi_cs: 18, spi_dc: 12 };
    assert(pin_list(r) =~= seq![5u8, 2, 0, 18, 12]);
    r
}

/// `m` ends with `t`.
pub open spec fn ends_with(m: Seq<char>, t: Seq<char>) -> bool {
    m.len() >= t.len() && m.subrange(m.len() - t.len(), m.len() as int) == t
}

/// A message naming `pin`, between `before` and `after`.
fn pin_message(before: &str, pin: u8, after: &str) -> (r: String)
    ensures
        ends_with(r@, after@),
{
    let mut msg = before.to_owned();
    let number = pin.to_string();
    msg.append(number.as_str());
    msg.append(after);
    assert(msg@.subrange(msg@.len() - after@.len(), msg@.len() as int) =~= after@);
    msg
}

/// Checks that no pin is used twice and that every pin is a usable GPIO; the error
/// names the first offending pin. Repeated pins are reported before unusable ones.
pub fn validate_config(config: &PinConfig) -> (r: Result<(), String>)
    ensures
        r is Ok <==> (!has_duplicate(pin_list(*config)) && forall|i: int|
            0 <= i < 5 ==> #[trigger] usable_pin(pin_list(*config)[i])),
        has_duplicate(pin_list(*config)) ==> (r matches Err(m) && ends_with(
            m@,
            " is used more than once"@,
        )),
        !has_duplicate(pin_list(*config)) ==> (r matches Err(m) ==> ends_with(
            m@,
            " is not a usable GPIO"@,
        )),
{
    let pins = [
        config.temperature_sensor,
        config.spi_sck,
        config.spi_mosi,
        config.spi_cs,
        config.spi_dc,
    ];
    let ghost s = pin_list(*config);
    assert(pins@ =~= s);
    let mut i: usize = 0;
    while i < 5
        invariant
            pins@ == s,
            s == pin_list(*config),
            i <= 5,
            forall|a: int, b: int| 0 <= a < i && a < b < 5 ==> s[a] != s[b],
        decreases 5 - i,
    {
        let mut j: usize = i + 1;
        while j < 5
            invariant
                pins@ == s,
                s == pin_list(*config),
                i < 5,
                i + 1 <= j <= 5,
                forall|a: int, b: int| 0 <= a < i && a < b < 5 ==> s[a] != s[b],
                forall|b: int| i < b < j ==> s[i as int] != s[b],
            decreases 5 - j,
        {
            if pins[i] == pins[j] {
                assert(s[i as int] == s[j as int]);
                assert(has_duplicate(s));
                return Err(pin_message("pin ", pins[i], " is used more than once"));
            }
            j += 1;
        }
        i += 1;
    }
    assert(!has_duplicate(s));
    let mut k: usize = 0;
    while k < 5
        invariant
            pins@ == s,
            s == pin_list(*config),
            k <= 5,
            !has_duplicate(s),
            forall|a: int| 0 <= a < k ==> #[trigger] usable_pin(s[a]),
        decreases 5 - k,
    {
        let pin = pins[k];
        if !(pin <= 19 || pin == 21) {
            assert(!usable_pin(pin_list(*config)[k as int]));
            return Err(pin_message("pin ", pin, " is not a usable GPIO"));
        }
        k += 1;
    }
    Ok(())
}

} // verus!
