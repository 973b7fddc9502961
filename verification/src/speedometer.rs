//! What a speedometer shows on a strip of lights, and how the readings of a
//! vehicle come in and move.
use vstd::prelude::*;
use crate::entity_kind::text_is;

verus! {

/// The colour at the slow end of the speedometer.
pub const COLOR_LEFT: u32 = 0x00200000;

/// The colour at the fast end of the speedometer.
pub const COLOR_RIGHT: u32 = 0x00002000;

/// The fastest speed that the speedometer can scale without overflow.
pub const MAX_SCALED_SPEED: i32 = 69_273_666;

/// What to show on the strip.
#[derive(Clone, Copy, Debug, PartialEq, Eq, Structural)]
pub enum LedCommand {
    /// One colour on all lights.
    AllLeds { color: u32 },
    /// A gradient from the slow colour to the fast colour between two
    /// columns.
    Gradient { start: usize, end: usize },
}

/// The state of the blinking that warns of too much speed.
#[derive(Clone, Copy, Debug, PartialEq, Eq, Structural)]
pub struct Blink {
    /// How many readings the colour stays.
    pub delay: u32,
    /// How many readings the colour has stayed.
    pub current: u32,
    /// The colour shown.
    pub color: u32,
}

/// The blinking after one more reading of too much speed: once the colour
/// has stayed longer than the delay it changes between dark and the slow
/// colour.
pub open spec fn blink_next(blink: Blink) -> Blink {
    if blink.current > blink.delay {
        Blink {
            delay: blink.delay,
            current: 1,
            color: if blink.color > 0 {
                0
            } else {
                COLOR_LEFT
            },
        }
    } else {
        Blink { delay: blink.delay, current: (blink.current + 1) as u32, color: blink.color }
    }
}

/// Half the top speed, rounded towards zero.
pub open spec fn half_of(max_speed: i32) -> int {
    if max_speed >= 0 {
        max_speed / 2
    } else {
        -((-max_speed) / 2)
    }
}

/// Whether a speed makes the speedometer blink: it is not standstill, it is
/// above half the top speed and it is the top speed or more.
pub open spec fn blinks(speed: i32, max_speed: i32) -> bool {
    speed != 0 && speed > half_of(max_speed) && speed >= max_speed
}

/// What the speedometer shows for a speed: the fast colour at standstill;
/// up to half the top speed a gradient that grows from the left; beyond it
/// a gradient that shrinks to the right; at the top speed and above, the
/// blinking.
pub open spec fn speed_display(speed: i32, max_speed: i32, blink: Blink) -> (LedCommand, Blink) {
    let half = half_of(max_speed);
    if speed == 0 {
        (LedCommand::AllLeds { color: COLOR_RIGHT }, blink)
    } else if speed <= half {
        (LedCommand::Gradient { start: 0, end: ((31 * speed) / half) as usize }, blink)
    } else if speed >= max_speed {
        (LedCommand::AllLeds { color: blink_next(blink).color }, blink_next(blink))
    } else {
        (LedCommand::Gradient { start: ((31 * (speed - half)) / half) as usize, end: 31 }, blink)
    }
}

/// What the speedometer shows for a speed, and the blinking afterwards. A
/// speed below the top speed must be one that a gradient can show: not
/// negative, and small enough to be scaled. At the top speed and above any
/// speed will do.
pub fn show_speed(speed: i32, max_speed: i32, blink: Blink) -> (r: (LedCommand, Blink))
    requires
        !blinks(speed, max_speed) ==> 0 <= speed <= MAX_SCALED_SPEED,
        blinks(speed, max_speed) && blink.current <= blink.delay ==> blink.current < u32::MAX,
    ensures
        r == speed_display(speed, max_speed, blink),
        match r.0 {
            LedCommand::Gradient { start, end } => start <= end < 32,
            LedCommand::AllLeds { .. } => true,
        },
{
    let top: i64 = max_speed as i64;
    let half: i64 = if top >= 0 {
        top / 2
    } else {
        -((-top) / 2)
    };
    let now: i64 = speed as i64;
    assert(half == half_of(max_speed));
    if speed == 0 {
        (LedCommand::AllLeds { color: COLOR_RIGHT }, blink)
    } else if now <= half {
        let scaled: i64 = 31 * now / half;
        assert(0 <= scaled <= 31) by (nonlinear_arith)
            requires
                0 < now <= half,
                scaled == (31 * now) / (half as int),
        ;
        (LedCommand::Gradient { start: 0, end: scaled as usize }, blink)
    } else if speed >= max_speed {
        let next = if blink.current > blink.delay {
            Blink {
                delay: blink.delay,
                current: 1,
                color: if blink.color > 0 {
                    0
                } else {
                    COLOR_LEFT
                },
            }
        } else {
            Blink { delay: blink.delay, current: blink.current + 1, color: blink.color }
        };
        (LedCommand::AllLeds { color: next.color }, next)
    } else {
        let over: i64 = now - half;
        assert(0 < over <= half);
        let scaled: i64 = 31 * over / half;
        assert(0 <= scaled <= 31) by (nonlinear_arith)
            requires
                0 < over <= half,
                scaled == (31 * over) / (half as int),
        ;
        (LedCommand::Gradient { start: scaled as usize, end: 31 }, blink)
    }
}

/// A reading of the vehicle.
#[derive(Clone, Copy, Debug, PartialEq, Eq, Structural)]
pub enum VehicleSignal {
    Speed,
    Mileage,
    Gear,
    Fuel,
    Rpm,
    WheelPressureFrontLeft,
    WheelPressureFrontRight,
    WheelPressureRearLeft,
    WheelPressureRearRight,
}

/// The reading that arrives on a topic of the dashboard.
pub open spec fn signal_of_topic(topic: Seq<char>) -> Option<VehicleSignal> {
    if topic == "dashboard/value/speed"@ {
        Some(VehicleSignal::Speed)
    } else if topic == "dashboard/value/mileage"@ {
        Some(VehicleSignal::Mileage)
    } else if topic == "dashboard/value/gear"@ {
        Some(VehicleSignal::Gear)
    } else if topic == "dashboard/value/gas-level"@ {
        Some(VehicleSignal::Fuel)
    } else if topic == "dashboard/value/tacho"@ {
        Some(VehicleSignal::Rpm)
    } else if topic == "dashboard/value/wheel-pressure-fl"@ {
        Some(VehicleSignal::WheelPressureFrontLeft)
    } else if topic == "dashboard/value/wheel-pressure-fr"@ {
        Some(VehicleSignal::WheelPressureFrontRight)
    } else if topic == "dashboard/value/wheel-pressure-rl"@ {
        Some(VehicleSignal::WheelPressureRearLeft)
    } else if topic == "dashboard/value/wheel-pressure-rr"@ {
        Some(VehicleSignal::WheelPressureRearRight)
    } else {
        None
    }
}

/// The reading that arrives on `topic`, if one does.
pub fn signal_for_topic(topic: &str) -> (r: Option<VehicleSignal>)
    ensures
        r == signal_of_topic(topic@),
{
    let owned: String = topic.to_owned();
    if text_is(&owned, "dashboard/value/speed") {
        Some(VehicleSignal::Speed)
    } else if text_is(&owned, "dashboard/value/mileage") {
        Some(VehicleSignal::Mileage)
    } else if text_is(&owned, "dashboard/value/gear") {
        Some(VehicleSignal::Gear)
    } else if text_is(&owned, "dashboard/value/gas-level") {
        Some(VehicleSignal::Fuel)
    } else if text_is(&owned, "dashboard/value/tacho") {
        Some(VehicleSignal::Rpm)
    } else if text_is(&owned, "dashboard/value/wheel-pressure-fl") {
        Some(VehicleSignal::WheelPressureFrontLeft)
    } else if text_is(&owned, "dashboard/value/wheel-pressure-fr") {
        Some(VehicleSignal::WheelPressureFrontRight)
    } else if text_is(&owned, "dashboard/value/wheel-pressure-rl") {
        Some(VehicleSignal::WheelPressureRearLeft)
    } else if text_is(&owned, "dashboard/value/wheel-pressure-rr") {
        Some(VehicleSignal::WheelPressureRearRight)
    } else {
        None
    }
}

/// The lowest temperature of the cabin.
pub const LOW_TEMPERATURE: u32 = 65;

/// The highest temperature that the cabin reaches on its own.
pub const HIGH_TEMPERATURE: u32 = 85;

/// The highest temperature that the cabin reaches with the air
/// conditioning off.
pub const MAX_HVAC_TEMPERATURE: u32 = 100;

/// The temperature one second later, and whether it is rising: it rises by
/// one up to 85, then falls by one down to 65, and so on.
pub open spec fn bounce(temperature: u32, rising: bool) -> (int, bool) {
    if rising {
        if temperature == HIGH_TEMPERATURE {
            (temperature - 1, false)
        } else {
            (temperature + 1, true)
        }
    } else {
        if temperature == LOW_TEMPERATURE {
            (temperature + 1, true)
        } else {
            (temperature - 1, false)
        }
    }
}

/// The temperature one second later, and whether it is rising.
pub fn next_temperature(temperature: u32, rising: bool) -> (r: (u32, bool))
    requires
        rising ==> temperature < u32::MAX,
        !rising ==> temperature > 0,
    ensures
        r.0 == bounce(temperature, rising).0,
        r.1 == bounce(temperature, rising).1,
        LOW_TEMPERATURE <= temperature <= HIGH_TEMPERATURE ==> LOW_TEMPERATURE <= r.0
            <= HIGH_TEMPERATURE,
{
    if rising {
        if temperature == HIGH_TEMPERATURE {
            (temperature - 1, false)
        } else {
            (temperature + 1, true)
        }
    } else {
        if temperature == LOW_TEMPERATURE {
            (temperature + 1, true)
        } else {
            (temperature - 1, false)
        }
    }
}

/// The temperature of the cabin one epoch later: with the air conditioning
/// on it falls by one down to 65, with it off it rises by one up to 100.
pub open spec fn ambient_after(temperature: u32, cooling: bool) -> int {
    if cooling {
        if temperature > LOW_TEMPERATURE {
            temperature - 1
        } else {
            temperature as int
        }
    } else if temperature < MAX_HVAC_TEMPERATURE {
        temperature + 1
    } else {
        temperature as int
    }
}

/// The temperature of the cabin one epoch later.
pub fn next_ambient_temperature(temperature: u32, cooling: bool) -> (r: u32)
    ensures
        r == ambient_after(temperature, cooling),
{
    if cooling {
        if temperature > LOW_TEMPERATURE {
            temperature - 1
        } else {
            temperature
        }
    } else if temperature < MAX_HVAC_TEMPERATURE {
        temperature + 1
    } else {
        temperature
    }
}

} // verus!
