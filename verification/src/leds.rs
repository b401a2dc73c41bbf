//! The two front-panel LEDs: what colours they show, and the words that clock
//! them out.

use crate::single::Single;
use crate::state::{MachineState, Telemetry};
use vstd::prelude::*;

verus! {

#[derive(Clone, Copy, Debug, PartialEq, Eq, Structural)]
pub struct Rgb {
    pub r: u8,
    pub g: u8,
    pub b: u8,
}

impl Rgb {
    pub fn new(r: u8, g: u8, b: u8) -> (c: Rgb)
        ensures
            c == (Rgb { r, g, b }),
    {
        Rgb { r, g, b }
    }

    pub fn off() -> (c: Rgb)
        ensures
            c == (Rgb { r: 0, g: 0, b: 0 }),
    {
        Rgb::new(0, 0, 0)
    }
}

/// Brightness, of 256.
pub const BRIGHTNESS: u32 = 30;

/// The word for one LED: green, red and blue from the top byte down, each
/// scaled to the brightness.
pub open spec fn led_word(led: Rgb) -> int {
    (led.g * BRIGHTNESS / 256) * 0x100_0000 + (led.r * BRIGHTNESS / 256) * 0x1_0000 + (led.b
        * BRIGHTNESS / 256) * 0x100
}

fn pack(led: Rgb) -> (r: u32)
    ensures
        r == led_word(led),
{
    let (r, g, b) = (
        (led.r as u32 * BRIGHTNESS) >> 8,
        (led.g as u32 * BRIGHTNESS) >> 8,
        (led.b as u32 * BRIGHTNESS) >> 8,
    );
    proof {
        let (x, y, z) = (
            (led.r as u32 * BRIGHTNESS) as u32,
            (led.g as u32 * BRIGHTNESS) as u32,
            (led.b as u32 * BRIGHTNESS) as u32,
        );
        assert(x >> 8 == x / 256 && y >> 8 == y / 256 && z >> 8 == z / 256) by (bit_vector);
        assert(r < 256 && g < 256 && b < 256 ==> ((g << 24) | (r << 16) | (b << 8)) == g * 0x100_0000
            + r * 0x1_0000 + b * 0x100) by (bit_vector);
    }
    // WS2812 expects GRB format (MSB first): the PIO uses the top 24 bits.
    (g << 24) | (r << 16) | (b << 8)
}

/// The two words of a frame. Both go into the FIFO back-to-back, so the PIO
/// never stalls mid-frame — a stall forces the line low and would latch the
/// pixels early.
pub fn write_frame(leds: [Rgb; 2]) -> (words: [u32; 2])
    ensures
        words@[0] == led_word(leds@[0]),
        words@[1] == led_word(leds@[1]),
{
    [pack(leds[0]), pack(leds[1])]
}

// ==========================================
// LED COLOR HELPERS
// ==========================================

/// Pump duty the brew LED treats as "on target", and the ±span of the
/// crossfade around it: solid blue at or below 60%, green at 80%, solid red at
/// 100%.
pub const PUMP_TARGET_DUTY: u32 = 80;

pub const PUMP_DUTY_WINDOW: u32 = 20;

/// Span of the crossfade around the boiler's target, in degrees.
pub const BOILER_WINDOW: u32 = 10;

/// How far `current` is past `low`, as a brightness out of 255 per `window`.
pub open spec fn share(current: Single, low: Single, window: Single) -> Single {
    Single::whole(255).times(current.minus(low)).over(window)
}

pub open spec fn byte(x: Single) -> u8 {
    x.whole_part(255) as u8
}

/// Blue (cold/low) → Green (on target) → Red (hot/high), with a ±`window`
/// crossfade zone.
pub open spec fn color_for(current: Single, target: Single, window: Single) -> Rgb {
    let (low, high) = (target.minus(window), target.plus(window));
    if current.at_most(target) {
        if current.at_most(low) {
            Rgb { r: 0, g: 0, b: 255 }
        } else {
            let g = share(current, low, window);
            Rgb { r: 0, g: byte(g), b: byte(Single::whole(255).minus(g)) }
        }
    } else {
        if high.at_most(current) {
            Rgb { r: 255, g: 0, b: 0 }
        } else {
            let r = share(current, target, window);
            Rgb { r: byte(r), g: byte(Single::whole(255).minus(r)), b: 0 }
        }
    }
}

pub fn temp_color(current: Single, target: Single, window: Single) -> (c: Rgb)
    ensures
        c == color_for(current, target, window),
{
    let full: Single = Single::from_u32(255);
    if current.le(target) {
        let lower_bound: Single = target.sub(window);
        if current.le(lower_bound) {
            Rgb::new(0, 0, 255)
        } else {
            let g: Single = full.mul(current.sub(lower_bound)).div(window);
            Rgb::new(0, g.to_u8(), full.sub(g).to_u8())
        }
    } else {
        let upper_bound: Single = target.add(window);
        if current.ge(upper_bound) {
            Rgb::new(255, 0, 0)
        } else {
            let r: Single = full.mul(current.sub(target)).div(window);
            Rgb::new(r.to_u8(), full.sub(r).to_u8(), 0)
        }
    }
}

// ==========================================
// LED UI
// ==========================================

/// How long after a wakeup the machine counts as warming up, in microseconds.
pub const WARMUP_US: u64 = 360_000_000;

/// What the LEDs remember between redraws.
#[derive(Clone, Copy, Debug)]
pub struct LedPanel {
    /// Time of the last wakeup, in microseconds since boot.
    pub last_wakeup: u64,
    pub was_sleeping: bool,
}

impl LedPanel {
    /// Remembers when the machine woke up.
    pub open spec fn noted(self, state: MachineState, now: u64) -> LedPanel {
        LedPanel {
            last_wakeup: if self.was_sleeping && state != MachineState::Sleeping {
                now
            } else {
                self.last_wakeup
            },
            was_sleeping: state == MachineState::Sleeping,
        }
    }

    pub open spec fn warming_up(self, now: u64) -> bool {
        now - self.last_wakeup < WARMUP_US
    }

    pub fn new(now: u64) -> (r: LedPanel)
        ensures
            r == (LedPanel { last_wakeup: now, was_sleeping: false }),
    {
        LedPanel { last_wakeup: now, was_sleeping: false }
    }

    /// Redraws both LEDs: the colours they are to show.
    pub fn render(&mut self, state: MachineState, a: &Telemetry, now: u64) -> (leds: [Rgb; 2])
        requires
            old(self).last_wakeup <= now,
        ensures
            *final(self) == old(self).noted(state, now),
            final(self).last_wakeup <= now,
            leds@ == shown(state, *a, final(self).warming_up(now)),
    {
        // Track wakeup time so we can detect the 6-minute warmup window.
        if self.was_sleeping && state != MachineState::Sleeping {
            self.last_wakeup = now;
        }
        self.was_sleeping = state == MachineState::Sleeping;

        let boiler: Rgb = temp_color(a.temp_c, a.target_temp, Single::from_u32(BOILER_WINDOW));
        let leds: [Rgb; 2] = match state {
            // Both LEDs magenta in sleep.
            MachineState::Sleeping => [Rgb::new(255, 0, 255), Rgb::new(255, 0, 255)],
            MachineState::Brewing => {
                // LED1: pump-power crossfade vs the 80% target.
                let pump: Rgb = if a.pump_duty.is_positive() {
                    temp_color(
                        a.pump_duty,
                        Single::from_u32(PUMP_TARGET_DUTY),
                        Single::from_u32(PUMP_DUTY_WINDOW),
                    )
                } else {
                    Rgb::off()
                };
                [boiler, pump]
            },
            // LED1: boiler colors.
            MachineState::Steaming => [Rgb::off(), boiler],
            // Warmup: only reaches here for inactive states (Idle, Pumping, etc.)
            _ => if now - self.last_wakeup < WARMUP_US {
                // LED1: red brightness proportional to heater power (0–100% → 0–255).
                let r: u8 = a.heater_duty.clamp(Single::from_u32(0), Single::from_u32(100)).mul(
                    Single::ratio(255, 100),
                ).to_u8();
                [boiler, Rgb::new(r, 0, 0)]
            } else {
                [boiler, Rgb::off()]
            },
        };
        assert(leds@ =~= shown(state, *a, self.warming_up(now)));
        leds
    }
}

/// What the two LEDs show.
pub open spec fn shown(state: MachineState, a: Telemetry, warming_up: bool) -> Seq<Rgb> {
    let off = Rgb { r: 0, g: 0, b: 0 };
    let magenta = Rgb { r: 255, g: 0, b: 255 };
    let boiler = color_for(a.temp_c, a.target_temp, Single::whole(BOILER_WINDOW as int));
    match state {
        MachineState::Sleeping => seq![magenta, magenta],
        MachineState::Brewing => seq![
            boiler,
            if a.pump_duty.positive() {
                color_for(
                    a.pump_duty,
                    Single::whole(PUMP_TARGET_DUTY as int),
                    Single::whole(PUMP_DUTY_WINDOW as int),
                )
            } else {
                off
            },
        ],
        MachineState::Steaming => seq![off, boiler],
        _ => if warming_up {
            let duty = a.heater_duty.clamped(Single::whole(0), Single::whole(100));
            seq![boiler, Rgb { r: byte(duty.times(Single::fraction(255, 100))), g: 0, b: 0 }]
        } else {
            seq![boiler, off]
        },
    }
}

/// At or below target nothing is red, above it nothing is blue.
pub proof fn law_red_is_hot_and_blue_is_cold(current: Single, target: Single, window: Single)
    ensures
        current.at_most(target) ==> color_for(current, target, window).r == 0,
        !current.at_most(target) ==> color_for(current, target, window).b == 0,
{
}

/// Different scaled colours have different words, and the low byte, which is
/// not clocked out, is empty.
pub proof fn law_frame_words_keep_the_channels(led: Rgb)
    ensures
        led_word(led) / 0x100_0000 == led.g * BRIGHTNESS / 256,
        (led_word(led) / 0x1_0000) % 256 == led.r * BRIGHTNESS / 256,
        (led_word(led) / 0x100) % 256 == led.b * BRIGHTNESS / 256,
        led_word(led) % 256 == 0,
        0 <= led_word(led) <= u32::MAX,
{
    let (g, r, b) = (led.g * BRIGHTNESS / 256, led.r * BRIGHTNESS / 256, led.b * BRIGHTNESS / 256);
    assert(0 <= g < 256 && 0 <= r < 256 && 0 <= b < 256);
    lemma_channels(g, r, b);
}

proof fn lemma_channels(g: int, r: int, b: int)
    requires
        0 <= g < 256,
        0 <= r < 256,
        0 <= b < 256,
    ensures
        ({
            let word = g * 0x100_0000 + r * 0x1_0000 + b * 0x100;
            &&& word / 0x100_0000 == g
            &&& (word / 0x1_0000) % 256 == r
            &&& (word / 0x100) % 256 == b
            &&& word % 256 == 0
            &&& 0 <= word <= u32::MAX
        }),
{
    let word = g * 0x100_0000 + r * 0x1_0000 + b * 0x100;
    assert(word / 0x1_0000 == g * 256 + r);
    assert(word / 0x100 == g * 0x1_0000 + r * 256 + b);
}

} // verus!
