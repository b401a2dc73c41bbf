//! What the front panel does: which command each button stands for, and what
//! the two LEDs show.

use crate::buttons::{completed, DebounceModel};
use crate::leds::{color_for, led_word, shown, LedPanel, Rgb};
use crate::single::Single;
use crate::state::{CommandModel, MachineState, Telemetry};
use vstd::arithmetic::power2::*;
use vstd::prelude::*;

verus! {

// ==========================================
// BUTTONS
// ==========================================

/// A press of a button is complete with the fifth low sample in a row.
pub open spec fn fifth_low(button: DebounceModel, low: bool) -> bool {
    low && !button.pressed && button.count == 4
}

/// Some command, or none.
pub open spec fn if_pressed(pressed: bool, cmd: CommandModel) -> Seq<CommandModel> {
    if pressed {
        seq![cmd]
    } else {
        Seq::empty()
    }
}

/// A round of samples sends the commands of exactly the buttons whose press it
/// completes: the first one power, the second brew, the third steam, the fourth
/// flush.
pub proof fn law_buttons_send_their_commands(panel: Seq<DebounceModel>, lows: Seq<bool>)
    requires
        panel.len() == 4,
        lows.len() == 4,
        forall|i: int| 0 <= i < 4 ==> (#[trigger] panel[i]).wf(),
    ensures
        completed(panel, lows, 4) == if_pressed(
            fifth_low(panel[0], lows[0]),
            CommandModel::TogglePower,
        ) + if_pressed(fifth_low(panel[1], lows[1]), CommandModel::Brew) + if_pressed(
            fifth_low(panel[2], lows[2]),
            CommandModel::Steam,
        ) + if_pressed(fifth_low(panel[3], lows[3]), CommandModel::Flush),
{
    reveal_with_fuel(completed, 5);
    assert(panel[0].wf() && panel[1].wf() && panel[2].wf() && panel[3].wf());
    let a = if_pressed(fifth_low(panel[0], lows[0]), CommandModel::TogglePower);
    let b = if_pressed(fifth_low(panel[1], lows[1]), CommandModel::Brew);
    let c = if_pressed(fifth_low(panel[2], lows[2]), CommandModel::Steam);
    let d = if_pressed(fifth_low(panel[3], lows[3]), CommandModel::Flush);
    assert(completed(panel, lows, 1) =~= a);
    assert(completed(panel, lows, 2) =~= a + b);
    assert(completed(panel, lows, 3) =~= a + b + c);
    assert(completed(panel, lows, 4) =~= a + b + c + d);
}

/// A sample moves a button's count as follows: one that agrees with the level
/// believed clears it, one that does not adds to it, and the fifth of those in
/// a row changes the level.
pub proof fn law_level_changes_on_the_fifth_sample(button: DebounceModel, low: bool)
    requires
        button.wf(),
    ensures
        button.count <= 4,
        ({
            let after = button.polled(low);
            &&& low == button.pressed ==> after.pressed == low && after.count == 0
            &&& low != button.pressed && button.count < 4 ==> after.pressed == button.pressed
                && after.count == button.count + 1
            &&& low != button.pressed && button.count == 4 ==> after.pressed == low && after.count
                == 0
        }),
        button.reports(low) <==> fifth_low(button, low),
{
}

// ==========================================
// COLOURS
// ==========================================

/// How bright a channel is, `k` steps into a window of `w`.
proof fn lemma_share(k: int, w: int)
    requires
        0 <= k <= w,
        w == 10 || w == 20,
    ensures
        ({
            let g = Single::whole(255).times(Single::whole(k)).over(Single::whole(w));
            &&& crate::leds::byte(g) == 255 * k / w
            &&& crate::leds::byte(Single::whole(255).minus(g)) == 255 * (w - k) / w
        }),
{
    Single::law_small_whole_arithmetic_is_exact(255, k);
    Single::lemma_whole_exact(255 * k);
    Single::lemma_whole_exact(255);
    Single::lemma_whole_exact(w);
    let top = Single::whole(255 * k);
    let p = pow2(149) as int;
    let q = pow2(147) as int;
    lemma_pow2_pos(149);
    lemma_pow2_pos(147);
    lemma_pow2_adds(2, 147);
    lemma2_to64();
    assert(p == 4 * q);
    top.lemma_over_value(Single::whole(w));
    let n = if w == 10 {
        102 * k
    } else {
        51 * k
    };
    let g = top.over(Single::whole(w));
    assert(((255 * k) * p) * p == (n * q) * (w * p)) by (nonlinear_arith)
        requires
            p == 4 * q,
            n * w == 1020 * k,
    ;
    g.lemma_rounded_exactly(n, 147, w * p);
    assert(255 * p == 1020 * q);
    Single::whole(255).lemma_minus_exact(g, 1020, n, 147);
    let rest = Single::whole(255).minus(g);
    assert(rest.value() == (1020 - n) * q) by (nonlinear_arith)
        requires
            rest.value() == 1020 * q - n * q,
    ;
    assert((n * q) / (4 * q) == n / 4 && ((1020 - n) * q) / (4 * q) == (1020 - n) / 4) by {
        lemma_quarters(n, q);
        lemma_quarters(1020 - n, q);
    }
    assert(n * q >= 0 && (1020 - n) * q >= 0) by (nonlinear_arith)
        requires
            0 <= n <= 1020,
            q > 0,
    ;
    g.lemma_whole_part_value(255);
    rest.lemma_whole_part_value(255);
}

proof fn lemma_quarters(n: int, q: int)
    requires
        n >= 0,
        q > 0,
    ensures
        (n * q) / (4 * q) == n / 4,
{
    let d = n / 4;
    let r = n % 4;
    assert(n * q == d * (4 * q) + r * q && 0 <= r * q < 4 * q) by (nonlinear_arith)
        requires
            n == 4 * d + r,
            0 <= r < 4,
            q > 0,
    ;
    vstd::arithmetic::div_mod::lemma_fundamental_div_mod_converse(n * q, 4 * q, d, r * q);
}

/// The colour of a whole number against a whole target, with a window of 10 or
/// 20 around it: blue to the window's lower end, from there to green at the
/// target, from there to red at its upper end, each channel in proportion.
pub proof fn law_colour_crosses_over(current: int, target: int, window: int)
    requires
        window == 10 || window == 20,
        window <= target < 0x80_0000,
        0 <= current < 0x80_0000,
    ensures
        ({
            let c = color_for(Single::whole(current), Single::whole(target), Single::whole(window));
            if current <= target - window {
                c == (Rgb { r: 0, g: 0, b: 255 })
            } else if current <= target {
                let k = current - (target - window);
                c.r == 0 && c.g == 255 * k / window && c.b == 255 * (window - k) / window
            } else if current < target + window {
                let k = current - target;
                c.r == 255 * k / window && c.g == 255 * (window - k) / window && c.b == 0
            } else {
                c == (Rgb { r: 255, g: 0, b: 0 })
            }
        }),
{
    let (c, t, w) = (Single::whole(current), Single::whole(target), Single::whole(window));
    Single::law_small_whole_arithmetic_is_exact(target, window);
    lemma_order(current, target);
    lemma_order(current, target - window);
    lemma_order(target + window, current);
    if target - window < current <= target {
        Single::law_small_whole_arithmetic_is_exact(current, target - window);
        lemma_share(current - (target - window), window);
    } else if target < current < target + window {
        Single::law_small_whole_arithmetic_is_exact(current, target);
        lemma_share(current - target, window);
    }
}

proof fn lemma_order(a: int, b: int)
    requires
        0 <= a < 0x100_0000,
        0 <= b < 0x100_0000,
    ensures
        Single::whole(a).at_most(Single::whole(b)) <==> a <= b,
{
    Single::lemma_whole_exact(a);
    Single::lemma_whole_exact(b);
    let p = pow2(149) as int;
    lemma_pow2_pos(149);
    assert(a * p <= b * p <==> a <= b) by (nonlinear_arith)
        requires
            p > 0,
    ;
}

/// A sleeping machine shows magenta twice. A brewing one shows the boiler, 10
/// degrees around its setpoint, and the pump, 20 percent around 80, dark while
/// it rests. A steaming one shows the boiler on the second LED alone. Any other
/// shows the boiler, and beside it, while it warms up, red for the heater;
/// nothing otherwise.
pub proof fn law_leds_show_the_state(state: MachineState, a: Telemetry, warming_up: bool)
    ensures
        ({
            let leds = shown(state, a, warming_up);
            let boiler = color_for(a.temp_c, a.target_temp, Single::whole(10));
            let off = Rgb { r: 0, g: 0, b: 0 };
            let magenta = Rgb { r: 255, g: 0, b: 255 };
            &&& leds.len() == 2
            &&& match state {
                MachineState::Sleeping => leds[0] == magenta && leds[1] == magenta,
                MachineState::Brewing => leds[0] == boiler && leds[1] == if Single::whole(0).less(
                    a.pump_duty,
                ) {
                    color_for(a.pump_duty, Single::whole(80), Single::whole(20))
                } else {
                    off
                },
                MachineState::Steaming => leds[0] == off && leds[1] == boiler,
                MachineState::Idle => leds[0] == boiler && leds[1].g == 0 && leds[1].b == 0,
                MachineState::Pumping => leds[0] == boiler && leds[1].g == 0 && leds[1].b == 0,
                MachineState::Cooling => leds[0] == boiler && leds[1].g == 0 && leds[1].b == 0,
                MachineState::HotWater => leds[0] == boiler && leds[1].g == 0 && leds[1].b == 0,
            }
            &&& !warming_up && state != MachineState::Sleeping && state != MachineState::Brewing
                && state != MachineState::Steaming ==> leds[1].r == 0
        }),
{
    Single::lemma_whole_exact(0);
    assert(0 * pow2(149) == 0);
}

/// While the machine warms up, the second LED's red is as bright, out of 255,
/// as the heater's duty is out of 100.
pub proof fn law_warm_up_shows_the_heater(state: MachineState, a: Telemetry, percent: int)
    requires
        state != MachineState::Sleeping && state != MachineState::Brewing && state
            != MachineState::Steaming,
        a.heater_duty == Single::whole(percent),
        0 <= percent <= 100,
    ensures
        255 * percent - 100 <= 100 * shown(state, a, true)[1].r <= 255 * percent,
{
    let duty = Single::whole(percent);
    let p = pow2(149) as int;
    lemma_pow2_pos(149);
    lemma2_to64();
    Single::lemma_whole_exact(percent);
    lemma_order(percent, 100);
    lemma_order(100, percent);
    lemma_order(percent, 0);
    lemma_order(0, percent);
    Single::lemma_whole_exact(0);
    Single::lemma_whole_exact(100);
    assert(percent * p >= 0 && percent * p <= 100 * p) by (nonlinear_arith)
        requires
            0 <= percent <= 100,
            p > 0,
    ;
    assert(duty.clamped(Single::whole(0), Single::whole(100)) == duty);
    let scale = Single::fraction(255, 100);
    Single::lemma_fraction_rounded(255, 100);
    lemma_pow2_adds(2, 149);
    lemma_pow2_adds(21, 128);
    lemma_pow2_adds(8, 149);
    lemma_pow2_adds(15, 134);
    scale.lemma_rounded_within(255 * p, 100, 2);
    let f = scale.value();
    duty.lemma_times_value(scale);
    let x = (percent * p) * f;
    let product = duty.times(scale);
    assert(0 <= x <= p * (256 * p)) by (nonlinear_arith)
        requires
            x == (percent * p) * f,
            0 <= percent <= 100,
            0 <= f,
            100 * f <= 256 * p,
            p > 0,
    ;
    assert(p * pow2(157) == p * (256 * p)) by (nonlinear_arith)
        requires
            pow2(157) == 256 * p,
    ;
    product.lemma_rounded_within(x, p, 8);
    let r = product.value();
    let g = pow2(134) as int;
    assert(2 * (r - percent * f) <= g && 2 * (percent * f - r) <= g) by (nonlinear_arith)
        requires
            2 * (p * r - x) <= p * g,
            2 * (x - p * r) <= p * g,
            x == (percent * p) * f,
            p > 0,
    ;
    let h = pow2(128) as int;
    assert(2 * (100 * (percent * f) - 255 * (percent * p)) <= 10_000 * h && 2 * (255 * (percent
        * p) - 100 * (percent * f)) <= 10_000 * h) by (nonlinear_arith)
        requires
            2 * (100 * f - 255 * p) <= 100 * h,
            2 * (255 * p - 100 * f) <= 100 * h,
            0 <= percent <= 100,
            h > 0,
    ;
    assert(p == 0x20_0000 * h && p == 0x8000 * g);
    product.lemma_whole_part_value(255);
    let k = r / p;
    assert(k * p <= r < k * p + p) by (nonlinear_arith)
        requires
            k == r / p,
            p > 0,
    ;
    let gap = 100 * r - 255 * (percent * p);
    assert(50 * gap <= p && -50 * gap <= p);
    assert(255 * percent - 100 <= 100 * k <= 255 * percent) by (nonlinear_arith)
        requires
            k * p <= r,
            r < k * p + p,
            50 * (100 * r - 255 * (percent * p)) <= p,
            -50 * (100 * r - 255 * (percent * p)) <= p,
            p > 0,
    ;
    assert(0 <= k) by (nonlinear_arith)
        requires
            r < k * p + p,
            r >= 0,
            p > 0,
    ;
}

/// The machine warms up for six minutes from when it was last seen to wake, or
/// from the start.
pub proof fn law_warm_up_lasts_six_minutes(
    panel: LedPanel,
    state: MachineState,
    woke: u64,
    now: u64,
)
    requires
        woke <= now,
    ensures
        ({
            let after = panel.noted(state, woke);
            let since = if panel.was_sleeping && state != MachineState::Sleeping {
                woke
            } else {
                panel.last_wakeup
            };
            &&& after.was_sleeping <==> state == MachineState::Sleeping
            &&& after.warming_up(now) <==> now < since + 360_000_000
        }),
{
}

/// The word of an LED: green, red, blue from the top, each 30 parts of 256 of
/// what is asked for; the lowest byte empty.
pub proof fn law_word_holds_dimmed_channels(led: Rgb)
    ensures
        led_word(led) / 0x100_0000 == (30 * led.g) / 256,
        (led_word(led) / 0x1_0000) % 256 == (30 * led.r) / 256,
        (led_word(led) / 0x100) % 256 == (30 * led.b) / 256,
        led_word(led) % 256 == 0,
{
    crate::leds::law_frame_words_keep_the_channels(led);
}

} // verus!
