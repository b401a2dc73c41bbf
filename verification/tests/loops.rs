use oximite::adc::{sample_avg, AdcFilter, KEPT_SAMPLES, SAMPLES};
use oximite::control::{
    get_delay_fraction, set_target_temp, BrewActiveGuard, ControlLoop, Outputs, PumpGuard,
    PumpMode, Signals, SolenoidGuard, TargetTempMode, TickInput, TickOutput, POWER_TO_DELAY_LUT,
};
use oximite::flow_meter::{
    flow_rate_ml_s, reset_volume, shot_volume_ml, FlowCells, FlowMeter, RateWindow,
};
use oximite::pid::PidController;
use oximite::settings::{ControlSettings, Settings};
use oximite::single::Single;
use oximite::state::SensorReading;

fn s(v: f32) -> Single {
    Single::from_bits(v.to_bits())
}

fn f(x: Single) -> f32 {
    f32::from_bits(x.to_bits())
}

/// The controller in hardware arithmetic.
struct Pid {
    kp: f32,
    ki: f32,
    kd: f32,
    i_term: f32,
    prev: f32,
    last: Option<u64>,
}

impl Pid {
    fn update(&mut self, target: f32, measurement: f32, now: u64) -> f32 {
        let dt: f32 = match self.last {
            Some(last) => ((now - last) as f32 / 1_000_000.0).clamp(0.01, 2.0),
            None => {
                self.prev = measurement;
                0.02
            }
        };
        self.last = Some(now);
        let error: f32 = target - measurement;
        let d_term: f32 = self.kd * (self.prev - measurement) / dt;
        self.prev = measurement;
        let base: f32 = self.kp * error + d_term;
        let ideal: f32 = base + self.i_term;
        let delta: f32 = self.ki * error * dt;
        let high: bool = ideal >= 100.0 && delta > 0.0;
        let low: bool = ideal <= 0.0 && delta < 0.0;
        if !high && !low {
            self.i_term = (self.i_term + delta).clamp(-20.0, 100.0);
        }
        (base + self.i_term).clamp(0.0, 100.0)
    }
}

#[test]
fn pid_follows_the_hardware_arithmetic() {
    let mut reference: Pid = Pid { kp: 8.0, ki: 0.8, kd: 20.0, i_term: 0.0, prev: 0.0, last: None };
    let mut pid: PidController = PidController::new(s(8.0), s(0.8), s(20.0));
    let mut t: f32 = 20.0;
    for k in 0..400u64 {
        let now: u64 = 1_000 + k * 200_000 + (k % 7) * 1_234;
        let want: f32 = reference.update(102.0, t, now);
        let got: Single = pid.update(s(102.0), s(t), now);
        assert_eq!(got.to_bits(), want.to_bits(), "step {}", k);
        assert!((0.0..=100.0).contains(&want));
        t += want * 0.01 - (t - 20.0) * 0.004;
    }
}

#[test]
fn pid_exact_first_step() {
    let mut pid: PidController = PidController::new(s(10.0), s(20.0), s(0.0));
    // 10 * 1 + 0 + integral 20 * 1 * 0.02.
    assert_eq!(f(pid.update(s(3.0), s(2.0), 0)), 10.0 + 20.0 * 1.0 * 0.02);
}

#[test]
fn pid_does_not_wind_up_while_saturated() {
    let mut pid: PidController = PidController::new(s(100.0), s(50.0), s(0.0));
    for k in 0..100u64 {
        assert_eq!(f(pid.update(s(10.0), s(0.0), k * 20_000)), 100.0);
    }
    // Nothing was accumulated, so the output falls at once.
    assert_eq!(f(pid.update(s(10.0), s(11.0), 2_000_000)), 0.0);
    let mut low: PidController = PidController::new(s(100.0), s(50.0), s(0.0));
    for k in 0..100u64 {
        assert_eq!(f(low.update(s(0.0), s(10.0), k * 20_000)), 0.0);
    }
    assert_eq!(f(low.update(s(1.0), s(0.0), 2_000_000)), 100.0);
}

#[test]
fn pid_reset_only_on_reactivation() {
    let mut pid: PidController = PidController::new(s(0.0), s(10.0), s(0.0));
    for k in 0..10u64 {
        pid.update(s(5.0), s(0.0), k * 1_000_000);
    }
    let wound: f32 = f(pid.update(s(5.0), s(5.0), 10_000_000));
    assert!(wound > 1.0);
    pid.reset_if_reactivated(s(5.0), s(6.0));
    assert_eq!(f(pid.update(s(5.0), s(5.0), 11_000_000)), wound);
    pid.reset_if_reactivated(s(0.0), s(6.0));
    assert_eq!(f(pid.update(s(5.0), s(5.0), 12_000_000)), 0.0);
    pid.set_coeffs(s(1.0), s(0.0), s(0.0));
    assert_eq!(f(pid.update(s(5.0), s(2.0), 13_000_000)), 3.0);
}

#[test]
fn delay_table_endpoints_and_interpolation() {
    assert_eq!(f(get_delay_fraction(s(0.0))), 0.8);
    assert_eq!(f(get_delay_fraction(s(-4.0))), 0.8);
    assert_eq!(f(get_delay_fraction(s(100.0))), 0.2);
    assert_eq!(f(get_delay_fraction(s(250.0))), 0.2);
    assert_eq!(f(get_delay_fraction(s(50.0))), 0.5);
    let lower: f32 = 0.5000;
    let upper: f32 = 0.4955;
    assert_eq!(f(get_delay_fraction(s(50.25))), lower + (upper - lower) * 0.25);
    let mut last: f32 = 1.0;
    for k in 0..=1000u32 {
        let d: f32 = f(get_delay_fraction(s(k as f32 / 10.0)));
        assert!((0.2..=0.8).contains(&d) && d <= last);
        last = d;
    }
    assert_eq!(POWER_TO_DELAY_LUT.len(), 101);
    assert_eq!(POWER_TO_DELAY_LUT[99], 2124);
}

fn input(period: Option<u32>, bar: f32, temp: f32, flow: f32, now: u64) -> TickInput {
    TickInput {
        period_us: period,
        sensors: SensorReading { pressure_bar: s(bar), temp_c: s(temp) },
        settings: ControlSettings::default(),
        flow_ml_s: s(flow),
        volume_ml: s(1.5),
        now,
    }
}

#[test]
fn idle_loop_heats_and_does_not_pump() {
    let mut control: ControlLoop = ControlLoop::new(ControlSettings::default());
    let mut signals: Signals = Signals::new();
    let mut fired: u32 = 0;
    for k in 0..50u64 {
        let out: TickOutput = control.tick(&input(Some(10_000), 0.0, 20.0, 0.0, k * 20_000), &mut signals);
        assert_eq!(out.triac_delay_us, None);
        assert_eq!(out.telemetry.tick, k as u32);
        assert_eq!(f(out.telemetry.heater_duty), 100.0);
        assert_eq!(f(out.telemetry.target_temp), 92.0);
        assert_eq!(f(out.telemetry.volume_ml), 1.5);
        if out.heater_on {
            fired += 1;
        }
    }
    assert_eq!(fired, 50);
}

#[test]
fn heater_fires_in_proportion_to_the_duty() {
    let mut settings: ControlSettings = ControlSettings::default();
    settings.temp_pid.kp = s(1.0);
    settings.temp_pid.ki = s(0.0);
    settings.temp_pid.kd = s(0.0);
    let mut control: ControlLoop = ControlLoop::new(settings);
    let mut signals: Signals = Signals::new();
    let mut fired: u32 = 0;
    for k in 0..100u64 {
        let mut i: TickInput = input(None, 0.0, 67.0, 0.0, k * 20_000);
        i.settings = settings;
        let out: TickOutput = control.tick(&i, &mut signals);
        assert_eq!(f(out.telemetry.heater_duty), 25.0);
        if out.heater_on {
            fired += 1;
        }
    }
    assert_eq!(fired, 25);
}

#[test]
fn direct_pump_fires_at_its_delay() {
    let mut control: ControlLoop = ControlLoop::new(ControlSettings::default());
    let mut signals: Signals = Signals::new();
    PumpMode::DirectPump(s(80.0)).apply(&mut signals);
    let out: TickOutput = control.tick(&input(Some(10_000), 0.0, 92.0, 0.0, 0), &mut signals);
    // 0.355 of 10 ms.
    assert_eq!(out.triac_delay_us, Some((0.3550f32 * 10_000.0) as u32));
    assert_eq!(f(out.telemetry.pump_duty), 80.0);
    assert!(!out.telemetry.flow_controlled);
    assert_eq!(signals.pump_mode, None);
    // Out of range power is clamped.
    PumpMode::DirectPump(s(400.0)).apply(&mut signals);
    let out: TickOutput = control.tick(&input(Some(10_000), 0.0, 92.0, 0.0, 20_000), &mut signals);
    assert_eq!(f(out.telemetry.pump_duty), 100.0);
    PumpMode::Idle.apply(&mut signals);
    let out: TickOutput = control.tick(&input(Some(10_000), 0.0, 92.0, 0.0, 40_000), &mut signals);
    assert_eq!(out.triac_delay_us, None);
}

#[test]
fn mains_period_is_filtered_and_guarded() {
    let mut control: ControlLoop = ControlLoop::new(ControlSettings::default());
    let mut signals: Signals = Signals::new();
    PumpMode::DirectPump(s(50.0)).apply(&mut signals);
    let mut ema: f32 = 10_000.0;
    for (k, raw) in [8_333u32, 8_333, 7_500, 11_500, 400, 9_000].iter().enumerate() {
        let raw: u32 = *raw;
        if raw > 7_500 && raw < 11_500 {
            ema = ema + 0.10 * (raw as f32 - ema);
        }
        let out: TickOutput =
            control.tick(&input(Some(raw), 0.0, 92.0, 0.0, k as u64 * 20_000), &mut signals);
        assert_eq!(out.triac_delay_us, Some((0.5 * ema) as u32));
    }
}

#[test]
fn pressure_ceiling_uses_the_normalised_controller() {
    let settings: ControlSettings = ControlSettings::default();
    let mut control: ControlLoop = ControlLoop::new(settings);
    let mut signals: Signals = Signals::new();
    PumpMode::Pressure { bar: s(9.0), flow_limit_ml_s: s(0.0) }.apply(&mut signals);
    let mut reference: Pid = Pid { kp: 10.0, ki: 20.0, kd: 0.0, i_term: 0.0, prev: 0.0, last: None };
    let mut bar: f32 = 0.0;
    for k in 0..60u64 {
        let now: u64 = k * 20_000;
        let u_p: f32 = 1.0 + 7.5 * (bar / 9.0 - 1.0);
        let want: f32 = reference.update(1.0, u_p, now);
        let out: TickOutput = control.tick(&input(None, bar, 92.0, 0.0, now), &mut signals);
        assert_eq!(out.telemetry.pump_duty.to_bits(), want.to_bits());
        assert_eq!(f(out.telemetry.target_bar), 9.0);
        assert_eq!(f(out.telemetry.effective_target_bar), 9.0);
        assert!(!out.telemetry.flow_controlled);
        bar += want * 0.002;
    }
}

#[test]
fn tighter_ceiling_governs_the_pump() {
    let mut control: ControlLoop = ControlLoop::new(ControlSettings::default());
    let mut signals: Signals = Signals::new();
    PumpMode::Pressure { bar: s(9.0), flow_limit_ml_s: s(2.0) }.apply(&mut signals);
    // At the flow ceiling and far from the pressure one.
    let out: TickOutput = control.tick(&input(None, 1.0, 92.0, 2.0, 0), &mut signals);
    assert!(out.telemetry.flow_controlled);
    assert_eq!(f(out.telemetry.pump_duty), 0.0);
    // At the pressure ceiling and without flow.
    let out: TickOutput = control.tick(&input(None, 9.0, 92.0, 0.0, 20_000), &mut signals);
    assert!(!out.telemetry.flow_controlled);
    assert_eq!(f(out.telemetry.pump_duty), 0.0);
}

#[test]
fn flow_limit_alone_runs_the_flow_controller() {
    let mut control: ControlLoop = ControlLoop::new(ControlSettings::default());
    let mut signals: Signals = Signals::new();
    PumpMode::Pressure { bar: s(0.0), flow_limit_ml_s: s(3.0) }.apply(&mut signals);
    let out: TickOutput = control.tick(&input(None, 12.0, 92.0, 1.0, 0), &mut signals);
    let mut reference: Pid = Pid { kp: 4.0, ki: 30.0, kd: 0.0, i_term: 0.0, prev: 0.0, last: None };
    assert_eq!(out.telemetry.pump_duty.to_bits(), reference.update(3.0, 1.0, 0).to_bits());
    assert!(out.telemetry.flow_controlled);
    assert_eq!(f(out.telemetry.target_bar), 0.0);
    assert_eq!(f(out.telemetry.effective_target_bar), 0.0);
}

#[test]
fn feed_forward_raises_the_setpoint_of_a_brew_only() {
    let mut control: ControlLoop = ControlLoop::new(ControlSettings::default());
    let mut signals: Signals = Signals::new();
    set_target_temp(&mut signals, None, s(92.0), TargetTempMode::Brew);
    let out: TickOutput = control.tick(&input(None, 9.0, 100.0, 2.0, 0), &mut signals);
    assert_eq!(f(out.telemetry.target_temp), 102.0);
    assert_eq!(f(out.telemetry.effective_target_temp), 102.0);
    signals.brew_active = Some(true);
    let out: TickOutput = control.tick(&input(None, 9.0, 100.0, 2.0, 20_000), &mut signals);
    let gain: f32 = 0.021 * (100.0f32 / 100.0) * (102.0 - 20.0);
    assert_eq!(f(out.telemetry.effective_target_temp), 102.0 + 2.0 * gain);
    // At most 20 degrees.
    let out: TickOutput = control.tick(&input(None, 9.0, 100.0, 50.0, 40_000), &mut signals);
    assert_eq!(f(out.telemetry.effective_target_temp), 122.0);
    signals.brew_active = Some(false);
    let out: TickOutput = control.tick(&input(None, 9.0, 100.0, 2.0, 60_000), &mut signals);
    assert_eq!(f(out.telemetry.effective_target_temp), 102.0);
}

#[test]
fn guards_signal_and_release() {
    let mut out: Outputs = Outputs::new(Signals::new(), false);
    let valve: SolenoidGuard = SolenoidGuard::open(&mut out);
    assert!(out.valve_open);
    let mut pump: PumpGuard = PumpGuard::engage(&mut out, PumpMode::Idle);
    pump.set_mode(&mut out, PumpMode::DirectPump(s(80.0)));
    assert_eq!(out.signals.pump_mode, Some(PumpMode::DirectPump(s(80.0))));
    pump.release(&mut out);
    assert_eq!(out.signals.pump_mode, Some(PumpMode::Idle));
    assert_eq!(out.signals.brew_active, None);
    let brew: BrewActiveGuard = BrewActiveGuard::engage(&mut out);
    assert_eq!(out.signals.brew_active, Some(true));
    brew.release(&mut out);
    assert_eq!(out.signals.brew_active, Some(false));
    assert!(out.valve_open);
    valve.release(&mut out);
    assert!(!out.valve_open);
}

#[test]
fn target_modes_give_their_setpoints() {
    let mut signals: Signals = Signals::new();
    let mut settings: ControlSettings = ControlSettings::default();
    settings.machine.temp_offset = s(7.5);
    set_target_temp(&mut signals, Some(settings), s(93.0), TargetTempMode::Brew);
    assert_eq!(f(signals.target_temp.unwrap()), 100.5);
    set_target_temp(&mut signals, Some(settings), s(93.0), TargetTempMode::Steam);
    assert_eq!(f(signals.target_temp.unwrap()), 135.0);
    set_target_temp(&mut signals, Some(settings), s(93.0), TargetTempMode::Off);
    assert_eq!(f(signals.target_temp.unwrap()), 0.0);
}

#[test]
fn rate_window_averages_the_last_four() {
    let mut cells: FlowCells = FlowCells::new();
    let mut window: RateWindow = RateWindow::new();
    assert!(window.rate(s(100.0)).is_none());
    window.push(10);
    assert_eq!(f(window.rate(s(100.0)).unwrap()), 10.0);
    for t in [20u32, 30, 40, 50, 60] {
        window.push(t);
    }
    // 30 + 40 + 50 + 60.
    assert_eq!(f(window.rate(s(90.0)).unwrap()), 90.0 * 4.0 / 180.0);
    window.push_and_publish(70, s(110.0), &mut cells);
    assert_eq!(f(flow_rate_ml_s(&cells)), 110.0 * 4.0 / 220.0);
    window.stop(&mut cells);
    assert_eq!(f(flow_rate_ml_s(&cells)), 0.0);
    assert!(window.rate(s(100.0)).is_none());
}

#[test]
fn flow_meter_counts_rate_and_volume() {
    let machine = Settings::default().machine;
    let mut meter: FlowMeter = FlowMeter::new(&machine);
    let mut cells: FlowCells = FlowCells::new();
    let ml: f32 = 1000.0 / 98324.0;
    let numerator: f32 = (150_000_000.0f32 / 2.0) * ml;
    meter.on_pulses(&[100_000, 120_000], &mut cells);
    assert_eq!(f(flow_rate_ml_s(&cells)), numerator * 2.0 / 220_004.0);
    assert_eq!(f(shot_volume_ml(&cells)), ml * 2.0);
    meter.on_pulses(&[100_000], &mut cells);
    assert_eq!(f(shot_volume_ml(&cells)), ml * 2.0 + ml * 1.0);
    let before: f32 = f(shot_volume_ml(&cells));
    meter.on_stop(&mut cells);
    assert_eq!(f(flow_rate_ml_s(&cells)), 0.0);
    assert_eq!(f(shot_volume_ml(&cells)), before);
    reset_volume(&mut cells);
    assert_eq!(f(shot_volume_ml(&cells)), 0.0);
    assert!(cells.reset);
}

#[test]
fn bursts_add_up_to_the_same_volume() {
    let machine = Settings::default().machine;
    let mut single: FlowMeter = FlowMeter::new(&machine);
    let mut burst: FlowMeter = FlowMeter::new(&machine);
    let (mut a, mut b) = (FlowCells::new(), FlowCells::new());
    for _ in 0..500u32 {
        for _ in 0..8u32 {
            single.on_pulses(&[90_000], &mut a);
        }
        burst.on_pulses(&[90_000; 8], &mut b);
        burst.on_stop(&mut b);
    }
    let exact: f32 = 4000.0 * 1000.0 / 98324.0;
    assert!((f(shot_volume_ml(&a)) - exact).abs() < 0.01);
    assert!((f(shot_volume_ml(&b)) - exact).abs() < 0.01);
}

#[test]
fn flow_meter_falls_back_to_the_default_pulse_rate() {
    let mut machine = Settings::default().machine;
    machine.flow_pulses_per_liter = s(0.0);
    let mut meter: FlowMeter = FlowMeter::new(&machine);
    let mut cells: FlowCells = FlowCells::new();
    meter.on_pulses(&[50_000], &mut cells);
    assert_eq!(f(shot_volume_ml(&cells)), 1000.0 / 98324.0);
    machine.flow_pulses_per_liter = s(2000.0);
    let mut coarse: FlowMeter = FlowMeter::new(&machine);
    coarse.on_pulses(&[50_000], &mut cells);
    assert_eq!(f(shot_volume_ml(&cells)), 1000.0 / 98324.0 + 0.5);
}

#[test]
fn adc_average_discards_the_leading_samples() {
    let samples: [Option<u16>; 10] = [
        Some(4000), Some(4000), Some(4000), Some(4000), Some(4000),
        Some(10), Some(11), None, Some(13), Some(15),
    ];
    assert_eq!(samples.len(), SAMPLES);
    assert_eq!(f(sample_avg(&samples, KEPT_SAMPLES)), 49.0 / 5.0);
}

#[test]
fn adc_filter_starts_at_the_first_reading() {
    let mut filter: AdcFilter = AdcFilter::new();
    let (p, t) = filter.update(s(1000.0), s(2000.0));
    assert_eq!((f(p), f(t)), (1000.0, 2000.0));
    let (p, t) = filter.update(s(1100.0), s(2100.0));
    assert_eq!(f(p), 1000.0f32 + 0.01 * 100.0);
    assert_eq!(f(t), 2000.0f32 + 0.2 * 100.0);
}
