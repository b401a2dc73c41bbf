use oximite::buttons::{Debouncer, Panel};
use oximite::leds::{temp_color, write_frame, LedPanel, Rgb};
use oximite::single::Single;
use oximite::state::{get_telemetry, MachineCommand, MachineState, Telemetry};

fn s(v: f32) -> Single {
    Single::from_bits(v.to_bits())
}

#[test]
fn press_is_reported_on_the_fifth_sample_and_once() {
    let mut b: Debouncer = Debouncer::new(false, MachineCommand::Brew);
    for _ in 0..4 {
        assert!(b.poll(true).is_none());
    }
    assert!(matches!(b.poll(true), Some(MachineCommand::Brew)));
    for _ in 0..20 {
        assert!(b.poll(true).is_none());
    }
    for _ in 0..5 {
        assert!(b.poll(false).is_none());
    }
    for _ in 0..4 {
        assert!(b.poll(true).is_none());
    }
    assert!(b.poll(true).is_some());
}

#[test]
fn bounce_is_ignored() {
    let mut b: Debouncer = Debouncer::new(false, MachineCommand::Steam);
    for _ in 0..50 {
        assert!(b.poll(true).is_none());
        assert!(b.poll(true).is_none());
        assert!(b.poll(false).is_none());
        assert!(b.poll(false).is_none());
    }
}

#[test]
fn interrupted_press_starts_anew() {
    let mut b: Debouncer = Debouncer::new(false, MachineCommand::Brew);
    for low in [true, true, true, false, true, true, true, true] {
        assert!(b.poll(low).is_none());
    }
    assert!(matches!(b.poll(true), Some(MachineCommand::Brew)));
    // A release is believed in the same way.
    for low in [false, false, false, false, true, false, false, false, false] {
        assert!(b.poll(low).is_none());
    }
    for _ in 0..10 {
        assert!(b.poll(true).is_none());
    }
}

#[test]
fn button_held_at_boot_is_not_a_press() {
    let mut b: Debouncer = Debouncer::new(true, MachineCommand::Flush);
    for _ in 0..10 {
        assert!(b.poll(true).is_none());
    }
}

#[test]
fn panel_reports_in_order() {
    let mut panel: Panel = Panel::new([false; 4]);
    for _ in 0..4 {
        assert!(panel.poll([true; 4]).is_empty());
    }
    let commands: Vec<MachineCommand> = panel.poll([true; 4]);
    assert_eq!(commands.len(), 4);
    assert!(matches!(commands[0], MachineCommand::TogglePower));
    assert!(matches!(commands[1], MachineCommand::Brew));
    assert!(matches!(commands[2], MachineCommand::Steam));
    assert!(matches!(commands[3], MachineCommand::Flush));
    let mut other: Panel = Panel::new([false; 4]);
    for _ in 0..4 {
        other.poll([false, false, true, false]);
    }
    let commands: Vec<MachineCommand> = other.poll([false, false, true, false]);
    assert_eq!(commands.len(), 1);
    assert!(matches!(commands[0], MachineCommand::Steam));
}

#[test]
fn colors_fade_from_blue_over_green_to_red() {
    let color = |v: f32| temp_color(s(v), s(80.0), s(20.0));
    assert_eq!(color(10.0), Rgb::new(0, 0, 255));
    assert_eq!(color(60.0), Rgb::new(0, 0, 255));
    assert_eq!(color(70.0), Rgb::new(0, 127, 127));
    assert_eq!(color(80.0), Rgb::new(0, 255, 0));
    assert_eq!(color(90.0), Rgb::new(127, 127, 0));
    assert_eq!(color(100.0), Rgb::new(255, 0, 0));
    assert_eq!(color(200.0), Rgb::new(255, 0, 0));
}

#[test]
fn frame_words_are_scaled_and_ordered_green_red_blue() {
    let words: [u32; 2] = write_frame([Rgb::new(255, 128, 64), Rgb::off()]);
    // 255 * 30 / 256 = 29, 128 * 30 / 256 = 15, 64 * 30 / 256 = 7.
    assert_eq!(words, [0x0F1D_0700, 0]);
}

#[test]
fn leds_render_the_state() {
    let mut leds: LedPanel = LedPanel::new(0);
    let mut a: Telemetry = get_telemetry(None);
    a.temp_c = s(100.0);
    a.target_temp = s(100.0);
    a.heater_duty = s(40.0);
    a.pump_duty = s(80.0);
    let green: Rgb = Rgb::new(0, 255, 0);
    let magenta: Rgb = Rgb::new(255, 0, 255);
    assert_eq!(leds.render(MachineState::Sleeping, &a, 1), [magenta, magenta]);
    assert_eq!(leds.render(MachineState::Brewing, &a, 2), [green, green]);
    a.pump_duty = s(0.0);
    assert_eq!(leds.render(MachineState::Brewing, &a, 3), [green, Rgb::off()]);
    assert_eq!(leds.render(MachineState::Steaming, &a, 4), [Rgb::off(), green]);
    // 40 * 2.55.
    assert_eq!(leds.render(MachineState::Idle, &a, 5), [green, Rgb::new(102, 0, 0)]);
    // It woke up at 2, so the warmup ends six minutes later.
    assert_eq!(leds.render(MachineState::Idle, &a, 360_000_001)[1], Rgb::new(102, 0, 0));
    assert_eq!(leds.render(MachineState::Idle, &a, 360_000_002)[1], Rgb::off());
}
