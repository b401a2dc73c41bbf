//! Control logic of an espresso machine: pressure and flow profiling, boiler
//! temperature, and the interfaces that steer it.
//!
//! The modules hold what the machine decides and computes. They read no clock,
//! touch no hardware and open no socket: time, measurements and bytes come in
//! as values, and what is to be done goes out as values.
//!
//! * [`single`] and [`rounding`]: single-precision arithmetic, stated exactly.
//! * [`pid`], [`control`]: the controllers and the loop that runs on every
//!   mains cycle.
//! * [`adc`], [`flow_meter`], [`buttons`], [`leds`]: sensors and front panel.
//! * [`state`], [`operations`], [`coordinator`]: commands, what the machine does
//!   with them, and the operations it runs.
//! * [`settings`], [`profiles`], [`bounded`], [`board`]: what is configured, and
//!   how it is kept.
//! * [`web_api`], [`diag`], [`lines`], [`text`], [`uart`], [`dhcp`], [`wifi`]:
//!   the interfaces to the outside.
//! * [`loop_laws`], [`dimmer_laws`], [`brew_laws`], [`flow_laws`],
//!   [`sensor_laws`], [`command_laws`], [`storage_laws`], [`request_laws`],
//!   [`wire_laws`], [`panel_laws`]: what all of that comes down to, from what
//!   goes in to what comes out.

pub mod adc;
pub mod board;
pub mod bounded;
pub mod brew_laws;
pub mod buttons;
pub mod command_laws;
pub mod control;
pub mod coordinator;
pub mod dhcp;
pub mod diag;
pub mod dimmer_laws;
pub mod flow_laws;
pub mod flow_meter;
pub mod leds;
pub mod lines;
pub mod loop_laws;
pub mod operations;
pub mod panel_laws;
pub mod pid;
pub mod profiles;
pub mod request_laws;
pub mod rounding;
pub mod sensor_laws;
pub mod settings;
pub mod single;
pub mod state;
pub mod storage_laws;
pub mod text;
pub mod uart;
pub mod web_api;
pub mod wifi;
pub mod wire_laws;
