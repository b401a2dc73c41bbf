# oximite

Firmware logic for retrofitting an espresso machine: pressure and flow
profiling, PID temperature control, volumetric dosing, brew profiles, and the
web and diagnostic interfaces.

`src/` is the verified library. It holds everything the machine decides and
computes, with contracts that Verus proves: the control loop that runs on every
mains cycle, the coordinator's state machine, the operations, the settings and
profile stores, and the wire protocols. It reads no clock and touches no
hardware; time, measurements and bytes come in as values. Arithmetic is
single-precision throughout, done by `single`, whose operations are stated as
exact results rounded to nearest. They agree with the hardware bit for bit, but
for the bits of a not-a-number, which are always the same here.

`tests/` runs the library, with hardware floating point beside it where there is
a formula to compare.

`app/` is the firmware around it for an RP2350B board: PIO programs, tasks,
flash, sockets and JSON. The board supplies three things at link time: the
calibration curves `get_pressure_from_adc` and `get_temp_from_adc`, the radio's
`NVRAM`, and the compressed page `INDEX_HTML_GZ`.
