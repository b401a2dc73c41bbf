//! Flow meter: turns the half-periods of the sensor's pulses into a flow rate
//! and a shot volume.

use crate::board::SYS_CLK_HZ;
use crate::settings::{MachineSettings, Settings};
use crate::single::Single;
use vstd::arithmetic::power2::*;
use vstd::prelude::*;

verus! {

/// Half-period samples averaged for the rate.
pub const RATE_EDGES: usize = 4;

/// Counts to add to each PIO half-period to account for the cycles the state
/// machine spends outside its counting loops: 4 counts per pulse, split evenly
/// so `(n_high + 2) + (n_low + 2)` is exactly the true pulse period.
pub const PIO_TICK_OFFSET: u32 = 2;

/// Cycles the state machine spends per count.
pub const CYCLES_PER_LOOP: u32 = 2;

/// What the flow meter shares with the rest of the machine.
#[derive(Clone, Copy, Debug)]
pub struct FlowCells {
    /// Accumulated shot volume in ml.
    pub volume_ml: Single,
    /// Flow rate in ml/s, republished on every accepted edge.
    pub rate_ml_s: Single,
    /// A reset the flow task has not noticed yet.
    pub reset: bool,
}

impl FlowCells {
    pub fn new() -> (r: FlowCells)
        ensures
            r == (FlowCells { volume_ml: Single::whole(0), rate_ml_s: Single::whole(0), reset: false }),
    {
        FlowCells {
            volume_ml: Single::from_u32(0),
            rate_ml_s: Single::from_u32(0),
            reset: false,
        }
    }
}

/// Volume accumulated since the last [`reset_volume`], in ml.
pub fn shot_volume_ml(cells: &FlowCells) -> (r: Single)
    ensures
        r == cells.volume_ml,
{
    cells.volume_ml
}

/// The current flow rate in ml/s.
pub fn flow_rate_ml_s(cells: &FlowCells) -> (r: Single)
    ensures
        r == cells.rate_ml_s,
{
    cells.rate_ml_s
}

/// Zeroes the accumulated volume, synchronously, and asks the flow task to drop
/// its window.
pub fn reset_volume(cells: &mut FlowCells)
    ensures
        *final(cells) == (FlowCells { volume_ml: Single::whole(0), reset: true, ..*old(cells) }),
{
    cells.volume_ml = Single::from_u32(0);
    cells.reset = true;
}

/// The last few half-period measurements, averaged to give the flow rate.
pub struct RateWindow {
    ticks: [u32; 4],
    head: usize,
    len: usize,
}

/// The most recent samples of a longer run, oldest first.
pub open spec fn latest(samples: Seq<u32>) -> Seq<u32> {
    if samples.len() <= RATE_EDGES {
        samples
    } else {
        samples.skip(samples.len() - RATE_EDGES)
    }
}

/// Total duration of some samples.
pub open spec fn total(samples: Seq<u32>) -> int
    decreases samples.len(),
{
    if samples.len() == 0 {
        0
    } else {
        samples[0] + total(samples.skip(1))
    }
}

/// Flow for a window of samples, `numerator` being the flow at one count per
/// sample; nothing for a window without duration.
pub open spec fn window_rate(samples: Seq<u32>, numerator: Single) -> Option<Single> {
    if total(samples) > 0 {
        Some(
            numerator.times(Single::whole(samples.len() as int)).over(
                Single::whole(total(samples)),
            ),
        )
    } else {
        None
    }
}

impl View for RateWindow {
    type V = Seq<u32>;

    /// The samples held, oldest first.
    closed spec fn view(&self) -> Seq<u32> {
        if self.len < 4 {
            self.ticks@.take(self.len as int)
        } else {
            self.ticks@.skip(self.head as int) + self.ticks@.take(self.head as int)
        }
    }
}

impl RateWindow {
    /// A partial window always occupies the start of the array, a full one the
    /// whole of it with the oldest sample at `head`.
    pub closed spec fn wf(&self) -> bool {
        &&& self.head < 4
        &&& self.len <= 4
        &&& self.len < 4 ==> self.head == self.len
    }

    pub fn new() -> (r: RateWindow)
        ensures
            r.wf(),
            r@ == Seq::<u32>::empty(),
    {
        RateWindow { ticks: [0, 0, 0, 0], head: 0, len: 0 }
    }

    /// The pump really stopped — drop the window *and* report zero.
    pub fn stop(&mut self, cells: &mut FlowCells)
        ensures
            final(self).wf(),
            final(self)@ == Seq::<u32>::empty(),
            *final(cells) == (FlowCells { rate_ml_s: Single::whole(0), ..*old(cells) }),
    {
        self.head = 0;
        self.len = 0;
        cells.rate_ml_s = Single::from_u32(0);
    }

    pub fn push(&mut self, ticks: u32)
        requires
            old(self).wf(),
        ensures
            final(self).wf(),
            final(self)@ == latest(old(self)@.push(ticks)),
            final(self)@.len() <= RATE_EDGES,
    {
        let ghost before = self@;
        self.ticks[self.head] = ticks;
        self.head = (self.head + 1) % RATE_EDGES;
        if self.len < RATE_EDGES {
            self.len = self.len + 1;
        }
        assert(self@ =~= latest(before.push(ticks)));
    }

    /// `None` only when the window has no duration: a pushed sample is never 0.
    pub fn rate(&self, flow_numerator: Single) -> (r: Option<Single>)
        requires
            self.wf(),
        ensures
            r == window_rate(self@, flow_numerator),
    {
        let mut sum: u64 = 0;
        let mut i: usize = 0;
        while i < self.len
            invariant
                self.wf(),
                i <= self.len,
                sum == total(self.ticks@.take(i as int)),
                sum <= i * 0xFFFF_FFFF,
            decreases self.len - i,
        {
            proof {
                lemma_total_push(self.ticks@.take(i as int), self.ticks@[i as int]);
                assert(self.ticks@.take(i as int).push(self.ticks@[i as int]) =~= self.ticks@.take(
                    i + 1,
                ));
            }
            sum = sum + self.ticks[i] as u64;
            i = i + 1;
        }
        proof {
            if self.len == 4 {
                let (a, b) = (self.ticks@.take(self.head as int), self.ticks@.skip(
                    self.head as int,
                ));
                lemma_total_concat(a, b);
                lemma_total_concat(b, a);
                assert(a + b =~= self.ticks@.take(4));
            }
        }
        if sum > 0 {
            Some(
                flow_numerator.mul(Single::from_u64(self.len as u64)).div(Single::from_u64(sum)),
            )
        } else {
            None
        }
    }

    pub fn push_and_publish(&mut self, ticks: u32, flow_numerator: Single, cells: &mut FlowCells)
        requires
            old(self).wf(),
        ensures
            final(self).wf(),
            final(self)@ == latest(old(self)@.push(ticks)),
            final(self)@.len() <= RATE_EDGES,
            *final(cells) == (match window_rate(latest(old(self)@.push(ticks)), flow_numerator) {
                Some(rate) => FlowCells { rate_ml_s: rate, ..*old(cells) },
                None => *old(cells),
            }),
    {
        self.push(ticks);
        if let Some(rate) = self.rate(flow_numerator) {
            cells.rate_ml_s = rate;
        }
    }
}

proof fn lemma_total_concat(a: Seq<u32>, b: Seq<u32>)
    ensures
        total(a + b) == total(a) + total(b),
    decreases a.len(),
{
    if a.len() == 0 {
        assert(a + b =~= b);
    } else {
        assert((a + b).skip(1) =~= a.skip(1) + b);
        lemma_total_concat(a.skip(1), b);
    }
}

proof fn lemma_total_push(a: Seq<u32>, x: u32)
    ensures
        total(a.push(x)) == total(a) + x,
{
    assert(a.push(x) =~= a + seq![x]);
    lemma_total_concat(a, seq![x]);
    reveal_with_fuel(total, 2);
}

/// The flow task's conversion factors and window.
pub struct FlowMeter {
    ml_per_pulse: Single,
    flow_numerator: Single,
    window: RateWindow,
}

/// What a [`FlowMeter`] holds.
#[verifier::ext_equal]
pub struct FlowModel {
    pub ml_per_pulse: Single,
    pub flow_numerator: Single,
    pub window: Seq<u32>,
}

impl View for FlowMeter {
    type V = FlowModel;

    closed spec fn view(&self) -> FlowModel {
        FlowModel {
            ml_per_pulse: self.ml_per_pulse,
            flow_numerator: self.flow_numerator,
            window: self.window@,
        }
    }
}

/// The configured pulse rate, or the default where none is configured.
pub open spec fn pulses_per_liter(machine: MachineSettings) -> Single {
    if machine.flow_pulses_per_liter.positive() {
        machine.flow_pulses_per_liter
    } else {
        crate::settings::SettingsModel::defaults().machine.flow_pulses_per_liter
    }
}

impl FlowModel {
    pub open spec fn boot(machine: MachineSettings) -> FlowModel {
        let ml_per_pulse = Single::whole(1000).over(pulses_per_liter(machine));
        FlowModel {
            ml_per_pulse,
            flow_numerator: Single::whole(SYS_CLK_HZ as int).over(
                Single::whole(CYCLES_PER_LOOP as int),
            ).times(ml_per_pulse),
            window: Seq::empty(),
        }
    }

    /// The window once some counts have come in.
    pub open spec fn with_counts(self, counts: Seq<u32>) -> FlowModel {
        FlowModel {
            window: latest(self.window + counts.map_values(|c: u32| (c + PIO_TICK_OFFSET) as u32)),
            ..self
        }
    }

    /// The volume once `pulses` more have come in.
    pub open spec fn poured(self, volume_ml: Single, pulses: int) -> Single {
        volume_ml.plus(self.ml_per_pulse.times(Single::whole(pulses)))
    }
}

impl FlowMeter {
    pub closed spec fn wf(&self) -> bool {
        self.window.wf() && self.window@.len() <= 4
    }

    pub fn new(machine: &MachineSettings) -> (r: FlowMeter)
        ensures
            r.wf(),
            r@ == FlowModel::boot(*machine),
    {
        let pulses_per_liter: Single = if machine.flow_pulses_per_liter.is_positive() {
            machine.flow_pulses_per_liter
        } else {
            // Fallback if the flash value is 0.
            Settings::default().machine.flow_pulses_per_liter
        };
        let ml_per_pulse: Single = Single::from_u32(1000).div(pulses_per_liter);
        let flow_numerator: Single = Single::from_u32(SYS_CLK_HZ).div(
            Single::from_u32(CYCLES_PER_LOOP),
        ).mul(ml_per_pulse);
        FlowMeter { ml_per_pulse, flow_numerator, window: RateWindow::new() }
    }

    /// Takes in the counts that piled up in the FIFO, oldest first.
    pub fn on_pulses(&mut self, counts: &[u32], cells: &mut FlowCells)
        requires
            old(self).wf(),
            0 < counts@.len() <= u32::MAX,
            forall|i: int| 0 <= i < counts@.len() ==> counts@[i] + PIO_TICK_OFFSET <= u32::MAX,
        ensures
            final(self).wf(),
            final(self)@ == old(self)@.with_counts(counts@),
            final(cells).reset == old(cells).reset,
            final(cells).volume_ml == old(self)@.poured(
                old(cells).volume_ml,
                counts@.len() as int,
            ),
            Some(final(cells).rate_ml_s) == window_rate(
                final(self)@.window,
                old(self)@.flow_numerator,
            ),
    {
        let mut pulses: u32 = 0;
        proof {
            assert(self@.window + counts@.take(0).map_values(
                |c: u32| (c + PIO_TICK_OFFSET) as u32,
            ) =~= self@.window);
        }
        while (pulses as usize) < counts.len()
            invariant
                counts@.len() <= u32::MAX,
                forall|i: int| 0 <= i < counts@.len() ==> counts@[i] + PIO_TICK_OFFSET <= u32::MAX,
                pulses <= counts@.len(),
                self.wf(),
                old(self).wf(),
                self@ == old(self)@.with_counts(counts@.take(pulses as int)),
                cells.reset == old(cells).reset,
                cells.volume_ml == old(cells).volume_ml,
                pulses > 0 ==> Some(cells.rate_ml_s) == window_rate(
                    self@.window,
                    old(self)@.flow_numerator,
                ),
            decreases counts@.len() - pulses,
        {
            let ticks: u32 = counts[pulses as usize] + PIO_TICK_OFFSET;
            let ghost before = self@.window;
            self.window.push_and_publish(ticks, self.flow_numerator, cells);
            proof {
                let f = |c: u32| (c + PIO_TICK_OFFSET) as u32;
                let taken = counts@.take(pulses as int).map_values(f);
                assert(counts@.take(pulses + 1).map_values(f) =~= taken.push(ticks));
                let all = old(self)@.window + taken;
                assert(old(self)@.window + taken.push(ticks) =~= all.push(ticks));
                assert(latest(latest(all).push(ticks)) =~= latest(all.push(ticks)));
                let w = self@.window;
                assert(w.len() > 0 && w.last() == ticks);
                lemma_total_push(w.drop_last(), ticks);
                lemma_total_nonneg(w.drop_last());
                assert(w.drop_last().push(ticks) =~= w);
            }
            pulses = pulses + 1;
        }
        assert(counts@.take(counts@.len() as int) =~= counts@);
        let added: Single = self.ml_per_pulse.mul(Single::from_u32(pulses));
        cells.volume_ml = cells.volume_ml.add(added);
    }

    /// No pulse for a while, or the volume was reset: report zero and drop the
    /// window.
    pub fn on_stop(&mut self, cells: &mut FlowCells)
        ensures
            final(self).wf(),
            final(self)@ == (FlowModel { window: Seq::empty(), ..old(self)@ }),
            *final(cells) == (FlowCells {
                rate_ml_s: Single::whole(0),
                reset: false,
                ..*old(cells)
            }),
    {
        cells.reset = false;
        self.window.stop(cells);
    }
}

proof fn lemma_total_nonneg(a: Seq<u32>)
    ensures
        total(a) >= 0,
    decreases a.len(),
{
    if a.len() > 0 {
        lemma_total_nonneg(a.skip(1));
    }
}

/// Four samples replace whatever the window held: an old flow does not linger.
pub proof fn law_window_forgets(window: Seq<u32>, samples: Seq<u32>)
    requires
        samples.len() >= RATE_EDGES,
    ensures
        latest(window + samples) == latest(samples),
{
    assert(latest(window + samples) =~= latest(samples));
}

/// Pulses never take away from the volume.
pub proof fn law_volume_does_not_shrink(machine: MachineSettings, volume_ml: Single, pulses: u32)
    requires
        volume_ml.finite(),
        pulses > 0,
    ensures
        volume_ml.at_most(FlowModel::boot(machine).poured(volume_ml, pulses as int)),
{
    let ppl = pulses_per_liter(machine);
    Single::lemma_whole_positive(98324);
    Single::lemma_whole_positive(1000);
    Single::lemma_whole_positive(pulses as int);
    let ml = Single::whole(1000).over(ppl);
    Single::whole(1000).lemma_over_positive(ppl);
    ml.lemma_times_positive(Single::whole(pulses as int));
    volume_ml.lemma_plus_at_least(ml.times(Single::whole(pulses as int)));
}

/// Pulses of some bursts together.
pub open spec fn words_in(bursts: Seq<u32>) -> int
    decreases bursts.len(),
{
    if bursts.len() == 0 {
        0
    } else {
        words_in(bursts.drop_last()) + bursts.last()
    }
}

impl FlowModel {
    /// The volume since a reset, once some bursts of pulses have come in.
    pub open spec fn volume_after(self, bursts: Seq<u32>) -> Single
        decreases bursts.len(),
    {
        if bursts.len() == 0 {
            Single::whole(0)
        } else {
            self.poured(self.volume_after(bursts.drop_last()), bursts.last() as int)
        }
    }
}

/// The factors a meter converts with change neither as pulses come in nor when
/// they stop, so the volume of several bursts is that of one after the other.
pub proof fn law_volume_of_bursts_adds_up(meter: FlowModel, counts: Seq<u32>, bursts: Seq<u32>)
    ensures
        meter.with_counts(counts).volume_after(bursts) == meter.volume_after(bursts),
        (FlowModel { window: Seq::empty(), ..meter }).volume_after(bursts) == meter.volume_after(
            bursts,
        ),
        bursts.len() > 0 ==> meter.volume_after(bursts) == meter.poured(
            meter.volume_after(bursts.drop_last()),
            bursts.last() as int,
        ),
    decreases bursts.len(),
{
    if bursts.len() > 0 {
        law_volume_of_bursts_adds_up(meter, counts, bursts.drop_last());
    }
}

/// Every pulse counts once, however many came in at once: up to a volume of
/// half of `2^e` ml, the volume differs from that of all the pulses together by
/// at most `2^(e - 23)` ml for each burst, which is what rounding does.
pub proof fn law_volume_counts_every_pulse(meter: FlowModel, bursts: Seq<u32>, e: int)
    requires
        -60 <= e <= 60,
        meter.ml_per_pulse.finite(),
        meter.ml_per_pulse.value() >= 0,
        words_in(bursts) < 0x100_0000,
        words_in(bursts) * meter.ml_per_pulse.value() <= pow2((148 + e) as nat),
        bursts.len() <= 0x40_0000,
    ensures
        ({
            let volume = meter.volume_after(bursts);
            let poured = words_in(bursts) * meter.ml_per_pulse.value();
            let slack = bursts.len() * pow2((126 + e) as nat);
            &&& volume.finite()
            &&& volume.value() >= 0
            &&& volume.value() - poured <= slack
            &&& poured - volume.value() <= slack
        }),
    decreases bursts.len(),
{
    let ml = meter.ml_per_pulse.value();
    let g = pow2((126 + e) as nat) as int;
    lemma_pow2_pos((126 + e) as nat);
    if bursts.len() == 0 {
        Single::lemma_whole_exact(0);
        assert(0 * ml == 0 && 0 * g == 0 && 0 * pow2(149) == 0);
    } else {
        let (rest, n) = (bursts.drop_last(), bursts.last() as int);
        let (k, len) = (words_in(rest), rest.len() as int);
        lemma_words_nonneg(rest);
        assert(k * ml + n * ml == (k + n) * ml && k * ml >= 0 && n * ml >= 0 && ml * n == n * ml)
            by (nonlinear_arith)
            requires
                k >= 0,
                n >= 0,
                ml >= 0,
        ;
        law_volume_counts_every_pulse(meter, rest, e);
        let volume = meter.volume_after(rest);
        assert((len + 1) * g == len * g + g) by (nonlinear_arith);
        lemma_pow2_adds(22, (126 + e) as nat);
        lemma2_to64();
        assert((len + 1) * g <= 0x40_0000 * g) by (nonlinear_arith)
            requires
                len + 1 <= 0x40_0000,
                g > 0,
        ;
        lemma_pow2_unfold((149 + e) as nat);
        assert(0x40_0000 * g == pow2((148 + e) as nat));
        assert(volume.value() <= k * ml + len * g);
        lemma_burst(meter, volume, n, e);
    }
}

proof fn lemma_words_nonneg(bursts: Seq<u32>)
    ensures
        words_in(bursts) >= 0,
    decreases bursts.len(),
{
    if bursts.len() > 0 {
        lemma_words_nonneg(bursts.drop_last());
    }
}

/// One burst adds its pulses' volume, up to two roundings.
proof fn lemma_burst(meter: FlowModel, volume: Single, n: int, e: int)
    requires
        -60 <= e <= 60,
        meter.ml_per_pulse.finite(),
        meter.ml_per_pulse.value() >= 0,
        0 <= n < 0x100_0000,
        volume.finite(),
        volume.value() >= 0,
        n * meter.ml_per_pulse.value() <= pow2((148 + e) as nat),
        volume.value() + n * meter.ml_per_pulse.value() + pow2((126 + e) as nat) <= pow2(
            (149 + e) as nat,
        ),
    ensures
        ({
            let after = meter.poured(volume, n);
            let exact = volume.value() + n * meter.ml_per_pulse.value();
            &&& after.finite()
            &&& after.value() >= 0
            &&& after.value() - exact <= pow2((126 + e) as nat)
            &&& exact - after.value() <= pow2((126 + e) as nat)
        }),
{
    let ml = meter.ml_per_pulse;
    let w = Single::whole(n);
    let (m, p) = (ml.value(), pow2(149) as int);
    let (g, h) = (pow2((126 + e) as nat) as int, pow2((149 + e) as nat) as int);
    lemma_pow2_pos(149);
    lemma_pow2_pos((126 + e) as nat);
    lemma_pow2_unfold((149 + e) as nat);
    Single::lemma_whole_exact(n);
    ml.lemma_times_value(w);
    let product = ml.times(w);
    let num = m * (n * p);
    assert(num == (n * m) * p && num >= 0 && num <= p * h) by (nonlinear_arith)
        requires
            num == m * (n * p),
            m >= 0,
            n >= 0,
            p > 0,
            n * m <= h,
    ;
    crate::rounding::lemma_rounding_error_below(num, p, e);
    let u = crate::rounding::units(crate::rounding::nearest(num, p));
    crate::rounding::lemma_units_nonneg(crate::rounding::nearest(num, p));
    assert(product.value() == u);
    assert(2 * (u - n * m) <= g && 2 * (n * m - u) <= g) by (nonlinear_arith)
        requires
            2 * (p * u - num) <= p * g,
            2 * (num - p * u) <= p * g,
            num == (n * m) * p,
            p > 0,
    ;
    product.lemma_finite_below(num, p);
    volume.lemma_plus_value(product);
    let sum = volume.value() + product.value();
    assert(1 * h == h);
    crate::rounding::lemma_rounding_error_below(sum, 1, e);
    let v = crate::rounding::units(crate::rounding::nearest(sum, 1));
    crate::rounding::lemma_units_nonneg(crate::rounding::nearest(sum, 1));
    assert(1 * v == v && 1 * g == g);
    meter.poured(volume, n).lemma_finite_below(sum, 1);
}

/// The volume of a pulse is the thousandth part of a liter's pulses, up to
/// rounding: `1000 / c` ml for a pulse rate of `c`, where that is at most `2^e`
/// ml, with an error of at most `2^(e - 24)` ml. Stated on products: `c` times
/// the volume against 1000.
pub proof fn law_pulse_volume(machine: MachineSettings, e: int)
    requires
        -60 <= e <= 60,
        pulses_per_liter(machine).finite(),
        1000 * pow2(149) * pow2(149) <= pulses_per_liter(machine).value() * pow2(
            (149 + e) as nat,
        ),
    ensures
        ({
            let c = pulses_per_liter(machine).value();
            let ml = FlowModel::boot(machine).ml_per_pulse;
            let exact = 1000 * pow2(149) * pow2(149);
            &&& ml.finite()
            &&& ml.value() >= 0
            &&& 2 * (c * ml.value() - exact) <= c * pow2((126 + e) as nat)
            &&& 2 * (exact - c * ml.value()) <= c * pow2((126 + e) as nat)
        }),
{
    let c = pulses_per_liter(machine);
    Single::lemma_whole_positive(98324);
    Single::lemma_whole_exact(1000);
    lemma_pow2_pos(149);
    let p = pow2(149) as int;
    let thousand = Single::whole(1000);
    thousand.lemma_over_value(c);
    assert((1000 * p) * p >= 0) by (nonlinear_arith)
        requires
            p > 0,
    ;
    crate::rounding::lemma_rounding_error_below((1000 * p) * p, c.value(), e);
    crate::rounding::lemma_units_nonneg(
        crate::rounding::nearest((1000 * p) * p, c.value()),
    );
    thousand.over(c).lemma_finite_below((1000 * p) * p, c.value());
}

/// The volume of all pulses since a reset is 1000 ml for every `c` of them, `c`
/// being the pulse rate, up to rounding: singly or in bursts, each pulse counts
/// once. For up to a quarter of `2^e` ml, and pulses of up to `2^d` ml, the
/// volume is off by at most `2^(e - 23)` ml for each burst and `2^(d - 24)` ml
/// for each pulse. Stated on products: `c` times the volume against 1000 times
/// the number of pulses.
pub proof fn law_volume_is_that_of_all_pulses(
    machine: MachineSettings,
    bursts: Seq<u32>,
    e: int,
    d: int,
)
    requires
        -58 <= e <= 60,
        -60 <= d <= e - 2,
        bursts.len() <= 0x40_0000,
        words_in(bursts) < 0x100_0000,
        pulses_per_liter(machine).finite(),
        1000 * pow2(149) * pow2(149) <= pulses_per_liter(machine).value() * pow2(
            (149 + d) as nat,
        ),
        words_in(bursts) * (1000 * pow2(149) * pow2(149)) <= pulses_per_liter(machine).value()
            * pow2((147 + e) as nat),
    ensures
        ({
            let c = pulses_per_liter(machine).value();
            let volume = FlowModel::boot(machine).volume_after(bursts);
            let exact = words_in(bursts) * (1000 * pow2(149) * pow2(149));
            let slack = c * (2 * (bursts.len() * pow2((126 + e) as nat)) + words_in(bursts) * pow2(
                (126 + d) as nat,
            ));
            &&& volume.finite()
            &&& volume.value() >= 0
            &&& 2 * (c * volume.value() - exact) <= slack
            &&& 2 * (exact - c * volume.value()) <= slack
        }),
{
    let meter = FlowModel::boot(machine);
    let (c, k) = (pulses_per_liter(machine).value(), words_in(bursts));
    Single::lemma_whole_positive(98324);
    lemma_words_nonneg(bursts);
    law_pulse_volume(machine, d);
    let ml = meter.ml_per_pulse.value();
    let unit = 1000 * pow2(149) * pow2(149);
    let (g, h) = (pow2((126 + e) as nat) as int, pow2((126 + d) as nat) as int);
    let (quarter, half) = (pow2((147 + e) as nat) as int, pow2((148 + e) as nat) as int);
    lemma_pow2_unfold((148 + e) as nat);
    lemma_small_step(e, d);
    // The pulses' volume fits: the exact one takes a quarter, its error the
    // other.
    assert(k * ml <= half) by {
        assert(2 * (c * (k * ml)) <= 2 * (k * unit) + k * (c * h)) by (nonlinear_arith)
            requires
                2 * (c * ml - unit) <= c * h,
                k >= 0,
        ;
        assert(k * (c * h) <= c * (2 * quarter)) by (nonlinear_arith)
            requires
                0 <= k < 0x100_0000,
                0x100_0000 * h <= 2 * quarter,
                c > 0,
                h > 0,
        ;
        assert(k * ml <= half) by (nonlinear_arith)
            requires
                2 * (c * (k * ml)) <= 2 * (k * unit) + k * (c * h),
                k * unit <= c * quarter,
                k * (c * h) <= c * (2 * quarter),
                half == 2 * quarter,
                c > 0,
        ;
    }
    law_volume_counts_every_pulse(meter, bursts, e);
    let v = meter.volume_after(bursts).value();
    let n = bursts.len() * g;
    assert(2 * (c * v - k * unit) <= c * (2 * n + k * h) && 2 * (k * unit - c * v) <= c * (2 * n
        + k * h)) by (nonlinear_arith)
        requires
            v - k * ml <= n,
            k * ml - v <= n,
            2 * (c * ml - unit) <= c * h,
            2 * (unit - c * ml) <= c * h,
            c > 0,
            k >= 0,
    ;
}

proof fn lemma_small_step(e: int, d: int)
    requires
        -58 <= e <= 60,
        -60 <= d <= e - 2,
    ensures
        0x100_0000 * pow2((126 + d) as nat) <= 2 * pow2((147 + e) as nat),
        pow2((126 + d) as nat) > 0,
        pow2((147 + e) as nat) > 0,
{
    lemma2_to64();
    lemma_pow2_pos((126 + d) as nat);
    lemma_pow2_pos((147 + e) as nat);
    lemma_pow2_adds(24, (126 + d) as nat);
    lemma_pow2_unfold((148 + e) as nat);
    if 150 + d < 148 + e {
        lemma_pow2_strictly_increases((150 + d) as nat, (148 + e) as nat);
    }
}

} // verus!
