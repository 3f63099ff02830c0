//! Sampling: which updates of a sensor a client is told of, and what it is told.

use vstd::prelude::*;
use vstd::utf8::encode_utf8;
use vstd::string::StringExecFns;
use crate::address::SocketAddress;
use crate::address::SocketAddressView;
use crate::float::Float64;
use crate::float::Float64View;
use crate::message::args_view;
use crate::message::copy_bytes;
use crate::message::Message;
use crate::message::MessageType;
use crate::message::MessageView;
use crate::sensor::SensorReading;
use crate::sensor::SensorReadingView;
use crate::text::bytes_eq;
use crate::text::push_char;
use crate::text::str_eq;
use crate::wire::wire;

verus! {

/// A length of time as mathematics sees it.
#[verifier::ext_equal]
pub struct IntervalView {
    pub secs: u64,
    pub nanos: u32,
    pub text: Seq<char>,
}

/// A length of time.
#[derive(Debug, PartialEq, Eq)]
pub struct Interval {
    /// Whole seconds.
    pub secs: u64,
    /// Nanoseconds on top of them.
    pub nanos: u32,
    /// The length in seconds, with six digits behind the point.
    pub text: String,
}

impl View for Interval {
    type V = IntervalView;

    open spec fn view(&self) -> IntervalView {
        IntervalView { secs: self.secs, nanos: self.nanos, text: self.text@ }
    }
}

impl IntervalView {
    /// The length in nanoseconds.
    pub open spec fn in_nanos(self) -> nat {
        (self.secs * 1_000_000_000 + self.nanos) as nat
    }

    /// Whether the length fits into a duration: 64 bits of seconds, and less than a second in
    /// nanoseconds.
    pub open spec fn fits(self) -> bool {
        self.secs + self.nanos / 1_000_000_000 <= u64::MAX
    }
}

impl Clone for Interval {
    fn clone(&self) -> (copy: Interval)
        ensures
            copy@ == self@,
    {
        Interval { secs: self.secs, nanos: self.nanos, text: self.text.clone() }
    }
}

impl Interval {
    /// Whether the length fits into a duration.
    pub fn is_representable(&self) -> (r: bool)
        ensures
            r == self@.fits(),
    {
        self.secs as u128 + (self.nanos / 1_000_000_000) as u128 <= u64::MAX as u128
    }

    /// The length in nanoseconds.
    fn as_nanos(&self) -> (n: u128)
        ensures
            n == self@.in_nanos(),
    {
        self.secs as u128 * 1_000_000_000 + self.nanos as u128
    }
}

/// A parameter of a sampling strategy, read as a floating-point number: the number itself, and the
/// length of time that so many seconds make.
pub struct Parameter {
    pub number: Float64,
    pub interval: Interval,
}

/// A parameter of a sampling strategy as mathematics sees it.
#[verifier::ext_equal]
pub struct ParameterView {
    pub number: Float64View,
    pub interval: IntervalView,
}

impl View for Parameter {
    type V = ParameterView;

    open spec fn view(&self) -> ParameterView {
        ParameterView { number: self.number@, interval: self.interval@ }
    }
}

/// The parameter that an optional parameter holds.
pub open spec fn opt_parameter(p: Option<Parameter>) -> Option<ParameterView> {
    match p {
        Some(x) => Some(x@),
        None => None,
    }
}

/// The parameters that a list of optional parameters holds.
pub open spec fn parameters_view(ps: Seq<Option<Parameter>>) -> Seq<Option<ParameterView>> {
    ps.map_values(|p: Option<Parameter>| opt_parameter(p))
}

/// Sampling strategy types.
#[derive(Debug, PartialEq)]
pub enum SamplingStrategy {
    /// No sampling: sensor updates are not reported.
    NoSampling,
    /// Automatic sampling (server chooses strategy).
    Auto,
    /// Sample at fixed period.
    Period(Interval),
    /// Sample on every change.
    Event,
    /// Sample when value changes by at least the given difference.
    Differential(Float64),
    /// Rate-limited event sampling: shortest and longest time between samples.
    EventRate(Interval, Interval),
    /// Rate-limited differential sampling: difference, shortest and longest time between samples.
    DifferentialRate(Float64, Interval, Interval),
}

/// A sampling strategy as mathematics sees it.
#[verifier::ext_equal]
pub enum StrategyView {
    NoSampling,
    Auto,
    Period(IntervalView),
    Event,
    Differential(Float64View),
    EventRate(IntervalView, IntervalView),
    DifferentialRate(Float64View, IntervalView, IntervalView),
}

impl View for SamplingStrategy {
    type V = StrategyView;

    open spec fn view(&self) -> StrategyView {
        match self {
            SamplingStrategy::NoSampling => StrategyView::NoSampling,
            SamplingStrategy::Auto => StrategyView::Auto,
            SamplingStrategy::Period(p) => StrategyView::Period(p@),
            SamplingStrategy::Event => StrategyView::Event,
            SamplingStrategy::Differential(d) => StrategyView::Differential(d@),
            SamplingStrategy::EventRate(lo, hi) => StrategyView::EventRate(lo@, hi@),
            SamplingStrategy::DifferentialRate(d, lo, hi) => StrategyView::DifferentialRate(
                d@,
                lo@,
                hi@,
            ),
        }
    }
}

/// The parameter at `index`, where there is one and it reads as a number.
pub open spec fn parameter_at(ps: Seq<Option<ParameterView>>, index: int) -> Option<ParameterView> {
    if 0 <= index < ps.len() {
        ps[index]
    } else {
        None
    }
}

/// The strategy that a name and parameters stand for.
pub open spec fn read_strategy(name: Seq<char>, ps: Seq<Option<ParameterView>>) -> Option<
    StrategyView,
> {
    if name == "none"@ {
        Some(StrategyView::NoSampling)
    } else if name == "auto"@ {
        Some(StrategyView::Auto)
    } else if name == "event"@ {
        Some(StrategyView::Event)
    } else if name == "period"@ {
        match parameter_at(ps, 0) {
            Some(p) => Some(StrategyView::Period(p.interval)),
            None => None,
        }
    } else if name == "differential"@ {
        match parameter_at(ps, 0) {
            Some(p) => Some(StrategyView::Differential(p.number)),
            None => None,
        }
    } else if name == "event-rate"@ {
        match (parameter_at(ps, 0), parameter_at(ps, 1)) {
            (Some(lo), Some(hi)) => Some(StrategyView::EventRate(lo.interval, hi.interval)),
            _ => None,
        }
    } else if name == "differential-rate"@ {
        match (parameter_at(ps, 0), parameter_at(ps, 1), parameter_at(ps, 2)) {
            (Some(d), Some(lo), Some(hi)) => Some(
                StrategyView::DifferentialRate(d.number, lo.interval, hi.interval),
            ),
            _ => None,
        }
    } else {
        None
    }
}

impl StrategyView {
    /// The name of the strategy.
    pub open spec fn name(self) -> Seq<char> {
        match self {
            StrategyView::NoSampling => "none"@,
            StrategyView::Auto => "auto"@,
            StrategyView::Period(_) => "period"@,
            StrategyView::Event => "event"@,
            StrategyView::Differential(_) => "differential"@,
            StrategyView::EventRate(_, _) => "event-rate"@,
            StrategyView::DifferentialRate(_, _, _) => "differential-rate"@,
        }
    }

    /// The parameters of the strategy, a space between each two.
    pub open spec fn params(self) -> Seq<char> {
        match self {
            StrategyView::NoSampling | StrategyView::Auto | StrategyView::Event => seq![],
            StrategyView::Period(p) => p.text,
            StrategyView::Differential(d) => d.display,
            StrategyView::EventRate(lo, hi) => lo.text + seq![' '] + hi.text,
            StrategyView::DifferentialRate(d, lo, hi) => d.display + seq![' '] + lo.text + seq![' ']
                + hi.text,
        }
    }

    /// The shortest time between two samples, where the strategy sets one.
    pub open spec fn pause(self) -> Option<IntervalView> {
        match self {
            StrategyView::Period(p) => Some(p),
            StrategyView::EventRate(lo, _) => Some(lo),
            StrategyView::DifferentialRate(_, lo, _) => Some(lo),
            _ => None,
        }
    }

    /// Whether the shortest time between two samples fits into a duration.
    pub open spec fn fits(self) -> bool {
        self.pause() matches Some(p) ==> p.fits()
    }
}

impl Clone for SamplingStrategy {
    fn clone(&self) -> (copy: SamplingStrategy)
        ensures
            copy@ == self@,
    {
        match self {
            SamplingStrategy::NoSampling => SamplingStrategy::NoSampling,
            SamplingStrategy::Auto => SamplingStrategy::Auto,
            SamplingStrategy::Period(p) => SamplingStrategy::Period(p.clone()),
            SamplingStrategy::Event => SamplingStrategy::Event,
            SamplingStrategy::Differential(d) => SamplingStrategy::Differential(d.clone()),
            SamplingStrategy::EventRate(lo, hi) => SamplingStrategy::EventRate(
                lo.clone(),
                hi.clone(),
            ),
            SamplingStrategy::DifferentialRate(d, lo, hi) => SamplingStrategy::DifferentialRate(
                d.clone(),
                lo.clone(),
                hi.clone(),
            ),
        }
    }
}

/// The parameter at `index`, where there is one and it reads as a number.
fn param(params: &[Option<Parameter>], index: usize) -> (p: Option<&Parameter>)
    ensures
        match p {
            Some(x) => parameter_at(parameters_view(params@), index as int) == Some(x@),
            None => parameter_at(parameters_view(params@), index as int) is None,
        },
{
    if index < params.len() {
        assert(parameters_view(params@)[index as int] == opt_parameter(params@[index as int]));
        params[index].as_ref()
    } else {
        None
    }
}

impl SamplingStrategy {
    /// Get the string representation of the sampling strategy.
    pub fn as_str(&self) -> (name: &'static str)
        ensures
            name@ == self@.name(),
    {
        match self {
            SamplingStrategy::NoSampling => "none",
            SamplingStrategy::Auto => "auto",
            SamplingStrategy::Period(_) => "period",
            SamplingStrategy::Event => "event",
            SamplingStrategy::Differential(_) => "differential",
            SamplingStrategy::EventRate(_, _) => "event-rate",
            SamplingStrategy::DifferentialRate(_, _, _) => "differential-rate",
        }
    }

    /// Parse a sampling strategy from its name and parameters, each read as a number where it is
    /// one.
    pub fn parse(name: &str, params: &[Option<Parameter>]) -> (s: Option<SamplingStrategy>)
        ensures
            match s {
                Some(x) => read_strategy(name@, parameters_view(params@)) == Some(x@),
                None => read_strategy(name@, parameters_view(params@)) is None,
            },
    {
        if str_eq(name, "none") {
            Some(SamplingStrategy::NoSampling)
        } else if str_eq(name, "auto") {
            Some(SamplingStrategy::Auto)
        } else if str_eq(name, "event") {
            Some(SamplingStrategy::Event)
        } else if str_eq(name, "period") {
            match param(params, 0) {
                Some(p) => Some(SamplingStrategy::Period(p.interval.clone())),
                None => None,
            }
        } else if str_eq(name, "differential") {
            match param(params, 0) {
                Some(p) => Some(SamplingStrategy::Differential(p.number.clone())),
                None => None,
            }
        } else if str_eq(name, "event-rate") {
            match (param(params, 0), param(params, 1)) {
                (Some(lo), Some(hi)) => Some(
                    SamplingStrategy::EventRate(lo.interval.clone(), hi.interval.clone()),
                ),
                _ => None,
            }
        } else if str_eq(name, "differential-rate") {
            match (param(params, 0), param(params, 1), param(params, 2)) {
                (Some(d), Some(lo), Some(hi)) => Some(
                    SamplingStrategy::DifferentialRate(
                        d.number.clone(),
                        lo.interval.clone(),
                        hi.interval.clone(),
                    ),
                ),
                _ => None,
            }
        } else {
            None
        }
    }

    /// Get the formatted parameters for this strategy: a space-separated string.
    pub fn params_str(&self) -> (text: String)
        ensures
            text@ == self@.params(),
    {
        match self {
            SamplingStrategy::NoSampling | SamplingStrategy::Auto | SamplingStrategy::Event => {
                let text = String::new();
                assert(text@ =~= seq![]);
                text
            },
            SamplingStrategy::Period(p) => p.text.clone(),
            SamplingStrategy::Differential(d) => d.display.clone(),
            SamplingStrategy::EventRate(lo, hi) => {
                let mut text = lo.text.clone();
                push_char(&mut text, ' ');
                text.append(hi.text.as_str());
                assert(text@ =~= self@.params());
                text
            },
            SamplingStrategy::DifferentialRate(d, lo, hi) => {
                let mut text = d.display.clone();
                push_char(&mut text, ' ');
                text.append(lo.text.as_str());
                push_char(&mut text, ' ');
                text.append(hi.text.as_str());
                assert(text@ =~= self@.params());
                text
            },
        }
    }

    /// Whether this is the strategy that reports nothing.
    pub fn is_none(&self) -> (r: bool)
        ensures
            r == (self@ == StrategyView::NoSampling),
    {
        match self {
            SamplingStrategy::NoSampling => true,
            _ => false,
        }
    }

    /// Whether the shortest time between two samples fits into a duration.
    pub fn is_representable(&self) -> (r: bool)
        ensures
            r == self@.fits(),
    {
        match self {
            SamplingStrategy::Period(p) => p.is_representable(),
            SamplingStrategy::EventRate(lo, _) => lo.is_representable(),
            SamplingStrategy::DifferentialRate(_, lo, _) => lo.is_representable(),
            _ => true,
        }
    }
}

/// What an observer remembers of the last sample it sent, as mathematics sees it.
#[verifier::ext_equal]
pub struct SamplingStateView {
    pub last_sent: Option<u128>,
    pub last_value: Option<Seq<u8>>,
}

/// An observer as mathematics sees it.
#[verifier::ext_equal]
pub struct SamplingObserverView {
    pub sensor_name: Seq<char>,
    pub strategy: StrategyView,
    pub client_addr: SocketAddressView,
    pub state: SamplingStateView,
}

/// What an observer remembers of the last sample it sent.
struct SamplingState {
    last_sent: Option<u128>,
    last_value: Option<Vec<u8>>,
}

/// An active sensor sampling observer that turns updates into inform messages for a client.
pub struct SamplingObserver {
    sensor_name: String,
    strategy: SamplingStrategy,
    client_addr: SocketAddress,
    state: SamplingState,
}

/// The bytes that an optional value holds.
pub open spec fn opt_bytes(v: Option<Vec<u8>>) -> Option<Seq<u8>> {
    match v {
        Some(b) => Some(b@),
        None => None,
    }
}

impl View for SamplingObserver {
    type V = SamplingObserverView;

    closed spec fn view(&self) -> SamplingObserverView {
        SamplingObserverView {
            sensor_name: self.sensor_name@,
            strategy: self.strategy@,
            client_addr: self.client_addr@,
            state: SamplingStateView {
                last_sent: self.state.last_sent,
                last_value: opt_bytes(self.state.last_value),
            },
        }
    }
}

impl SamplingStateView {
    /// Whether the time of the last sample and its value are remembered together.
    pub open spec fn in_step(self) -> bool {
        self.last_sent is None <==> self.last_value is None
    }
}

/// Whether a value differs from the last that was sent.
pub open spec fn changed(state: SamplingStateView, value: Seq<u8>) -> bool {
    state.last_value != Some(value)
}

/// Whether at least `pause` lies between the last sample and `now`.
pub open spec fn rested(state: SamplingStateView, now: u128, pause: IntervalView) -> bool {
    match state.last_sent {
        None => true,
        Some(t) => (if now >= t {
            now - t
        } else {
            0
        }) >= pause.in_nanos(),
    }
}

/// Whether a strategy has an update sent. `moved` tells whether the value, read as a number, is at
/// least the strategy's difference away from the last that was sent.
pub open spec fn is_due(
    strategy: StrategyView,
    state: SamplingStateView,
    value: Seq<u8>,
    now: u128,
    moved: bool,
) -> bool {
    match strategy {
        StrategyView::NoSampling => false,
        StrategyView::Auto | StrategyView::Event => changed(state, value),
        StrategyView::Period(p) => rested(state, now, p),
        StrategyView::Differential(_) => state.last_value is None || moved,
        StrategyView::EventRate(lo, _) => changed(state, value) && rested(state, now, lo),
        StrategyView::DifferentialRate(_, lo, _) => (state.last_value is None || moved) && rested(
            state,
            now,
            lo,
        ),
    }
}

impl SamplingObserverView {
    /// Whether an update is sent.
    pub open spec fn sends(self, reading: SensorReadingView, now: u128, moved: bool) -> bool {
        is_due(self.strategy, self.state, reading.value, now, moved)
    }

    /// The observer after an update: it remembers the update if it was sent.
    pub open spec fn after(
        self,
        reading: SensorReadingView,
        now: u128,
        moved: bool,
    ) -> SamplingObserverView {
        if self.sends(reading, now, moved) {
            SamplingObserverView {
                state: SamplingStateView {
                    last_sent: Some(now),
                    last_value: Some(reading.value),
                },
                ..self
            }
        } else {
            self
        }
    }

    /// The inform that tells of an update: time, count, name, status and value.
    pub open spec fn status_inform(self, reading: SensorReadingView) -> MessageView {
        MessageView::plain(
            MessageType::Inform,
            "sensor-status"@,
            seq![
                encode_utf8(reading.timestamp.fixed),
                encode_utf8("1"@),
                encode_utf8(self.sensor_name),
                encode_utf8(reading.status.name()),
                reading.value,
            ],
        )
    }
}

impl SamplingObserver {
    /// Create a new sampling observer: it has sent nothing yet.
    pub fn new(
        sensor_name: String,
        strategy: SamplingStrategy,
        client_addr: SocketAddress,
    ) -> (o: SamplingObserver)
        ensures
            o@ == (SamplingObserverView {
                sensor_name: sensor_name@,
                strategy: strategy@,
                client_addr: client_addr@,
                state: SamplingStateView { last_sent: None, last_value: None },
            }),
            o@.state.in_step(),
    {
        SamplingObserver {
            sensor_name,
            strategy,
            client_addr,
            state: SamplingState { last_sent: None, last_value: None },
        }
    }

    /// Whether a value differs from the last that was sent.
    fn is_changed(&self, value: &Vec<u8>) -> (r: bool)
        ensures
            r == changed(self@.state, value@),
    {
        match &self.state.last_value {
            None => true,
            Some(last) => !bytes_eq(last.as_slice(), value.as_slice()),
        }
    }

    /// Whether at least `pause` lies between the last sample and `now`.
    fn is_rested(&self, now: u128, pause: &Interval) -> (r: bool)
        ensures
            r == rested(self@.state, now, pause@),
    {
        match self.state.last_sent {
            None => true,
            Some(t) => {
                let gone: u128 = if now >= t {
                    now - t
                } else {
                    0
                };
                gone >= pause.as_nanos()
            },
        }
    }

    /// Determine whether a sensor reading should be sent based on the active strategy. `now` is the
    /// time on a clock that counts nanoseconds and never goes back; `moved` tells whether the value,
    /// read as a number, is at least the strategy's difference away from the last that was sent.
    pub fn should_send(&mut self, reading: &SensorReading, now: u128, moved: bool) -> (r: bool)
        requires
            old(self)@.strategy.fits(),
        ensures
            r == old(self)@.sends(reading@, now, moved),
            final(self)@ == old(self)@.after(reading@, now, moved),
            old(self)@.state.in_step() ==> final(self)@.state.in_step(),
    {
        let first = self.state.last_value.is_none();
        let due = match &self.strategy {
            SamplingStrategy::NoSampling => false,
            SamplingStrategy::Auto => self.is_changed(&reading.value),
            SamplingStrategy::Event => self.is_changed(&reading.value),
            SamplingStrategy::Period(p) => self.is_rested(now, p),
            SamplingStrategy::Differential(_) => first || moved,
            SamplingStrategy::EventRate(lo, _) => self.is_changed(&reading.value)
                && self.is_rested(now, lo),
            SamplingStrategy::DifferentialRate(_, lo, _) => (first || moved) && self.is_rested(
                now,
                lo,
            ),
        };
        if due {
            self.state.last_sent = Some(now);
            self.state.last_value = Some(copy_bytes(&reading.value));
        }
        due
    }

    /// The `#sensor-status` inform that tells of a sensor reading.
    pub fn inform(&self, reading: &SensorReading) -> (m: Message)
        ensures
            m@ == self@.status_inform(reading@),
    {
        let mut args: Vec<Vec<u8>> = Vec::new();
        args.push(reading.timestamp.fixed.as_str().as_bytes_vec());
        args.push("1".as_bytes_vec());
        args.push(self.sensor_name.as_str().as_bytes_vec());
        args.push(reading.status.as_str().as_bytes_vec());
        args.push(copy_bytes(&reading.value));
        assert(args_view(args@) =~= self@.status_inform(reading@).arguments);
        Message::inform("sensor-status", args)
    }

    /// Tells the observer of an update. Where it is to be sent, the bytes of the inform come back.
    pub fn on_update(&mut self, reading: &SensorReading, now: u128, moved: bool) -> (sent: Option<
        Vec<u8>,
    >)
        requires
            old(self)@.strategy.fits(),
        ensures
            final(self)@ == old(self)@.after(reading@, now, moved),
            old(self)@.state.in_step() ==> final(self)@.state.in_step(),
            match sent {
                Some(bytes) => old(self)@.sends(reading@, now, moved) && bytes@ == wire(
                    old(self)@.status_inform(reading@),
                ),
                None => !old(self)@.sends(reading@, now, moved),
            },
    {
        if self.should_send(reading, now, moved) {
            Some(self.inform(reading).to_bytes())
        } else {
            None
        }
    }

    /// The client that owns this observer.
    pub fn client_addr(&self) -> (addr: &SocketAddress)
        ensures
            addr@ == self@.client_addr,
    {
        &self.client_addr
    }

    /// The strategy of this observer.
    pub fn strategy(&self) -> (s: &SamplingStrategy)
        ensures
            s@ == self@.strategy,
    {
        &self.strategy
    }

    /// The value that was sent last.
    pub fn last_value(&self) -> (v: Option<&Vec<u8>>)
        ensures
            match v {
                Some(b) => self@.state.last_value == Some(b@),
                None => self@.state.last_value is None,
            },
    {
        self.state.last_value.as_ref()
    }
}

/// An update as a strategy sees it.
pub struct Update {
    pub value: Seq<u8>,
    pub now: u128,
    pub moved: bool,
}

/// The place of the first update that is sent; the number of updates where none is.
pub open spec fn first_due(
    strategy: StrategyView,
    state: SamplingStateView,
    updates: Seq<Update>,
) -> nat
    decreases updates.len(),
{
    if updates.len() == 0 || is_due(
        strategy,
        state,
        updates[0].value,
        updates[0].now,
        updates[0].moved,
    ) {
        0
    } else {
        1 + first_due(strategy, state, updates.skip(1))
    }
}

/// However many updates lie between, two samples in a row are at least the strategy's shortest time
/// apart, and where the strategy samples changes, their values differ.
pub proof fn samples_in_a_row(
    strategy: StrategyView,
    state: SamplingStateView,
    updates: Seq<Update>,
)
    requires
        first_due(strategy, state, updates) < updates.len(),
    ensures
        ({
            let next = updates[first_due(strategy, state, updates) as int];
            &&& (strategy.pause() matches Some(p) ==> state.last_sent matches Some(t) ==> p.in_nanos()
                > 0 ==> next.now >= t + p.in_nanos())
            &&& strategy is Auto || strategy is Event || strategy is EventRate
                ==> state.last_value != Some(next.value)
        }),
    decreases updates.len(),
{
    if !is_due(strategy, state, updates[0].value, updates[0].now, updates[0].moved) {
        let rest = updates.skip(1);
        samples_in_a_row(strategy, state, rest);
        let k = first_due(strategy, state, rest) as int;
        assert(rest[k] == updates[k + 1]);
    }
}

/// Every update keeps the time of the last sample and its value together.
pub proof fn state_stays_in_step(
    o: SamplingObserverView,
    reading: SensorReadingView,
    now: u128,
    moved: bool,
)
    requires
        o.state.in_step(),
    ensures
        o.after(reading, now, moved).state.in_step(),
{
}

/// Whatever happened before, as long as nothing was sent a strategy of every kind but `none` sends
/// the next update; `none` sends no update ever.
pub proof fn first_update_is_sent(
    strategy: StrategyView,
    state: SamplingStateView,
    value: Seq<u8>,
    now: u128,
    moved: bool,
)
    requires
        state.in_step(),
    ensures
        strategy != StrategyView::NoSampling && (state.last_sent is None || state.last_value is None)
            ==> is_due(strategy, state, value, now, moved),
        !is_due(StrategyView::NoSampling, state, value, now, moved),
{
}

/// The observer after a run of updates.
pub open spec fn observer_run(
    o: SamplingObserverView,
    updates: Seq<(SensorReadingView, u128, bool)>,
) -> SamplingObserverView
    decreases updates.len(),
{
    if updates.len() == 0 {
        o
    } else {
        let (reading, now, moved) = updates.last();
        observer_run(o, updates.drop_last()).after(reading, now, moved)
    }
}

/// An observer that was just made keeps its state in step through every run of updates; and if it
/// samples at all, then of a run that is not empty something was sent.
pub proof fn observers_stay_in_step(
    o: SamplingObserverView,
    updates: Seq<(SensorReadingView, u128, bool)>,
)
    requires
        o.state == (SamplingStateView { last_sent: None, last_value: None }),
    ensures
        observer_run(o, updates).state.in_step(),
        observer_run(o, updates).strategy == o.strategy,
        o.strategy != StrategyView::NoSampling && updates.len() > 0 ==> observer_run(
            o,
            updates,
        ).state.last_sent is Some,
        o.strategy == StrategyView::NoSampling ==> observer_run(o, updates) == o,
    decreases updates.len(),
{
    if updates.len() > 0 {
        observers_stay_in_step(o, updates.drop_last());
        let before = observer_run(o, updates.drop_last());
        let (reading, now, moved) = updates.last();
        state_stays_in_step(before, reading, now, moved);
        first_update_is_sent(before.strategy, before.state, reading.value, now, moved);
    }
}

/// Once an update was sent, its value is not sent again while it does not change, whatever the
/// clock says: of `auto`, `event` and `event-rate`.
pub proof fn same_value_is_not_sent_again(
    o: SamplingObserverView,
    first: SensorReadingView,
    second: SensorReadingView,
    now1: u128,
    now2: u128,
    moved1: bool,
    moved2: bool,
)
    requires
        o.strategy is Auto || o.strategy is Event || o.strategy is EventRate,
        o.sends(first, now1, moved1),
        second.value == first.value,
    ensures
        !o.after(first, now1, moved1).sends(second, now2, moved2),
{
}

/// The name of a strategy is the name that reads as it.
pub proof fn strategy_is_read_by_its_name(
    name: Seq<char>,
    ps: Seq<Option<ParameterView>>,
    s: StrategyView,
)
    requires
        read_strategy(name, ps) == Some(s),
    ensures
        s.name() == name,
{
}

} // verus!
