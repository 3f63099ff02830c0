//! Sensors: their readings, and who is told when a reading changes.

use vstd::prelude::*;
use vstd::string::StringExecFns;
use vstd::utf8::encode_utf8;
use crate::address::SocketAddress;
use crate::address::SocketAddressView;
use crate::decimal::i64_text;
use crate::decimal::int_text;
use crate::float::Float64;
use crate::float::Float64View;
use crate::message::copy_bytes;
use crate::message::opt_text;
use crate::sampling::SamplingObserver;
use crate::sampling::SamplingObserverView;
use crate::text::push_char;
use crate::text::str_eq;
use crate::text::texts_view;
use crate::types::bool_bytes;
use crate::types::bool_text;
use crate::types::encode_timestamp;
use crate::types::lru_bytes;
use crate::types::lru_text;
use crate::types::opt_address;
use crate::types::opt_float;
use crate::types::KatcpType;
use crate::types::KatcpTypeView;
use crate::wire::wire;

verus! {

/// Sensor type identifiers.
#[derive(Debug, Clone, Copy, PartialEq, Eq, Structural)]
pub enum SensorType {
    Integer,
    Float,
    Boolean,
    Lru,
    Discrete,
    String,
    Timestamp,
    Address,
}

impl SensorType {
    /// The name of the type.
    pub open spec fn name(self) -> Seq<char> {
        match self {
            SensorType::Integer => "integer"@,
            SensorType::Float => "float"@,
            SensorType::Boolean => "boolean"@,
            SensorType::Lru => "lru"@,
            SensorType::Discrete => "discrete"@,
            SensorType::String => "string"@,
            SensorType::Timestamp => "timestamp"@,
            SensorType::Address => "address"@,
        }
    }

    /// Get the string representation of the sensor type.
    pub fn as_str(&self) -> (name: &'static str)
        ensures
            name@ == self.name(),
    {
        match self {
            SensorType::Integer => "integer",
            SensorType::Float => "float",
            SensorType::Boolean => "boolean",
            SensorType::Lru => "lru",
            SensorType::Discrete => "discrete",
            SensorType::String => "string",
            SensorType::Timestamp => "timestamp",
            SensorType::Address => "address",
        }
    }
}

/// Sensor status values.
#[derive(Debug, Clone, Copy, PartialEq, Eq, Structural)]
pub enum SensorStatus {
    Unknown,
    Nominal,
    Warn,
    Error,
    Failure,
    Unreachable,
    Inactive,
}

impl SensorStatus {
    /// The name of the status.
    pub open spec fn name(self) -> Seq<char> {
        match self {
            SensorStatus::Unknown => "unknown"@,
            SensorStatus::Nominal => "nominal"@,
            SensorStatus::Warn => "warn"@,
            SensorStatus::Error => "error"@,
            SensorStatus::Failure => "failure"@,
            SensorStatus::Unreachable => "unreachable"@,
            SensorStatus::Inactive => "inactive"@,
        }
    }

    /// Get the string representation of the sensor status.
    pub fn as_str(&self) -> (name: &'static str)
        ensures
            name@ == self.name(),
    {
        match self {
            SensorStatus::Unknown => "unknown",
            SensorStatus::Nominal => "nominal",
            SensorStatus::Warn => "warn",
            SensorStatus::Error => "error",
            SensorStatus::Failure => "failure",
            SensorStatus::Unreachable => "unreachable",
            SensorStatus::Inactive => "inactive",
        }
    }
}

impl SensorStatus {
    /// Parse a sensor status from its string representation.
    pub fn from_str(s: &str) -> (status: Option<SensorStatus>)
        ensures
            status == read_status(s@),
    {
        proof {
            status_is_read_by_its_name(SensorStatus::Unknown);
            status_is_read_by_its_name(SensorStatus::Nominal);
            status_is_read_by_its_name(SensorStatus::Warn);
            status_is_read_by_its_name(SensorStatus::Error);
            status_is_read_by_its_name(SensorStatus::Failure);
            status_is_read_by_its_name(SensorStatus::Unreachable);
            status_is_read_by_its_name(SensorStatus::Inactive);
        }
        if str_eq(s, "unknown") {
            Some(SensorStatus::Unknown)
        } else if str_eq(s, "nominal") {
            Some(SensorStatus::Nominal)
        } else if str_eq(s, "warn") {
            Some(SensorStatus::Warn)
        } else if str_eq(s, "error") {
            Some(SensorStatus::Error)
        } else if str_eq(s, "failure") {
            Some(SensorStatus::Failure)
        } else if str_eq(s, "unreachable") {
            Some(SensorStatus::Unreachable)
        } else if str_eq(s, "inactive") {
            Some(SensorStatus::Inactive)
        } else {
            None
        }
    }
}

/// The status that has a name.
pub open spec fn read_status(name: Seq<char>) -> Option<SensorStatus> {
    if exists|x: SensorStatus| (#[trigger] x.name()) == name {
        Some(choose|x: SensorStatus| (#[trigger] x.name()) == name)
    } else {
        None
    }
}

/// A status is read back from its name.
pub proof fn status_is_read_by_its_name(x: SensorStatus)
    ensures
        read_status(x.name()) == Some(x),
{
    let y = choose|y: SensorStatus| (#[trigger] y.name()) == x.name();
    status_names_differ(x, y);
}

/// No two statuses have one name.
pub proof fn status_names_differ(a: SensorStatus, b: SensorStatus)
    ensures
        a.name() == b.name() ==> a == b,
{
    reveal_strlit("unknown");
    reveal_strlit("nominal");
    reveal_strlit("warn");
    reveal_strlit("error");
    reveal_strlit("failure");
    reveal_strlit("unreachable");
    reveal_strlit("inactive");
    if a.name() == b.name() {
        assert(a.name().len() == b.name().len());
        assert(a.name()[0] == b.name()[0]);
    }
}

/// A sensor reading as mathematics sees it.
#[verifier::ext_equal]
pub struct SensorReadingView {
    pub timestamp: Float64View,
    pub status: SensorStatus,
    pub value: Seq<u8>,
}

/// A timestamped sensor reading.
#[derive(Debug)]
pub struct SensorReading {
    pub timestamp: Float64,
    pub status: SensorStatus,
    pub value: Vec<u8>,
}

impl View for SensorReading {
    type V = SensorReadingView;

    open spec fn view(&self) -> SensorReadingView {
        SensorReadingView { timestamp: self.timestamp@, status: self.status, value: self.value@ }
    }
}

impl Clone for SensorReading {
    fn clone(&self) -> (copy: SensorReading)
        ensures
            copy@ == self@,
    {
        SensorReading {
            timestamp: self.timestamp.clone(),
            status: self.status,
            value: copy_bytes(&self.value),
        }
    }
}

impl SensorReading {
    /// Create a new sensor reading.
    pub fn new(timestamp: Float64, status: SensorStatus, value: Vec<u8>) -> (r: SensorReading)
        ensures
            r@ == (SensorReadingView { timestamp: timestamp@, status, value: value@ }),
    {
        SensorReading { timestamp, status, value }
    }
}

/// Someone who is told when a sensor is updated.
pub enum Observer {
    /// A client that samples the sensor.
    Sampling(SamplingObserver),
    /// An observer outside the library, by the number it is known under, and the client that it
    /// belongs to, if any.
    External { handle: u64, client: Option<SocketAddress> },
}

/// An observer as mathematics sees it.
#[verifier::ext_equal]
pub enum ObserverView {
    Sampling(SamplingObserverView),
    External { handle: u64, client: Option<SocketAddressView> },
}

impl View for Observer {
    type V = ObserverView;

    open spec fn view(&self) -> ObserverView {
        match self {
            Observer::Sampling(o) => ObserverView::Sampling(o@),
            Observer::External { handle, client } => ObserverView::External {
                handle: *handle,
                client: opt_address(*client),
            },
        }
    }
}

/// What is to be done because a sensor was updated.
pub enum Notice {
    /// Send these bytes to this client.
    Deliver { client: SocketAddress, bytes: Vec<u8> },
    /// Tell the observer of this number of the update.
    Call { handle: u64 },
}

/// What is to be done because a sensor was updated, as mathematics sees it.
#[verifier::ext_equal]
pub enum NoticeView {
    Deliver { client: SocketAddressView, bytes: Seq<u8> },
    Call { handle: u64 },
}

impl View for Notice {
    type V = NoticeView;

    open spec fn view(&self) -> NoticeView {
        match self {
            Notice::Deliver { client, bytes } => NoticeView::Deliver {
                client: client@,
                bytes: bytes@,
            },
            Notice::Call { handle } => NoticeView::Call { handle: *handle },
        }
    }
}

/// The observers that a list holds.
pub open spec fn observers_view(os: Seq<Observer>) -> Seq<ObserverView> {
    os.map_values(|o: Observer| o@)
}

/// The notices that a list holds.
pub open spec fn notices_view(ns: Seq<Notice>) -> Seq<NoticeView> {
    ns.map_values(|n: Notice| n@)
}

impl ObserverView {
    /// The client that the observer belongs to.
    pub open spec fn client(self) -> Option<SocketAddressView> {
        match self {
            ObserverView::Sampling(o) => Some(o.client_addr),
            ObserverView::External { handle, client } => client,
        }
    }

    /// The observer after an update.
    pub open spec fn after(
        self,
        reading: SensorReadingView,
        now: u128,
        moved: bool,
    ) -> ObserverView {
        match self {
            ObserverView::Sampling(o) => ObserverView::Sampling(o.after(reading, now, moved)),
            ObserverView::External { handle, client } => self,
        }
    }

    /// What is to be done because of an update.
    pub open spec fn notice(
        self,
        reading: SensorReadingView,
        now: u128,
        moved: bool,
    ) -> Seq<NoticeView> {
        match self {
            ObserverView::Sampling(o) => if o.sends(reading, now, moved) {
                seq![
                    NoticeView::Deliver {
                        client: o.client_addr,
                        bytes: wire(o.status_inform(reading)),
                    },
                ]
            } else {
                seq![]
            },
            ObserverView::External { handle, client } => seq![NoticeView::Call { handle }],
        }
    }

    /// Whether the observer can be told of an update: the time that it waits between samples fits
    /// into a duration.
    pub open spec fn fits(self) -> bool {
        match self {
            ObserverView::Sampling(o) => o.strategy.fits(),
            ObserverView::External { handle, client } => true,
        }
    }
}

/// The observers after an update.
pub open spec fn observers_after(
    os: Seq<ObserverView>,
    reading: SensorReadingView,
    now: u128,
    moved: Seq<bool>,
) -> Seq<ObserverView> {
    Seq::new(os.len(), |i: int| os[i].after(reading, now, moved[i]))
}

/// What is to be done because of an update, in the order in which the observers were attached.
pub open spec fn all_notices(
    os: Seq<ObserverView>,
    reading: SensorReadingView,
    now: u128,
    moved: Seq<bool>,
) -> Seq<NoticeView>
    decreases os.len(),
{
    if os.len() == 0 {
        seq![]
    } else {
        all_notices(os.drop_last(), reading, now, moved) + os.last().notice(
            reading,
            now,
            moved[os.len() - 1],
        )
    }
}

/// The observers that do not belong to a client.
pub open spec fn without_client(os: Seq<ObserverView>, addr: SocketAddressView) -> Seq<
    ObserverView,
> {
    os.filter(|o: ObserverView| o.client() != Some(addr))
}

/// The observers that belong to a client.
pub open spec fn of_client(os: Seq<ObserverView>, addr: SocketAddressView) -> Seq<ObserverView> {
    os.filter(|o: ObserverView| o.client() == Some(addr))
}

/// What surrounds an update: the time of day, the time on a clock that counts nanoseconds and never
/// goes back, and, of each observer, whether the new value, read as a number, is at least the
/// difference of the observer's strategy away from the value it sent last.
pub struct Moment {
    pub wall: Float64,
    pub now: u128,
    pub moved: Vec<bool>,
}

/// A sensor as mathematics sees it.
#[verifier::ext_equal]
pub struct SensorView {
    pub name: Seq<char>,
    pub description: Seq<char>,
    pub units: Seq<char>,
    pub sensor_type: SensorType,
    pub katcp_type: KatcpTypeView,
    pub reading: SensorReadingView,
    pub observers: Seq<ObserverView>,
}

/// A sensor.
pub struct Sensor {
    pub name: String,
    pub description: String,
    pub units: String,
    pub sensor_type: SensorType,
    pub katcp_type: KatcpType,
    /// The latest reading.
    pub reading: SensorReading,
    /// Those who are told of updates, in the order in which they were attached.
    pub observers: Vec<Observer>,
}

impl View for Sensor {
    type V = SensorView;

    open spec fn view(&self) -> SensorView {
        SensorView {
            name: self.name@,
            description: self.description@,
            units: self.units@,
            sensor_type: self.sensor_type,
            katcp_type: self.katcp_type@,
            reading: self.reading@,
            observers: observers_view(self.observers@),
        }
    }
}

/// Texts with a space between each two.
pub open spec fn joined(list: Seq<Seq<char>>) -> Seq<char>
    decreases list.len(),
{
    if list.len() == 0 {
        seq![]
    } else if list.len() == 1 {
        list[0]
    } else {
        joined(list.drop_last()) + seq![' '] + list.last()
    }
}

/// The two bounds of a range, of which either may be missing.
pub open spec fn bounds_text(min: Option<Seq<char>>, max: Option<Seq<char>>) -> Seq<char> {
    match (min, max) {
        (Some(lo), Some(hi)) => lo + seq![' '] + hi,
        (Some(lo), None) => lo,
        (None, Some(hi)) => hi,
        (None, None) => seq![],
    }
}

/// The text of an optional integer.
pub open spec fn opt_int_text(v: Option<i64>) -> Option<Seq<char>> {
    match v {
        Some(x) => Some(int_text(x as int)),
        None => None,
    }
}

/// The scientific form of an optional number.
pub open spec fn opt_scientific(v: Option<Float64View>) -> Option<Seq<char>> {
    match v {
        Some(x) => Some(x.scientific),
        None => None,
    }
}

/// The parameters of a type.
pub open spec fn type_params(t: KatcpTypeView) -> Seq<char> {
    match t {
        KatcpTypeView::Int { min, max } => bounds_text(opt_int_text(min), opt_int_text(max)),
        KatcpTypeView::Float { min, max } => bounds_text(opt_scientific(min), opt_scientific(max)),
        KatcpTypeView::Discrete { values } => joined(values),
        _ => seq![],
    }
}

impl SensorView {
    /// A sensor that was never updated: it has its first value, of unknown status, at time zero, and
    /// nobody observes it.
    pub open spec fn fresh(
        name: Seq<char>,
        description: Seq<char>,
        units: Seq<char>,
        sensor_type: SensorType,
        katcp_type: KatcpTypeView,
        value: Seq<u8>,
    ) -> SensorView {
        SensorView {
            name,
            description,
            units,
            sensor_type,
            katcp_type,
            reading: SensorReadingView {
                timestamp: Float64View::zero(),
                status: SensorStatus::Unknown,
                value,
            },
            observers: seq![],
        }
    }

    /// Whether every observer can be told of an update.
    pub open spec fn fits(self) -> bool {
        forall|i: int| 0 <= i < self.observers.len() ==> (#[trigger] self.observers[i]).fits()
    }

    /// The sensor after an update.
    pub open spec fn updated(
        self,
        reading: SensorReadingView,
        now: u128,
        moved: Seq<bool>,
    ) -> SensorView {
        SensorView {
            reading,
            observers: observers_after(self.observers, reading, now, moved),
            ..self
        }
    }

    /// The reading that an update makes: at the time given, else at the time of day.
    pub open spec fn new_reading(
        value: Seq<u8>,
        status: SensorStatus,
        timestamp: Option<Float64View>,
        wall: Float64View,
    ) -> SensorReadingView {
        SensorReadingView {
            timestamp: match timestamp {
                Some(t) => t,
                None => wall,
            },
            status,
            value,
        }
    }
}

/// Tells the observers of an update, in order.
fn notify(observers: &mut Vec<Observer>, reading: &SensorReading, moment: &Moment) -> (notices: Vec<
    Notice,
>)
    requires
        moment.moved@.len() == old(observers)@.len(),
        forall|i: int|
            0 <= i < old(observers)@.len() ==> observers_view(old(observers)@)[i].fits(),
    ensures
        observers_view(final(observers)@) == observers_after(
            observers_view(old(observers)@),
            reading@,
            moment.now,
            moment.moved@,
        ),
        notices_view(notices@) == all_notices(
            observers_view(old(observers)@),
            reading@,
            moment.now,
            moment.moved@,
        ),
{
    let ghost before = observers_view(observers@);
    let ghost after = observers_after(before, reading@, moment.now, moment.moved@);
    let mut notices: Vec<Notice> = Vec::new();
    let mut i: usize = 0;
    assert(notices_view(notices@) =~= all_notices(
        before.take(0),
        reading@,
        moment.now,
        moment.moved@,
    ));
    while i < observers.len()
        invariant
            i <= observers@.len(),
            observers@.len() == before.len(),
            moment.moved@.len() == before.len(),
            after == observers_after(before, reading@, moment.now, moment.moved@),
            forall|k: int| 0 <= k < before.len() ==> (#[trigger] before[k]).fits(),
            forall|k: int| 0 <= k < i ==> (#[trigger] observers@[k])@ == after[k],
            forall|k: int| i <= k < before.len() ==> (#[trigger] observers@[k])@ == before[k],
            notices_view(notices@) == all_notices(
                before.take(i as int),
                reading@,
                moment.now,
                moment.moved@,
            ),
        decreases observers@.len() - i,
    {
        let moved = moment.moved[i];
        let ghost done = notices_view(notices@);
        let ghost o = before[i as int];
        assert(o.fits());
        assert(observers@[i as int]@ == o);
        match &mut observers[i] {
            Observer::Sampling(s) => {
                match s.on_update(reading, moment.now, moved) {
                    Some(bytes) => {
                        let client = s.client_addr().clone();
                        notices.push(Notice::Deliver { client, bytes });
                    },
                    None => {},
                }
            },
            Observer::External { handle, client: _ } => {
                let handle: u64 = *handle;
                notices.push(Notice::Call { handle });
            },
        }
        assert(observers@[i as int]@ == after[i as int]);
        assert(notices_view(notices@) =~= done + o.notice(reading@, moment.now, moved));
        assert(before.take(i + 1).drop_last() =~= before.take(i as int));
        i = i + 1;
    }
    assert(before.take(i as int) =~= before);
    assert(observers_view(observers@) =~= after);
    notices
}

/// The text of an optional integer.
fn opt_int(v: &Option<i64>) -> (t: Option<String>)
    ensures
        opt_text(t) == opt_int_text(*v),
{
    match v {
        Some(x) => Some(i64_text(*x)),
        None => None,
    }
}

/// The scientific form of an optional number.
fn opt_sci(v: &Option<Float64>) -> (t: Option<String>)
    ensures
        opt_text(t) == opt_scientific(opt_float(*v)),
{
    match v {
        Some(x) => Some(x.scientific.clone()),
        None => None,
    }
}

/// The two bounds of a range, of which either may be missing.
fn bounds(min: Option<String>, max: Option<String>) -> (text: String)
    ensures
        text@ == bounds_text(opt_text(min), opt_text(max)),
{
    match (min, max) {
        (Some(lo), Some(hi)) => {
            let mut text = lo;
            let ghost first = text@;
            push_char(&mut text, ' ');
            text.append(hi.as_str());
            assert(text@ =~= first + seq![' '] + hi@);
            text
        },
        (Some(lo), None) => lo,
        (None, Some(hi)) => hi,
        (None, None) => {
            let text = String::new();
            assert(text@ =~= seq![]);
            text
        },
    }
}

/// Texts with a space between each two.
fn join(list: &Vec<String>) -> (text: String)
    ensures
        text@ == joined(texts_view(list@)),
{
    let mut text = String::new();
    let ghost all = texts_view(list@);
    let mut i: usize = 0;
    assert(text@ =~= joined(all.take(0)));
    while i < list.len()
        invariant
            i <= list@.len(),
            all == texts_view(list@),
            text@ == joined(all.take(i as int)),
        decreases list@.len() - i,
    {
        if i > 0 {
            push_char(&mut text, ' ');
        }
        text.append(list[i].as_str());
        assert(all.take(i + 1).drop_last() =~= all.take(i as int));
        assert(all.take(i + 1).last() == list@[i as int]@);
        assert(text@ =~= joined(all.take(i + 1)));
        i = i + 1;
    }
    assert(all.take(i as int) =~= all);
    text
}

impl Sensor {
    /// Create a new generic sensor.
    fn new(
        name: &str,
        description: &str,
        units: &str,
        sensor_type: SensorType,
        katcp_type: KatcpType,
        default_value: Vec<u8>,
    ) -> (s: Sensor)
        ensures
            s@ == SensorView::fresh(
                name@,
                description@,
                units@,
                sensor_type,
                katcp_type@,
                default_value@,
            ),
    {
        let observers: Vec<Observer> = Vec::new();
        assert(observers_view(observers@) =~= seq![]);
        Sensor {
            name: name.to_owned(),
            description: description.to_owned(),
            units: units.to_owned(),
            sensor_type,
            katcp_type,
            reading: SensorReading::new(Float64::zero(), SensorStatus::Unknown, default_value),
            observers,
        }
    }

    /// Create an integer sensor.
    pub fn integer(
        name: &str,
        description: &str,
        units: &str,
        min: Option<i64>,
        max: Option<i64>,
        default: i64,
    ) -> (s: Sensor)
        ensures
            s@ == SensorView::fresh(
                name@,
                description@,
                units@,
                SensorType::Integer,
                KatcpTypeView::Int { min, max },
                encode_utf8(int_text(default as int)),
            ),
    {
        Sensor::new(
            name,
            description,
            units,
            SensorType::Integer,
            KatcpType::Int { min, max },
            i64_text(default).as_str().as_bytes_vec(),
        )
    }

    /// Create a float sensor.
    pub fn float(
        name: &str,
        description: &str,
        units: &str,
        min: Option<Float64>,
        max: Option<Float64>,
        default: Float64,
    ) -> (s: Sensor)
        ensures
            s@ == SensorView::fresh(
                name@,
                description@,
                units@,
                SensorType::Float,
                KatcpTypeView::Float { min: opt_float(min), max: opt_float(max) },
                encode_utf8(default@.scientific),
            ),
    {
        Sensor::new(
            name,
            description,
            units,
            SensorType::Float,
            KatcpType::Float { min, max },
            default.scientific.as_str().as_bytes_vec(),
        )
    }

    /// Create a boolean sensor.
    pub fn boolean(name: &str, description: &str, units: &str, default: bool) -> (s: Sensor)
        ensures
            s@ == SensorView::fresh(
                name@,
                description@,
                units@,
                SensorType::Boolean,
                KatcpTypeView::Bool,
                encode_utf8(bool_text(default)),
            ),
    {
        Sensor::new(
            name,
            description,
            units,
            SensorType::Boolean,
            KatcpType::Bool,
            bool_bytes(default),
        )
    }

    /// Create a discrete sensor.
    pub fn discrete(
        name: &str,
        description: &str,
        units: &str,
        values: Vec<String>,
        default: &str,
    ) -> (s: Sensor)
        ensures
            s@ == SensorView::fresh(
                name@,
                description@,
                units@,
                SensorType::Discrete,
                KatcpTypeView::Discrete { values: texts_view(values@) },
                encode_utf8(default@),
            ),
    {
        Sensor::new(
            name,
            description,
            units,
            SensorType::Discrete,
            KatcpType::Discrete { values },
            default.as_bytes_vec(),
        )
    }

    /// Create a string sensor.
    pub fn string(name: &str, description: &str, units: &str, default: &str) -> (s: Sensor)
        ensures
            s@ == SensorView::fresh(
                name@,
                description@,
                units@,
                SensorType::String,
                KatcpTypeView::Str,
                encode_utf8(default@),
            ),
    {
        Sensor::new(
            name,
            description,
            units,
            SensorType::String,
            KatcpType::Str,
            default.as_bytes_vec(),
        )
    }

    /// Create a timestamp sensor.
    pub fn timestamp(name: &str, description: &str, units: &str, default: Float64) -> (s: Sensor)
        ensures
            s@ == SensorView::fresh(
                name@,
                description@,
                units@,
                SensorType::Timestamp,
                KatcpTypeView::Timestamp,
                encode_utf8(default@.fixed),
            ),
    {
        Sensor::new(
            name,
            description,
            units,
            SensorType::Timestamp,
            KatcpType::Timestamp,
            encode_timestamp(&default),
        )
    }

    /// Create an LRU sensor.
    pub fn lru(name: &str, description: &str, units: &str, default: bool) -> (s: Sensor)
        ensures
            s@ == SensorView::fresh(
                name@,
                description@,
                units@,
                SensorType::Lru,
                KatcpTypeView::Lru,
                encode_utf8(lru_text(default)),
            ),
    {
        Sensor::new(name, description, units, SensorType::Lru, KatcpType::Lru, lru_bytes(default))
    }

    /// Set the sensor value with a given status and optional timestamp; without one, the time of day
    /// is used. What comes back is to be done, in order.
    pub fn set_value(
        &mut self,
        value: Vec<u8>,
        status: SensorStatus,
        timestamp: Option<Float64>,
        moment: &Moment,
    ) -> (notices: Vec<Notice>)
        requires
            old(self)@.fits(),
            moment.moved@.len() == old(self)@.observers.len(),
        ensures
            ({
                let reading = SensorView::new_reading(
                    value@,
                    status,
                    opt_float(timestamp),
                    moment.wall@,
                );
                &&& final(self)@ == old(self)@.updated(reading, moment.now, moment.moved@)
                &&& notices_view(notices@) == all_notices(
                    old(self)@.observers,
                    reading,
                    moment.now,
                    moment.moved@,
                )
            }),
    {
        let ts = match timestamp {
            Some(t) => t,
            None => moment.wall.clone(),
        };
        let reading = SensorReading::new(ts, status, value);
        self.reading = reading.clone();
        assert forall|i: int| 0 <= i < self.observers@.len() implies observers_view(
            self.observers@,
        )[i].fits() by {
            assert(old(self)@.observers[i].fits());
        }
        notify(&mut self.observers, &reading, moment)
    }

    /// Set the sensor value from a formatted integer.
    pub fn set_int(&mut self, value: i64, status: SensorStatus, moment: &Moment) -> (notices: Vec<
        Notice,
    >)
        requires
            old(self)@.fits(),
            moment.moved@.len() == old(self)@.observers.len(),
        ensures
            ({
                let reading = SensorView::new_reading(
                    encode_utf8(int_text(value as int)),
                    status,
                    None,
                    moment.wall@,
                );
                &&& final(self)@ == old(self)@.updated(reading, moment.now, moment.moved@)
                &&& notices_view(notices@) == all_notices(
                    old(self)@.observers,
                    reading,
                    moment.now,
                    moment.moved@,
                )
            }),
    {
        self.set_value(i64_text(value).as_str().as_bytes_vec(), status, None, moment)
    }

    /// Set the sensor value from a formatted float.
    pub fn set_float(&mut self, value: Float64, status: SensorStatus, moment: &Moment) -> (notices:
        Vec<Notice>)
        requires
            old(self)@.fits(),
            moment.moved@.len() == old(self)@.observers.len(),
        ensures
            ({
                let reading = SensorView::new_reading(
                    encode_utf8(value@.scientific),
                    status,
                    None,
                    moment.wall@,
                );
                &&& final(self)@ == old(self)@.updated(reading, moment.now, moment.moved@)
                &&& notices_view(notices@) == all_notices(
                    old(self)@.observers,
                    reading,
                    moment.now,
                    moment.moved@,
                )
            }),
    {
        self.set_value(value.scientific.as_str().as_bytes_vec(), status, None, moment)
    }

    /// Set the sensor value from a boolean.
    pub fn set_bool(&mut self, value: bool, status: SensorStatus, moment: &Moment) -> (notices: Vec<
        Notice,
    >)
        requires
            old(self)@.fits(),
            moment.moved@.len() == old(self)@.observers.len(),
        ensures
            ({
                let reading = SensorView::new_reading(
                    encode_utf8(bool_text(value)),
                    status,
                    None,
                    moment.wall@,
                );
                &&& final(self)@ == old(self)@.updated(reading, moment.now, moment.moved@)
                &&& notices_view(notices@) == all_notices(
                    old(self)@.observers,
                    reading,
                    moment.now,
                    moment.moved@,
                )
            }),
    {
        self.set_value(bool_bytes(value), status, None, moment)
    }

    /// Set the sensor value from a string.
    pub fn set_str(&mut self, value: &str, status: SensorStatus, moment: &Moment) -> (notices: Vec<
        Notice,
    >)
        requires
            old(self)@.fits(),
            moment.moved@.len() == old(self)@.observers.len(),
        ensures
            ({
                let reading = SensorView::new_reading(
                    encode_utf8(value@),
                    status,
                    None,
                    moment.wall@,
                );
                &&& final(self)@ == old(self)@.updated(reading, moment.now, moment.moved@)
                &&& notices_view(notices@) == all_notices(
                    old(self)@.observers,
                    reading,
                    moment.now,
                    moment.moved@,
                )
            }),
    {
        self.set_value(value.as_bytes_vec(), status, None, moment)
    }

    /// Whether every observer can be told of an update: the times that they wait between samples
    /// fit into durations.
    pub fn can_update(&self) -> (r: bool)
        ensures
            r == self@.fits(),
    {
        let mut i: usize = 0;
        while i < self.observers.len()
            invariant
                i <= self.observers@.len(),
                forall|k: int| 0 <= k < i ==> (#[trigger] self@.observers[k]).fits(),
            decreases self.observers@.len() - i,
        {
            let fits = match &self.observers[i] {
                Observer::Sampling(o) => o.strategy().is_representable(),
                Observer::External { handle: _, client: _ } => true,
            };
            assert(self@.observers[i as int] == self.observers@[i as int]@);
            if !fits {
                return false;
            }
            i = i + 1;
        }
        true
    }

    /// Read the current sensor value.
    pub fn read(&self) -> (r: SensorReading)
        ensures
            r@ == self@.reading,
    {
        self.reading.clone()
    }

    /// Read the current sensor value as formatted wire-protocol fields: timestamp, status and value.
    pub fn read_formatted(&self) -> (r: (Vec<u8>, Vec<u8>, Vec<u8>))
        ensures
            r.0@ == encode_utf8(self@.reading.timestamp.fixed),
            r.1@ == encode_utf8(self@.reading.status.name()),
            r.2@ == self@.reading.value,
    {
        (
            encode_timestamp(&self.reading.timestamp),
            self.reading.status.as_str().as_bytes_vec(),
            copy_bytes(&self.reading.value),
        )
    }

    /// Attach an observer to this sensor.
    pub fn attach(&mut self, observer: Observer)
        ensures
            final(self)@ == (SensorView {
                observers: old(self)@.observers.push(observer@),
                ..old(self)@
            }),
    {
        self.observers.push(observer);
        assert(observers_view(self.observers@) =~= old(self)@.observers.push(observer@));
    }

    /// Detach all observers belonging to a specific client.
    pub fn detach_client(&mut self, addr: &SocketAddress)
        ensures
            final(self)@ == (SensorView {
                observers: without_client(old(self)@.observers, addr@),
                ..old(self)@
            }),
    {
        let ghost before = self@;
        let ghost all = before.observers;
        let ghost mut seen: int = 0;
        let mut i: usize = 0;
        proof {
            assert(all.take(0) =~= Seq::<ObserverView>::empty());
            reveal(Seq::filter);
            assert(without_client(all.take(0), addr@) =~= seq![]);
            assert(self@.observers =~= without_client(all.take(0), addr@) + all.skip(0));
        }
        while i < self.observers.len()
            invariant
                i <= self.observers@.len(),
                0 <= seen <= all.len(),
                all == before.observers,
                i == without_client(all.take(seen), addr@).len(),
                self.observers@.len() - i == all.len() - seen,
                self@ == (SensorView {
                    observers: without_client(all.take(seen), addr@) + all.skip(seen),
                    ..before
                }),
            decreases all.len() - seen,
        {
            let foreign = match &self.observers[i] {
                Observer::Sampling(o) => !o.client_addr().same(addr),
                Observer::External { handle: _, client } => match client {
                    Some(c) => !c.same(addr),
                    None => true,
                },
            };
            let ghost kept = without_client(all.take(seen), addr@);
            let ghost o = all[seen];
            proof {
                assert(self@.observers[i as int] == o);
                assert(self.observers@[i as int]@ == o);
                assert(foreign == (o.client() != Some(addr@)));
                reveal(Seq::filter);
                assert(all.take(seen + 1).drop_last() =~= all.take(seen));
                assert(all.take(seen + 1).last() == o);
                assert(all.skip(seen) =~= seq![o] + all.skip(seen + 1));
            }
            if foreign {
                i = i + 1;
                assert(without_client(all.take(seen + 1), addr@) =~= kept.push(o));
            } else {
                let ghost prev = self.observers@;
                self.observers.remove(i);
                assert(observers_view(self.observers@) =~= observers_view(prev).remove(i as int));
                assert(without_client(all.take(seen + 1), addr@) =~= kept);
            }
            assert(self@.observers =~= without_client(all.take(seen + 1), addr@) + all.skip(
                seen + 1,
            ));
            proof {
                seen = seen + 1;
            }
        }
        assert(all.take(seen) =~= all);
        assert(self@.observers =~= without_client(all, addr@));
    }

    /// Get the type parameters string for sensor-list (e.g., min/max for int/float).
    pub fn params_str(&self) -> (text: String)
        ensures
            text@ == type_params(self@.katcp_type),
    {
        match &self.katcp_type {
            KatcpType::Int { min, max } => bounds(opt_int(min), opt_int(max)),
            KatcpType::Float { min, max } => bounds(opt_sci(min), opt_sci(max)),
            KatcpType::Discrete { values } => join(values),
            _ => {
                let text = String::new();
                assert(text@ =~= seq![]);
                text
            },
        }
    }
}

/// Among the observers of one client nothing changes when another client is detached, and none of
/// the detached client's observers is left.
pub proof fn detaching_is_isolated(
    os: Seq<ObserverView>,
    gone: SocketAddressView,
    other: SocketAddressView,
)
    requires
        gone != other,
    ensures
        of_client(without_client(os, gone), other) == of_client(os, other),
        of_client(without_client(os, gone), gone) == Seq::<ObserverView>::empty(),
    decreases os.len(),
{
    reveal(Seq::filter);
    if os.len() > 0 {
        let rest = os.drop_last();
        let o = os.last();
        detaching_is_isolated(rest, gone, other);
        let kept = without_client(rest, gone);
        if o.client() != Some(gone) {
            assert(without_client(os, gone) == kept.push(o));
            assert(kept.push(o).drop_last() =~= kept);
        }
    }
}

/// The notices that deliver something to a client.
pub open spec fn deliveries(ns: Seq<NoticeView>, addr: SocketAddressView) -> Seq<NoticeView> {
    ns.filter(|n: NoticeView| n matches NoticeView::Deliver { client, .. } && client == addr)
}

/// The observers that belong to a client, each with whether the value moved for it.
pub open spec fn own_observers(
    os: Seq<ObserverView>,
    moved: Seq<bool>,
    addr: SocketAddressView,
) -> Seq<(ObserverView, bool)>
    decreases os.len(),
{
    if os.len() == 0 {
        seq![]
    } else {
        let before = own_observers(os.drop_last(), moved, addr);
        if os.last().client() == Some(addr) {
            before.push((os.last(), moved[os.len() - 1]))
        } else {
            before
        }
    }
}

/// What a client's own observers have delivered to it.
pub open spec fn own_deliveries(
    own: Seq<(ObserverView, bool)>,
    reading: SensorReadingView,
    now: u128,
    addr: SocketAddressView,
) -> Seq<NoticeView>
    decreases own.len(),
{
    if own.len() == 0 {
        seq![]
    } else {
        own_deliveries(own.drop_last(), reading, now, addr) + deliveries(
            own.last().0.notice(reading, now, own.last().1),
            addr,
        )
    }
}

/// What is delivered to a client because of an update is what its own observers have delivered,
/// whoever else observes the sensor.
pub proof fn deliveries_rest_on_own_observers(
    os: Seq<ObserverView>,
    reading: SensorReadingView,
    now: u128,
    moved: Seq<bool>,
    addr: SocketAddressView,
)
    ensures
        deliveries(all_notices(os, reading, now, moved), addr) == own_deliveries(
            own_observers(os, moved, addr),
            reading,
            now,
            addr,
        ),
    decreases os.len(),
{
    let to_addr = |n: NoticeView|
        n matches NoticeView::Deliver { client, .. } && client == addr;
    if os.len() == 0 {
        reveal(Seq::filter);
        assert(all_notices(os, reading, now, moved).filter(to_addr) =~= seq![]);
    } else {
        let rest = os.drop_last();
        let o = os.last();
        let m = moved[os.len() - 1];
        let before = all_notices(rest, reading, now, moved);
        let last = o.notice(reading, now, m);
        deliveries_rest_on_own_observers(rest, reading, now, moved, addr);
        Seq::filter_distributes_over_add(before, last, to_addr);
        if o.client() == Some(addr) {
            let own = own_observers(rest, moved, addr);
            assert(own.push((o, m)).drop_last() =~= own);
        } else {
            assert(last.filter(to_addr) =~= seq![]) by {
                reveal_with_fuel(Seq::filter, 2);
                if last.len() > 0 {
                    assert(last.drop_last() =~= seq![]);
                }
            }
            assert(deliveries(before, addr) + Seq::<NoticeView>::empty() =~= deliveries(
                before,
                addr,
            ));
        }
    }
}

} // verus!
