//! What holds of sensors: what is told of their types, who is told of an update and of what, and that
//! one client's observers are told apart from all others.

use vstd::prelude::*;
use crate::address::SocketAddressView;
use crate::decimal::int_text;
use crate::float::Float64View;
use crate::sampling::observer_run;
use crate::sampling::SamplingObserverView;
use crate::sampling_laws::is_sent;
use crate::sensor::all_notices;
use crate::sensor::deliveries;
use crate::sensor::joined;
use crate::sensor::type_params;
use crate::sensor::without_client;
use crate::sensor::NoticeView;
use crate::sensor::ObserverView;
use crate::sensor::SensorReadingView;
use crate::sensor::SensorStatus;
use crate::sensor::SensorType;
use crate::sensor::SensorView;
use crate::text::text_words;
use crate::text_laws::is_solid;
use crate::text_laws::lemma_int_text_is_solid;
use crate::text_laws::solid_text_is_one_word;
use crate::text_laws::white_space_parts_words;
use crate::types::KatcpTypeView;
use crate::wire::wire;

verus! {

/// Texts are joined with a space between each two and none before the first or behind the last: those
/// of two lists, one behind the other, are those of the first, a space and those of the second.
pub proof fn joining_parts(a: Seq<Seq<char>>, b: Seq<Seq<char>>, x: Seq<char>)
    ensures
        joined(Seq::<Seq<char>>::empty()) == Seq::<char>::empty(),
        joined(seq![x]) == x,
        a.len() > 0 && b.len() > 0 ==> joined(a + b) == joined(a) + seq![' '] + joined(b),
    decreases b.len(),
{
    if a.len() > 0 && b.len() > 0 {
        let rest = b.drop_last();
        assert((a + b).drop_last() =~= a + rest);
        assert((a + b).last() == b.last());
        if rest.len() > 0 {
            joining_parts(a, rest, x);
            assert(joined(a + b) =~= joined(a) + seq![' '] + joined(b));
        } else {
            assert(a + rest =~= a);
            assert(joined(b) == b.last());
        }
    }
}

/// Joined texts, none of which is empty or holds white space, have these texts as their words, all of
/// them and in order.
pub proof fn joined_texts_are_the_words(list: Seq<Seq<char>>)
    requires
        forall|i: int| 0 <= i < list.len() ==> (#[trigger] list[i]).len() > 0 && is_solid(list[i]),
    ensures
        text_words(joined(list)) == list,
    decreases list.len(),
{
    if list.len() == 0 {
        solid_text_is_one_word(joined(list));
        assert(text_words(joined(list)) =~= list);
    } else if list.len() == 1 {
        assert(list[0].len() > 0);
        solid_text_is_one_word(list[0]);
        assert(seq![list[0]] =~= list);
    } else {
        let rest = list.drop_last();
        assert forall|i: int| 0 <= i < rest.len() implies (#[trigger] rest[i]).len() > 0 && is_solid(
            rest[i],
        ) by {
            assert(rest[i] == list[i]);
        }
        joined_texts_are_the_words(rest);
        let last = list[list.len() - 1];
        assert(last.len() > 0 && is_solid(last));
        solid_text_is_one_word(last);
        white_space_parts_words(joined(rest), ' ', last);
        assert(rest + seq![last] =~= list);
    }
}

/// The parameters of a discrete type, none of whose values is empty or holds white space, are its
/// values, all of them and in order.
pub proof fn discrete_parameters_are_the_values(values: Seq<Seq<char>>)
    requires
        forall|i: int|
            0 <= i < values.len() ==> (#[trigger] values[i]).len() > 0 && is_solid(values[i]),
    ensures
        text_words(type_params(KatcpTypeView::Discrete { values })) == values,
{
    joined_texts_are_the_words(values);
}

/// The texts that are there, in order.
pub open spec fn present(lo: Option<Seq<char>>, hi: Option<Seq<char>>) -> Seq<Seq<char>> {
    match (lo, hi) {
        (Some(a), Some(b)) => seq![a, b],
        (Some(a), None) => seq![a],
        (None, Some(b)) => seq![b],
        (None, None) => seq![],
    }
}

/// Bounds that are there, and hold no white space, are the words of their range, the lower one first.
proof fn lemma_bounds(lo: Option<Seq<char>>, hi: Option<Seq<char>>, text: Seq<char>)
    requires
        lo matches Some(a) ==> a.len() > 0 && is_solid(a),
        hi matches Some(b) ==> b.len() > 0 && is_solid(b),
        text == crate::sensor::bounds_text(lo, hi),
    ensures
        text_words(text) == present(lo, hi),
{
    match (lo, hi) {
        (Some(a), Some(b)) => {
            solid_text_is_one_word(a);
            solid_text_is_one_word(b);
            white_space_parts_words(a, ' ', b);
            assert(seq![a] + seq![b] =~= seq![a, b]);
        },
        (Some(a), None) => solid_text_is_one_word(a),
        (None, Some(b)) => solid_text_is_one_word(b),
        (None, None) => solid_text_is_one_word(text),
    }
}

/// The parameters of an integer type are the decimal texts of its bounds, the lower one first, as far
/// as there are any.
pub proof fn integer_parameters_are_the_bounds(min: Option<i64>, max: Option<i64>)
    ensures
        text_words(type_params(KatcpTypeView::Int { min, max })) == present(
            if min is Some {
                Some(int_text(min->0 as int))
            } else {
                None
            },
            if max is Some {
                Some(int_text(max->0 as int))
            } else {
                None
            },
        ),
{
    let lo = if min is Some { Some(int_text(min->0 as int)) } else { None };
    let hi = if max is Some { Some(int_text(max->0 as int)) } else { None };
    lemma_int_text_is_solid(min->0 as int);
    lemma_int_text_is_solid(max->0 as int);
    lemma_bounds(lo, hi, type_params(KatcpTypeView::Int { min, max }));
}

/// The parameters of a floating-point type are the scientific forms of its bounds, the lower one first,
/// as far as there are any.
pub proof fn float_parameters_are_the_bounds(min: Option<Float64View>, max: Option<Float64View>)
    requires
        min matches Some(m) ==> m.scientific.len() > 0 && is_solid(m.scientific),
        max matches Some(m) ==> m.scientific.len() > 0 && is_solid(m.scientific),
    ensures
        text_words(type_params(KatcpTypeView::Float { min, max })) == present(
            if min is Some {
                Some(min->0.scientific)
            } else {
                None
            },
            if max is Some {
                Some(max->0.scientific)
            } else {
                None
            },
        ),
{
    let lo = if min is Some { Some(min->0.scientific) } else { None };
    let hi = if max is Some { Some(max->0.scientific) } else { None };
    lemma_bounds(lo, hi, type_params(KatcpTypeView::Float { min, max }));
}

/// Other types have no parameters.
pub proof fn other_types_have_no_parameters(t: KatcpTypeView)
    requires
        !(t is Int) && !(t is Float) && !(t is Discrete),
    ensures
        text_words(type_params(t)) == Seq::<Seq<char>>::empty(),
{
    solid_text_is_one_word(type_params(t));
}

/// What an observer has done because of an update: a client that samples is sent the inform if and
/// only if its observer sends the update; an observer outside the library is always told.
pub open spec fn told(
    o: ObserverView,
    reading: SensorReadingView,
    now: u128,
    moved: bool,
) -> Seq<NoticeView> {
    match o {
        ObserverView::Sampling(x) => if x.sends(reading, now, moved) {
            seq![
                NoticeView::Deliver {
                    client: x.client_addr,
                    bytes: wire(x.status_inform(reading)),
                },
            ]
        } else {
            seq![]
        },
        ObserverView::External { handle, client } => seq![NoticeView::Call { handle }],
    }
}

/// The observers of a sensor are told of an update one after the other, each by what concerns it alone.
pub proof fn observers_are_told_one_by_one(
    a: Seq<ObserverView>,
    b: Seq<ObserverView>,
    o: ObserverView,
    reading: SensorReadingView,
    now: u128,
    moved: Seq<bool>,
)
    ensures
        all_notices(Seq::<ObserverView>::empty(), reading, now, moved) == Seq::<NoticeView>::empty(),
        all_notices(seq![o], reading, now, moved) == told(o, reading, now, moved[0]),
        a.len() + b.len() <= moved.len() ==> all_notices(a + b, reading, now, moved) == all_notices(
            a,
            reading,
            now,
            moved,
        ) + all_notices(b, reading, now, moved.skip(a.len() as int)),
    decreases b.len(),
{
    let none = Seq::<ObserverView>::empty();
    assert(all_notices(none, reading, now, moved) =~= seq![]);
    assert(seq![o].drop_last() =~= none);
    assert(all_notices(seq![o], reading, now, moved) =~= told(o, reading, now, moved[0]));
    if a.len() + b.len() <= moved.len() {
        let later = moved.skip(a.len() as int);
        if b.len() == 0 {
            assert(a + b =~= a);
            assert(all_notices(b, reading, now, later) =~= seq![]);
            assert(all_notices(a, reading, now, moved) + Seq::<NoticeView>::empty() =~= all_notices(
                a,
                reading,
                now,
                moved,
            ));
        } else {
            let rest = b.drop_last();
            observers_are_told_one_by_one(a, rest, o, reading, now, moved);
            assert((a + b).drop_last() =~= a + rest);
            assert((a + b).last() == b.last());
            assert(later[b.len() - 1] == moved[a.len() + b.len() - 1]);
            assert(all_notices(a + b, reading, now, moved) =~= all_notices(a, reading, now, moved)
                + all_notices(b, reading, now, later));
        }
    }
}

/// An update leaves a sensor what it is; its reading is the new one, and it has the same observers, of
/// which each that samples has been told.
pub proof fn updates_change_the_reading(
    s: SensorView,
    reading: SensorReadingView,
    now: u128,
    moved: Seq<bool>,
)
    ensures
        ({
            let after = s.updated(reading, now, moved);
            &&& after.name == s.name
            &&& after.description == s.description
            &&& after.units == s.units
            &&& after.sensor_type == s.sensor_type
            &&& after.katcp_type == s.katcp_type
            &&& after.reading == reading
            &&& after.observers.len() == s.observers.len()
            &&& forall|i: int|
                0 <= i < s.observers.len() ==> match s.observers[i] {
                    ObserverView::Sampling(x) => #[trigger] after.observers[i]
                        == ObserverView::Sampling(x.after(reading, now, moved[i])),
                    ObserverView::External { handle, client } => after.observers[i]
                        == s.observers[i],
                }
        }),
{
}

/// The reading that an update makes has the value and the status that were given, and the time that
/// was given, or else the time of day.
pub proof fn readings_hold_what_was_given(
    value: Seq<u8>,
    status: SensorStatus,
    time: Float64View,
    wall: Float64View,
)
    ensures
        SensorView::new_reading(value, status, Some(time), wall) == (SensorReadingView {
            timestamp: time,
            status,
            value,
        }),
        SensorView::new_reading(value, status, None, wall) == (SensorReadingView {
            timestamp: wall,
            status,
            value,
        }),
{
}

/// The client that an observer belongs to.
pub open spec fn owner(o: ObserverView) -> Option<SocketAddressView> {
    match o {
        ObserverView::Sampling(x) => Some(x.client_addr),
        ObserverView::External { handle, client } => client,
    }
}

/// Detaching a client takes away the observers that belong to it and no other, and leaves the rest in
/// order: it does so one by one.
pub proof fn detaching_goes_one_by_one(
    a: Seq<ObserverView>,
    b: Seq<ObserverView>,
    o: ObserverView,
    addr: SocketAddressView,
)
    ensures
        without_client(a + b, addr) == without_client(a, addr) + without_client(b, addr),
        without_client(seq![o], addr) == (if owner(o) == Some(addr) {
            Seq::<ObserverView>::empty()
        } else {
            seq![o]
        }),
{
    let foreign = |x: ObserverView| x.client() != Some(addr);
    Seq::filter_distributes_over_add(a, b, foreign);
    reveal_with_fuel(Seq::filter, 2);
    assert(seq![o].drop_last() =~= Seq::<ObserverView>::empty());
    assert(without_client(seq![o], addr) =~= (if owner(o) == Some(addr) {
        Seq::<ObserverView>::empty()
    } else {
        seq![o]
    }));
}

/// Where none of the observers belongs to a client, nothing is delivered to it.
proof fn lemma_nothing_delivered(
    os: Seq<ObserverView>,
    reading: SensorReadingView,
    now: u128,
    moved: Seq<bool>,
    addr: SocketAddressView,
)
    requires
        forall|j: int| 0 <= j < os.len() ==> owner(#[trigger] os[j]) != Some(addr),
    ensures
        deliveries(all_notices(os, reading, now, moved), addr) == Seq::<NoticeView>::empty(),
    decreases os.len(),
{
    if os.len() > 0 {
        let rest = os.drop_last();
        assert forall|j: int| 0 <= j < rest.len() implies owner(#[trigger] rest[j]) != Some(
            addr,
        ) by {
            assert(rest[j] == os[j]);
        }
        lemma_nothing_delivered(rest, reading, now, moved, addr);
        assert(owner(os[os.len() - 1]) != Some(addr));
        let before = all_notices(rest, reading, now, moved);
        let m = moved[os.len() - 1];
        lemma_foreign_notice(os.last(), reading, now, m, addr);
        lemma_deliveries_add(before, os.last().notice(reading, now, m), addr);
        assert(Seq::<NoticeView>::empty() + Seq::<NoticeView>::empty() =~= Seq::<
            NoticeView,
        >::empty());
    } else {
        assert(all_notices(os, reading, now, moved) =~= seq![]);
        lemma_one_delivery(seq![], addr);
    }
}

/// What is delivered to a client of notices one behind the other.
proof fn lemma_deliveries_add(n1: Seq<NoticeView>, n2: Seq<NoticeView>, addr: SocketAddressView)
    ensures
        deliveries(n1 + n2, addr) == deliveries(n1, addr) + deliveries(n2, addr),
{
    let to_addr = |n: NoticeView| n matches NoticeView::Deliver { client, .. } && client == addr;
    Seq::filter_distributes_over_add(n1, n2, to_addr);
}

/// One notice for a client is delivered to it.
proof fn lemma_one_delivery(bytes: Seq<u8>, addr: SocketAddressView)
    ensures
        ({
            let n = seq![NoticeView::Deliver { client: addr, bytes }];
            deliveries(n, addr) == n
        }),
        deliveries(Seq::<NoticeView>::empty(), addr) == Seq::<NoticeView>::empty(),
{
    let n = seq![NoticeView::Deliver { client: addr, bytes }];
    reveal_with_fuel(Seq::filter, 2);
    assert(n.drop_last() =~= seq![]);
    assert(deliveries(n, addr) =~= n);
    assert(deliveries(Seq::<NoticeView>::empty(), addr) =~= Seq::<NoticeView>::empty());
}

/// A client that has one observer on a sensor, which samples, is sent the inform of an update if and
/// only if that observer sends it, once, and nothing else, whoever else observes the sensor.
pub proof fn one_sampler_decides(
    os: Seq<ObserverView>,
    p: int,
    x: SamplingObserverView,
    reading: SensorReadingView,
    now: u128,
    moved: Seq<bool>,
)
    requires
        0 <= p < os.len(),
        moved.len() >= os.len(),
        os[p] == ObserverView::Sampling(x),
        forall|j: int| 0 <= j < os.len() && j != p ==> owner(#[trigger] os[j]) != Some(x.client_addr),
    ensures
        deliveries(all_notices(os, reading, now, moved), x.client_addr) == (if x.sends(
            reading,
            now,
            moved[p],
        ) {
            seq![
                NoticeView::Deliver {
                    client: x.client_addr,
                    bytes: wire(x.status_inform(reading)),
                },
            ]
        } else {
            Seq::<NoticeView>::empty()
        }),
    decreases os.len(),
{
    let addr = x.client_addr;
    let rest = os.drop_last();
    let last = os.last();
    let m = moved[os.len() - 1];
    let before = all_notices(rest, reading, now, moved);
    let new = last.notice(reading, now, m);
    assert(all_notices(os, reading, now, moved) == before + new);
    lemma_deliveries_add(before, new, addr);
    let none = Seq::<NoticeView>::empty();
    if p == os.len() - 1 {
        assert forall|j: int| 0 <= j < rest.len() implies owner(#[trigger] rest[j]) != Some(
            addr,
        ) by {
            assert(rest[j] == os[j]);
        }
        lemma_nothing_delivered(rest, reading, now, moved, addr);
        lemma_one_delivery(wire(x.status_inform(reading)), addr);
        assert(new == told(last, reading, now, m));
        assert(deliveries(new, addr) == new);
        assert(none + new =~= new);
    } else {
        assert forall|j: int| 0 <= j < rest.len() && j != p implies owner(#[trigger] rest[j])
            != Some(addr) by {
            assert(rest[j] == os[j]);
        }
        one_sampler_decides(rest, p, x, reading, now, moved);
        assert(owner(os[os.len() - 1]) != Some(addr));
        lemma_foreign_notice(last, reading, now, m, addr);
        assert(deliveries(before, addr) + none =~= deliveries(before, addr));
    }
}

/// Of what an observer that does not belong to a client has done, nothing is delivered to the client.
proof fn lemma_foreign_notice(
    o: ObserverView,
    reading: SensorReadingView,
    now: u128,
    moved: bool,
    addr: SocketAddressView,
)
    requires
        owner(o) != Some(addr),
    ensures
        deliveries(o.notice(reading, now, moved), addr) == Seq::<NoticeView>::empty(),
{
    let n = o.notice(reading, now, moved);
    reveal_with_fuel(Seq::filter, 2);
    if n.len() > 0 {
        assert(n.drop_last() =~= seq![]);
    }
    assert(deliveries(n, addr) =~= Seq::<NoticeView>::empty());
}

/// The sensor after a run of updates.
pub open spec fn sensor_run(
    s: SensorView,
    updates: Seq<(SensorReadingView, u128, Seq<bool>)>,
) -> SensorView
    decreases updates.len(),
{
    if updates.len() == 0 {
        s
    } else {
        let (reading, now, moved) = updates.last();
        sensor_run(s, updates.drop_last()).updated(reading, now, moved)
    }
}

/// A run of updates as the `p`th observer sees it.
pub open spec fn seen_by(
    updates: Seq<(SensorReadingView, u128, Seq<bool>)>,
    p: int,
) -> Seq<(SensorReadingView, u128, bool)> {
    updates.map_values(|u: (SensorReadingView, u128, Seq<bool>)| (u.0, u.1, u.2[p]))
}

/// A run of updates leaves a sensor its observers, and each that samples has seen the run.
proof fn lemma_sensor_run(
    s: SensorView,
    updates: Seq<(SensorReadingView, u128, Seq<bool>)>,
    p: int,
    x: SamplingObserverView,
)
    requires
        0 <= p < s.observers.len(),
        s.observers[p] == ObserverView::Sampling(x),
        forall|j: int|
            0 <= j < s.observers.len() && j != p ==> owner(#[trigger] s.observers[j]) != Some(
                x.client_addr,
            ),
    ensures
        ({
            let after = sensor_run(s, updates);
            &&& after.observers.len() == s.observers.len()
            &&& after.observers[p] == ObserverView::Sampling(
                observer_run(x, seen_by(updates, p)),
            )
            &&& observer_run(x, seen_by(updates, p)).client_addr == x.client_addr
            &&& observer_run(x, seen_by(updates, p)).sensor_name == x.sensor_name
            &&& forall|j: int|
                0 <= j < s.observers.len() && j != p ==> owner(#[trigger] after.observers[j]) != Some(
                    x.client_addr,
                )
        }),
    decreases updates.len(),
{
    if updates.len() > 0 {
        let rest = updates.drop_last();
        lemma_sensor_run(s, rest, p, x);
        let seen = seen_by(updates, p);
        assert(seen.drop_last() =~= seen_by(rest, p));
        let before = sensor_run(s, rest);
        let after = sensor_run(s, updates);
        assert forall|j: int| 0 <= j < s.observers.len() && j != p implies owner(
            #[trigger] after.observers[j],
        ) != Some(x.client_addr) by {
            assert(owner(before.observers[j]) != Some(x.client_addr));
        }
    }
}

/// Over a whole run of updates a client that has one observer on a sensor, which samples, is sent the
/// inform of each update that the observer's strategy sends, and nothing else.
pub proof fn a_sampler_is_followed_through_a_run(
    s: SensorView,
    updates: Seq<(SensorReadingView, u128, Seq<bool>)>,
    p: int,
    x: SamplingObserverView,
    j: int,
)
    requires
        0 <= p < s.observers.len(),
        s.observers[p] == ObserverView::Sampling(x),
        forall|k: int|
            0 <= k < s.observers.len() && k != p ==> owner(#[trigger] s.observers[k]) != Some(
                x.client_addr,
            ),
        0 <= j < updates.len(),
        updates[j].2.len() == s.observers.len(),
    ensures
        deliveries(
            all_notices(
                sensor_run(s, updates.take(j)).observers,
                updates[j].0,
                updates[j].1,
                updates[j].2,
            ),
            x.client_addr,
        ) == (if is_sent(x, seen_by(updates, p), j) {
            seq![
                NoticeView::Deliver {
                    client: x.client_addr,
                    bytes: wire(x.status_inform(updates[j].0)),
                },
            ]
        } else {
            Seq::<NoticeView>::empty()
        }),
{
    lemma_sensor_run(s, updates.take(j), p, x);
    let seen = seen_by(updates, p);
    assert(seen.take(j) =~= seen_by(updates.take(j), p));
    let now = observer_run(x, seen.take(j));
    let before = sensor_run(s, updates.take(j));
    one_sampler_decides(before.observers, p, now, updates[j].0, updates[j].1, updates[j].2);
    assert(now.status_inform(updates[j].0) == x.status_inform(updates[j].0));
}

/// The seven statuses and their names.
pub proof fn statuses_have_their_names(status: SensorStatus)
    ensures
        status.name() == (match status {
            SensorStatus::Unknown => "unknown"@,
            SensorStatus::Nominal => "nominal"@,
            SensorStatus::Warn => "warn"@,
            SensorStatus::Error => "error"@,
            SensorStatus::Failure => "failure"@,
            SensorStatus::Unreachable => "unreachable"@,
            SensorStatus::Inactive => "inactive"@,
        }),
{
}

/// A sensor that was just made is what was given, reads the value that was given, of unknown status and
/// at time zero, and is observed by nobody.
pub proof fn new_sensors_hold_what_was_given(
    name: Seq<char>,
    description: Seq<char>,
    units: Seq<char>,
    sensor_type: SensorType,
    katcp_type: KatcpTypeView,
    value: Seq<u8>,
)
    ensures
        ({
            let s = SensorView::fresh(name, description, units, sensor_type, katcp_type, value);
            &&& s.name == name
            &&& s.description == description
            &&& s.units == units
            &&& s.sensor_type == sensor_type
            &&& s.katcp_type == katcp_type
            &&& s.reading.value == value
            &&& s.reading.status == SensorStatus::Unknown
            &&& s.reading.timestamp.bits == 0
            &&& s.observers.len() == 0
        }),
{
}

} // verus!
