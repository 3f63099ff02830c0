//! What holds of sampling over whole runs of updates: which updates a client is told of, stated by
//! the updates themselves, for every strategy; and how strategies are read.

use vstd::prelude::*;
use vstd::utf8::encode_utf8;
use crate::message::MessageType;
use crate::sampling::observer_run;
use crate::sampling::read_strategy;
use crate::sampling::IntervalView;
use crate::sampling::ParameterView;
use crate::sampling::SamplingObserverView;
use crate::sampling::StrategyView;
use crate::sensor::SensorReadingView;

verus! {

/// Whether an observer has sent nothing yet.
pub open spec fn is_new(o: SamplingObserverView) -> bool {
    o.state.last_sent is None && o.state.last_value is None
}

/// Whether the `i`th of a run of updates is sent.
pub open spec fn is_sent(
    o: SamplingObserverView,
    updates: Seq<(SensorReadingView, u128, bool)>,
    i: int,
) -> bool {
    observer_run(o, updates.take(i)).sends(updates[i].0, updates[i].1, updates[i].2)
}

/// The values that are sent of a run of updates, in order.
pub open spec fn sent_values(
    o: SamplingObserverView,
    updates: Seq<(SensorReadingView, u128, bool)>,
) -> Seq<Seq<u8>>
    decreases updates.len(),
{
    if updates.len() == 0 {
        seq![]
    } else {
        let before = sent_values(o, updates.drop_last());
        if is_sent(o, updates, updates.len() - 1) {
            before.push(updates.last().0.value)
        } else {
            before
        }
    }
}

/// Values without those that repeat the one just before them.
pub open spec fn without_repeats(values: Seq<Seq<u8>>) -> Seq<Seq<u8>>
    decreases values.len(),
{
    if values.len() == 0 {
        seq![]
    } else {
        let before = without_repeats(values.drop_last());
        if values.len() == 1 || values[values.len() - 2] != values.last() {
            before.push(values.last())
        } else {
            before
        }
    }
}

/// How many nanoseconds lie between two times of a clock that never goes back.
pub open spec fn time_between(from: u128, to: u128) -> int {
    if to >= from {
        to - from
    } else {
        0
    }
}

/// Whether so much time makes an interval of whole seconds and nanoseconds on top of them.
pub open spec fn lasts(time: int, pause: IntervalView) -> bool {
    time >= pause.secs * 1_000_000_000 + pause.nanos
}

/// The strategy, the sensor and the client of an observer never change.
proof fn lemma_observer_keeps(
    o: SamplingObserverView,
    updates: Seq<(SensorReadingView, u128, bool)>,
)
    ensures
        observer_run(o, updates).strategy == o.strategy,
        observer_run(o, updates).sensor_name == o.sensor_name,
        observer_run(o, updates).client_addr == o.client_addr,
    decreases updates.len(),
{
    if updates.len() > 0 {
        lemma_observer_keeps(o, updates.drop_last());
    }
}

/// While nothing is sent, an observer stays as it was.
proof fn lemma_nothing_sent(
    o: SamplingObserverView,
    updates: Seq<(SensorReadingView, u128, bool)>,
    from: int,
    to: int,
)
    requires
        0 <= from <= to <= updates.len(),
        forall|k: int| from <= k < to ==> !is_sent(o, updates, k),
    ensures
        observer_run(o, updates.take(to)) == observer_run(o, updates.take(from)),
    decreases to - from,
{
    if from < to {
        lemma_nothing_sent(o, updates, from, to - 1);
        let before = updates.take(to);
        assert(before.drop_last() =~= updates.take(to - 1));
        assert(before.last() == updates[to - 1]);
        assert(!is_sent(o, updates, to - 1));
    }
}

/// As long as nothing was sent, the next update is sent by every strategy but `none`.
pub proof fn first_sample(
    o: SamplingObserverView,
    updates: Seq<(SensorReadingView, u128, bool)>,
    j: int,
)
    requires
        is_new(o),
        0 <= j < updates.len(),
        forall|k: int| 0 <= k < j ==> !is_sent(o, updates, k),
    ensures
        is_sent(o, updates, j) == !(o.strategy is NoSampling),
{
    lemma_nothing_sent(o, updates, 0, j);
    assert(updates.take(0) =~= Seq::empty());
}

/// After the `i`th update was sent and none since, whether the `j`th is sent is told by the two
/// updates alone: of `auto` and `event`, where their values differ; of `period`, where the period has
/// gone by; of `differential`, where the value moved by the difference; of the rates, where moreover
/// the shortest time has gone by; of `none`, never.
pub proof fn next_sample(
    o: SamplingObserverView,
    updates: Seq<(SensorReadingView, u128, bool)>,
    i: int,
    j: int,
)
    requires
        0 <= i < j < updates.len(),
        is_sent(o, updates, i),
        forall|k: int| i < k < j ==> !is_sent(o, updates, k),
    ensures
        ({
            let differs = updates[j].0.value != updates[i].0.value;
            let gone = time_between(updates[i].1, updates[j].1);
            let moved = updates[j].2;
            is_sent(o, updates, j) == match o.strategy {
                StrategyView::NoSampling => false,
                StrategyView::Auto => differs,
                StrategyView::Event => differs,
                StrategyView::Period(p) => lasts(gone, p),
                StrategyView::Differential(_) => moved,
                StrategyView::EventRate(shortest, _) => differs && lasts(gone, shortest),
                StrategyView::DifferentialRate(_, shortest, _) => moved && lasts(gone, shortest),
            }
        }),
{
    lemma_observer_keeps(o, updates.take(i));
    let upto = updates.take(i + 1);
    assert(upto.drop_last() =~= updates.take(i));
    assert(upto.last() == updates[i]);
    lemma_nothing_sent(o, updates, i + 1, j);
    lemma_observer_keeps(o, updates.take(j));
}

/// Of `auto` and `event` the values that are sent of a run of updates are the run's values without
/// those that repeat the one just before them.
pub proof fn changes_are_sent(
    o: SamplingObserverView,
    updates: Seq<(SensorReadingView, u128, bool)>,
)
    requires
        is_new(o),
        o.strategy is Auto || o.strategy is Event,
    ensures
        sent_values(o, updates) == without_repeats(
            updates.map_values(|u: (SensorReadingView, u128, bool)| u.0.value),
        ),
{
    lemma_changes(o, updates);
}

/// Of `auto` and `event` the value that was sent last is that of the last update.
proof fn lemma_changes(o: SamplingObserverView, updates: Seq<(SensorReadingView, u128, bool)>)
    requires
        is_new(o),
        o.strategy is Auto || o.strategy is Event,
    ensures
        sent_values(o, updates) == without_repeats(
            updates.map_values(|u: (SensorReadingView, u128, bool)| u.0.value),
        ),
        updates.len() > 0 ==> observer_run(o, updates).state.last_value == Some(
            updates.last().0.value,
        ),
        updates.len() == 0 ==> observer_run(o, updates).state.last_value is None,
    decreases updates.len(),
{
    let value = |u: (SensorReadingView, u128, bool)| u.0.value;
    let values = updates.map_values(value);
    if updates.len() > 0 {
        let rest = updates.drop_last();
        lemma_changes(o, rest);
        lemma_observer_keeps(o, rest);
        assert(values.drop_last() =~= rest.map_values(value));
        assert(updates.take(updates.len() - 1) =~= rest);
        if rest.len() > 0 {
            assert(values[values.len() - 2] == rest.last().0.value);
        }
    } else {
        assert(values =~= seq![]);
    }
}

/// An update leaves of an observer what it samples, for whom and how; and what it remembers is the
/// update, if that was sent, and else what it remembered before.
pub proof fn observers_remember_what_they_sent(
    o: SamplingObserverView,
    reading: SensorReadingView,
    now: u128,
    moved: bool,
)
    ensures
        ({
            let after = o.after(reading, now, moved);
            &&& after.sensor_name == o.sensor_name
            &&& after.client_addr == o.client_addr
            &&& after.strategy == o.strategy
            &&& o.sends(reading, now, moved) ==> after.state.last_sent == Some(now)
                && after.state.last_value == Some(reading.value)
            &&& !o.sends(reading, now, moved) ==> after == o
        }),
{
}

/// The inform of an update carries, in this order, the time of the reading, how many sensors it
/// tells of, the sensor's name, the status and the value, and belongs to no request.
pub proof fn informs_carry_the_reading(o: SamplingObserverView, reading: SensorReadingView)
    ensures
        ({
            let m = o.status_inform(reading);
            &&& m.mtype == MessageType::Inform
            &&& m.name == "sensor-status"@
            &&& m.mid is None
            &&& m.arguments.len() == 5
            &&& m.arguments[0] == encode_utf8(reading.timestamp.fixed)
            &&& m.arguments[1] == encode_utf8("1"@)
            &&& m.arguments[2] == encode_utf8(o.sensor_name)
            &&& m.arguments[3] == encode_utf8(reading.status.name())
            &&& m.arguments[4] == reading.value
        }),
{
}

/// How many parameters a strategy of a name takes; `None` where no strategy has the name.
pub open spec fn parameter_count(name: Seq<char>) -> Option<nat> {
    if name == "none"@ || name == "auto"@ || name == "event"@ {
        Some(0)
    } else if name == "period"@ || name == "differential"@ {
        Some(1)
    } else if name == "event-rate"@ {
        Some(2)
    } else if name == "differential-rate"@ {
        Some(3)
    } else {
        None
    }
}

/// A strategy is read if and only if there is one of the name, and each of the parameters that it
/// takes is there and reads as a number; further parameters are ignored. It has the name, it samples
/// differences by the first parameter where its name says so, and its times are the next two.
pub proof fn strategies_are_read_from_their_parameters(
    name: Seq<char>,
    ps: Seq<Option<ParameterView>>,
)
    ensures
        read_strategy(name, ps) is Some <==> (parameter_count(name) matches Some(n) && n <= ps.len()
            && forall|i: int| 0 <= i < n ==> (#[trigger] ps[i]) is Some),
        read_strategy(name, ps) matches Some(s) ==> {
            &&& s.name() == name
            &&& s is Period ==> s.pause() == Some(ps[0]->0.interval)
            &&& s is EventRate ==> s.pause() == Some(ps[0]->0.interval)
            &&& s is DifferentialRate ==> s.pause() == Some(ps[1]->0.interval)
            &&& s matches StrategyView::Differential(d) ==> d == ps[0]->0.number
            &&& s matches StrategyView::DifferentialRate(d, _, _) ==> d == ps[0]->0.number
            &&& !(s is Period || s is EventRate || s is DifferentialRate) ==> s.pause() is None
        },
{
    reveal_strlit("none");
    reveal_strlit("auto");
    reveal_strlit("event");
    reveal_strlit("period");
    reveal_strlit("differential");
    reveal_strlit("event-rate");
    reveal_strlit("differential-rate");
    assert("none"@.len() == 4 && "auto"@.len() == 4 && "event"@.len() == 5);
    assert("none"@[0] != "auto"@[0]);
    assert("period"@.len() == 6 && "differential"@.len() == 12);
    assert("event-rate"@.len() == 10 && "differential-rate"@.len() == 17);
    let n = parameter_count(name);
    if n is Some && n->0 <= ps.len() && forall|i: int| 0 <= i < n->0 ==> (#[trigger] ps[i]) is Some {
        if n->0 > 0 {
            assert(ps[0] is Some);
        }
        if n->0 > 1 {
            assert(ps[1] is Some);
        }
        if n->0 > 2 {
            assert(ps[2] is Some);
        }
    }
    if read_strategy(name, ps) is Some {
        assert forall|i: int| 0 <= i < n->0 implies (#[trigger] ps[i]) is Some by {
            assert(i == 0 || i == 1 || i == 2);
        }
    }
}

/// What a strategy shows of its parameters is what it was read from, in order: a difference in its
/// shortest form, a time with six digits behind the point, a space between each two.
pub proof fn strategies_show_their_parameters(
    name: Seq<char>,
    ps: Seq<Option<ParameterView>>,
    s: StrategyView,
)
    requires
        read_strategy(name, ps) == Some(s),
    ensures
        parameter_count(name) == Some(0nat) ==> s.params() == Seq::<char>::empty(),
        name == "period"@ ==> s.params() == ps[0]->0.interval.text,
        name == "differential"@ ==> s.params() == ps[0]->0.number.display,
        name == "event-rate"@ ==> s.params() == ps[0]->0.interval.text + seq![' ']
            + ps[1]->0.interval.text,
        name == "differential-rate"@ ==> s.params() == ps[0]->0.number.display + seq![' ']
            + ps[1]->0.interval.text + seq![' '] + ps[2]->0.interval.text,
{
    strategies_are_read_from_their_parameters(name, ps);
    reveal_strlit("none");
    reveal_strlit("auto");
    reveal_strlit("event");
    reveal_strlit("period");
    reveal_strlit("differential");
    reveal_strlit("event-rate");
    reveal_strlit("differential-rate");
    assert("none"@.len() == 4 && "auto"@.len() == 4 && "event"@.len() == 5);
    assert("period"@.len() == 6 && "differential"@.len() == 12);
    assert("event-rate"@.len() == 10 && "differential-rate"@.len() == 17);
}

/// A length of time fits into a duration if and only if it is less than so many nanoseconds as
/// 2^64 seconds have; a strategy fits if and only if the time that it waits does.
pub proof fn what_fits_is_less_than_all_seconds(p: IntervalView, s: StrategyView)
    ensures
        p.fits() <==> p.secs * 1_000_000_000 + p.nanos < 0x1_0000_0000_0000_0000 * 1_000_000_000,
        s.fits() <==> (s.pause() matches Some(q) ==> q.fits()),
        p.in_nanos() == p.secs * 1_000_000_000 + p.nanos,
{
}

} // verus!
