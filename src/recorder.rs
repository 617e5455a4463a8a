//! A recorder: a sink that samples its input bus once per tick and keeps the
//! time series.
use vstd::prelude::*;
use crate::signal::{SigTrait, RefSignal, ValueStore};
use crate::bus::RefBus;

verus! {

/// Records the times of the ticks and, for each signal of its input bus, the
/// values it read. `V` is the type of times and values.
#[derive(Debug)]
pub struct SimRecorder<V> {
    timedata: Vec<V>,
    storage: Vec<Vec<V>>,
    input_bus: RefBus,
}

impl<V: Copy> SimRecorder<V> {
    pub closed spec fn spec_times(&self) -> Seq<V> {
        self.timedata@
    }

    /// The values recorded for the `i`-th signal of the input bus.
    pub closed spec fn spec_series(&self, i: int) -> Seq<V> {
        self.storage@[i]@
    }

    /// Number of series kept.
    pub closed spec fn spec_signum(&self) -> nat {
        self.storage@.len()
    }

    pub closed spec fn spec_inbus(&self) -> Seq<RefSignal> {
        self.input_bus@
    }

    /// The input bus is well formed and every series is as long as the
    /// time series.
    pub closed spec fn wf(&self) -> bool {
        &&& self.input_bus.wf()
        &&& forall|i: int|
            0 <= i < self.storage@.len() ==> (#[trigger] self.storage@[i])@.len()
                == self.timedata@.len()
    }

    /// Every slot of the input bus is bound to a cell of a store of `n` cells.
    pub open spec fn bound_to(&self, n: nat) -> bool {
        forall|i: int|
            0 <= i < self.spec_inbus().len() ==> ((#[trigger] self.spec_inbus()[i])@.source matches Some(
                c,
            ) && c < n)
    }

    /// The recorder can sample a store of `n` cells: its input bus is bound
    /// to it and it keeps one series per signal.
    pub open spec fn ready(&self, n: nat) -> bool {
        &&& self.wf()
        &&& self.spec_signum() == self.spec_inbus().len()
        &&& self.bound_to(n)
    }

    /// A recorder of `inbus`, with nothing recorded yet.
    pub fn new(inbus: RefBus) -> (r: SimRecorder<V>)
        requires
            inbus.wf(),
        ensures
            r.wf(),
            r.spec_inbus() == inbus@,
            r.spec_times().len() == 0,
            r.spec_signum() == 0,
    {
        SimRecorder { timedata: Vec::new(), storage: Vec::new(), input_bus: inbus }
    }

    /// Length of the recorded time series.
    pub fn len(&self) -> (r: usize)
        ensures
            r == self.spec_times().len(),
    {
        self.timedata.len()
    }

    /// The recorded times.
    pub fn times(&self) -> (r: &Vec<V>)
        ensures
            r@ == self.spec_times(),
    {
        &self.timedata
    }

    /// The number of recorded series.
    pub fn signum(&self) -> (r: usize)
        ensures
            r == self.spec_signum(),
    {
        self.storage.len()
    }

    /// The values recorded for the `i`-th signal.
    pub fn series(&self, i: usize) -> (r: &Vec<V>)
        requires
            i < self.spec_signum(),
        ensures
            r@ == self.spec_series(i as int),
    {
        &self.storage[i]
    }

    /// The input bus.
    pub fn input_bus(&self) -> (r: &RefBus)
        ensures
            r@ == self.spec_inbus(),
    {
        &self.input_bus
    }

    /// The input bus, to be bound to the signals to record.
    pub fn interface_in(&mut self) -> (r: &mut RefBus)
        requires
            old(self).wf(),
        ensures
            r@ == old(self).spec_inbus(),
            final(r).wf() ==> final(self).wf(),
            final(self).spec_inbus() == final(r)@,
            final(self).spec_times() == old(self).spec_times(),
            final(self).spec_signum() == old(self).spec_signum(),
    {
        &mut self.input_bus
    }

    /// Whether the input bus reads cells of `store`.
    pub fn is_bound_to<T: Copy>(&self, store: &ValueStore<T>) -> (r: bool)
        ensures
            r == self.bound_to(store@.len()),
    {
        let r = self.input_bus.is_readable(store.len());
        proof {
            if r {
                assert forall|j: int| 0 <= j < self.input_bus@.len() implies ((#[trigger] self.spec_inbus()[j])@.source matches Some(c) && c < store@.len()) by {
                    assert(self.input_bus@[j].spec_cell() is Some);
                }
            } else {
                assert(!self.bound_to(store@.len())) by {
                    if self.bound_to(store@.len()) {
                        assert forall|j: int| 0 <= j < self.input_bus@.len() implies (#[trigger] self.input_bus@[j].spec_cell() matches Some(c) && c < store@.len()) by {
                            assert(self.spec_inbus()[j]@.source is Some);
                        }
                    }
                }
            }
        }
        r
    }

    /// Starts a recording: one series per input signal, each holding the
    /// signal's current value, and the time series holding `start_time`.
    pub fn initialize(&mut self, store: &ValueStore<V>, start_time: V)
        requires
            old(self).wf(),
            old(self).bound_to(store@.len()),
        ensures
            final(self).ready(store@.len()),
            final(self).spec_inbus() == old(self).spec_inbus(),
            final(self).spec_times() == seq![start_time],
            forall|i: int|
                0 <= i < final(self).spec_signum() ==> #[trigger] final(self).spec_series(i) == seq![
                    store@[old(self).spec_inbus()[i]@.source->0 as int],
                ],
    {
        proof {
            assert forall|j: int| 0 <= j < self.input_bus@.len() implies (#[trigger] self.input_bus@[j].spec_cell() matches Some(c) && c < store@.len()) by {
                assert(self.spec_inbus()[j]@.source is Some);
            }
        }
        let values = self.input_bus.to_vec_f64(store);
        let mut storage: Vec<Vec<V>> = Vec::new();
        let mut i: usize = 0;
        while i < values.len()
            invariant
                i <= values@.len(),
                storage@.len() == i,
                forall|j: int| 0 <= j < i ==> (#[trigger] storage@[j])@ == seq![values@[j]],
            decreases values@.len() - i,
        {
            let mut series: Vec<V> = Vec::new();
            series.push(values[i]);
            storage.push(series);
            i += 1;
        }
        let mut timedata: Vec<V> = Vec::new();
        timedata.push(start_time);
        self.storage = storage;
        self.timedata = timedata;
        proof {
            assert forall|j: int| 0 <= j < self.input_bus@.len() implies ((#[trigger] self.spec_inbus()[j])@.source matches Some(c) && c < store@.len()) by {
                assert(self.input_bus@[j].spec_cell() is Some);
            }
        }
    }

    /// Records one tick: appends `time` and each input signal's value.
    pub fn nextstate(&mut self, store: &ValueStore<V>, time: V)
        requires
            old(self).ready(store@.len()),
        ensures
            final(self).ready(store@.len()),
            final(self).spec_inbus() == old(self).spec_inbus(),
            final(self).spec_signum() == old(self).spec_signum(),
            final(self).spec_times() == old(self).spec_times().push(time),
            forall|i: int|
                0 <= i < final(self).spec_signum() ==> #[trigger] final(self).spec_series(i)
                    == old(self).spec_series(i).push(
                    store@[old(self).spec_inbus()[i]@.source->0 as int],
                ),
    {
        proof {
            assert forall|j: int| 0 <= j < self.input_bus@.len() implies (#[trigger] self.input_bus@[j].spec_cell() matches Some(c) && c < store@.len()) by {
                assert(self.spec_inbus()[j]@.source is Some);
            }
        }
        let values = self.input_bus.to_vec_f64(store);
        let mut i: usize = 0;
        while i < values.len()
            invariant
                i <= values@.len(),
                values@.len() == old(self).storage@.len(),
                self.storage@.len() == old(self).storage@.len(),
                self.input_bus == old(self).input_bus,
                self.timedata == old(self).timedata,
                forall|j: int| 0 <= j < i ==> (#[trigger] self.storage@[j])@ == old(self).storage@[j]@.push(values@[j]),
                forall|j: int| i <= j < values@.len() ==> (#[trigger] self.storage@[j])@ == old(self).storage@[j]@,
            decreases values@.len() - i,
        {
            self.storage[i].push(values[i]);
            i += 1;
        }
        self.timedata.push(time);
    }
}

} // verus!
