//! Buses: ordered collections of signals with unique names, and the wiring
//! of reference buses to the buses that own the values.
use vstd::prelude::*;
use crate::signal::{SigDef, SigTrait, Signal, RefSignal, ValueStore};

verus! {

/// Every name in `s` occurs once.
pub open spec fn names_unique<T: SigTrait>(s: Seq<T>) -> bool {
    forall|i: int, j: int|
        0 <= i < s.len() && 0 <= j < s.len() && i != j ==> #[trigger] s[i].spec_def().name
            != #[trigger] s[j].spec_def().name
}

/// The position of the signal named `name` in `s`, if there is one.
pub open spec fn lookup<T: SigTrait>(s: Seq<T>, name: Seq<char>) -> Option<int> {
    if exists|i: int| 0 <= i < s.len() && #[trigger] s[i].spec_def().name == name {
        Some(choose|i: int| 0 <= i < s.len() && #[trigger] s[i].spec_def().name == name)
    } else {
        None
    }
}

/// In a bus with unique names, the signal at `i` is the one found by its name.
pub proof fn lemma_lookup_at<T: SigTrait>(s: Seq<T>, i: int)
    requires
        names_unique(s),
        0 <= i < s.len(),
    ensures
        lookup(s, s[i].spec_def().name) == Some(i),
{
    let name = s[i].spec_def().name;
    assert(s[i].spec_def().name == name);
    let j = choose|j: int| 0 <= j < s.len() && #[trigger] s[j].spec_def().name == name;
    assert(s[j].spec_def().name == s[i].spec_def().name);
}

/// Replacing a signal by one of the same definition keeps names unique.
pub proof fn lemma_update_same_def<T: SigTrait>(s: Seq<T>, i: int, x: T)
    requires
        names_unique(s),
        0 <= i < s.len(),
        x.spec_def() == s[i].spec_def(),
    ensures
        names_unique(s.update(i, x)),
{
    let t = s.update(i, x);
    assert forall|a: int, b: int|
        0 <= a < t.len() && 0 <= b < t.len() && a != b implies #[trigger] t[a].spec_def().name
            != #[trigger] t[b].spec_def().name by {
        assert(s[a].spec_def().name != s[b].spec_def().name);
    }
}

/// Why an operation on a bus failed; each carries the offending name.
#[derive(Debug, Clone)]
pub enum BusError {
    /// A signal of this name is on the bus already.
    DuplicateName(String),
    /// No signal of this name is on the bus.
    NotFound(String),
}

/// An ordered collection of signals, addressable by position and by name.
#[derive(Debug, Clone)]
pub struct BusCore<T> {
    signals: Vec<T>,
}

/// A bus of signals that own their value cells.
pub type Bus = BusCore<Signal>;

/// A bus of reference slots.
pub type RefBus = BusCore<RefSignal>;

impl<T> View for BusCore<T> {
    type V = Seq<T>;

    closed spec fn view(&self) -> Seq<T> {
        self.signals@
    }
}

impl<T: SigTrait> BusCore<T> {
    /// Well-formedness: names are unique within the bus.
    pub open spec fn wf(&self) -> bool {
        names_unique(self@)
    }

    /// Every signal on the bus reads a cell that exists in a store of `n` cells.
    pub open spec fn readable(&self, n: nat) -> bool {
        forall|i: int|
            0 <= i < self@.len() ==> (#[trigger] self@[i].spec_cell() matches Some(c) && c < n)
    }

    pub fn new() -> (r: BusCore<T>)
        ensures
            r@ == Seq::<T>::empty(),
            r.wf(),
    {
        BusCore { signals: Vec::new() }
    }

    pub fn len(&self) -> (r: usize)
        ensures
            r == self@.len(),
    {
        self.signals.len()
    }

    /// Whether every signal on the bus reads a cell of a store of `n` cells.
    pub fn is_readable(&self, n: usize) -> (r: bool)
        ensures
            r == self.readable(n as nat),
    {
        let mut i: usize = 0;
        while i < self.signals.len()
            invariant
                i <= self@.len(),
                forall|j: int|
                    0 <= j < i ==> (#[trigger] self@[j].spec_cell() matches Some(c) && c < n),
            decreases self@.len() - i,
        {
            match self.signals[i].cell() {
                Some(c) => {
                    if c >= n {
                        return false;
                    }
                },
                None => {
                    return false;
                },
            }
            i += 1;
        }
        true
    }

    /// The signal at position `index`.
    pub fn get(&self, index: usize) -> (r: &T)
        requires
            index < self@.len(),
        ensures
            *r == self@[index as int],
    {
        &self.signals[index]
    }

    /// The position of the signal named `name`.
    pub fn index_of(&self, name: &str) -> (r: Option<usize>)
        requires
            self.wf(),
        ensures
            r is Some == lookup(self@, name@) is Some,
            r is Some ==> r->0 == lookup(self@, name@)->0,
    {
        let key = name.to_owned();
        let mut i: usize = 0;
        while i < self.signals.len()
            invariant
                i <= self@.len(),
                self.wf(),
                key@ == name@,
                forall|j: int| 0 <= j < i ==> #[trigger] self@[j].spec_def().name != name@,
            decreases self@.len() - i,
        {
            if self.signals[i].sigdef().has_name(&key) {
                proof {
                    lemma_lookup_at(self@, i as int);
                }
                return Some(i);
            }
            i += 1;
        }
        None
    }

    /// The signal named `name`, if the bus has one.
    pub fn get_by_name(&self, name: &str) -> (r: Option<&T>)
        requires
            self.wf(),
        ensures
            r is Some == lookup(self@, name@) is Some,
            r is Some ==> *r->0 == self@[lookup(self@, name@)->0],
    {
        match self.index_of(name) {
            Some(i) => Some(&self.signals[i]),
            None => None,
        }
    }

    /// The signal named `name`, for changing in place. The bus keeps its
    /// unique names as long as the change keeps the signal's definition.
    pub fn get_by_name_mut(&mut self, name: &str) -> (r: Option<&mut T>)
        requires
            old(self).wf(),
        ensures
            r is Some == lookup(old(self)@, name@) is Some,
            r is None ==> final(self)@ == old(self)@,
            r matches Some(x) ==> {
                let i = lookup(old(self)@, name@)->0;
                &&& *x == old(self)@[i]
                &&& final(self)@ == old(self)@.update(i, *final(x))
            },
    {
        match self.index_of(name) {
            Some(i) => Some(&mut self.signals[i]),
            None => None,
        }
    }

    /// Appends `signal`; a name that is on the bus already is refused and the
    /// bus is left as it was.
    pub fn push(&mut self, signal: T) -> (r: Result<(), BusError>)
        requires
            old(self).wf(),
        ensures
            final(self).wf(),
            lookup(old(self)@, signal.spec_def().name) is Some ==> r is Err && final(self)@ == old(
                self,
            )@,
            lookup(old(self)@, signal.spec_def().name) is None ==> r is Ok && final(self)@ == old(
                self,
            )@.push(signal),
    {
        let def = signal.sigdef();
        match self.index_of(def.name()) {
            Some(_) => Err(BusError::DuplicateName(def.name().to_owned())),
            None => {
                self.signals.push(signal);
                proof {
                    let s = final(self)@;
                    assert forall|i: int, j: int|
                        0 <= i < s.len() && 0 <= j < s.len() && i != j implies #[trigger] s[i].spec_def().name
                            != #[trigger] s[j].spec_def().name by {
                        if i == s.len() - 1 {
                            assert(old(self)@[j] == s[j]);
                        } else if j == s.len() - 1 {
                            assert(old(self)@[i] == s[i]);
                        } else {
                            assert(old(self)@[i] == s[i]);
                            assert(old(self)@[j] == s[j]);
                        }
                    }
                }
                Ok(())
            },
        }
    }

    /// The definitions of the bus's signals, in order.
    pub fn get_sigdef(&self) -> (r: Vec<SigDef>)
        ensures
            r@.len() == self@.len(),
            forall|i: int| 0 <= i < self@.len() ==> (#[trigger] r@[i])@ == self@[i].spec_def(),
    {
        let mut r: Vec<SigDef> = Vec::new();
        let mut i: usize = 0;
        while i < self.signals.len()
            invariant
                i <= self@.len(),
                r@.len() == i,
                forall|j: int| 0 <= j < i ==> (#[trigger] r@[j])@ == self@[j].spec_def(),
            decreases self@.len() - i,
        {
            r.push(self.signals[i].sigdef().duplicate());
            i += 1;
        }
        r
    }

    /// The values that the bus's signals read, in order.
    pub fn to_vec_f64<V: Copy>(&self, store: &ValueStore<V>) -> (r: Vec<V>)
        requires
            self.readable(store@.len()),
        ensures
            r@.len() == self@.len(),
            forall|i: int|
                0 <= i < self@.len() ==> #[trigger] r@[i] == store@[self@[i].spec_cell()->0 as int],
    {
        let mut r: Vec<V> = Vec::new();
        let mut i: usize = 0;
        while i < self.signals.len()
            invariant
                i <= self@.len(),
                r@.len() == i,
                self.readable(store@.len()),
                forall|j: int|
                    0 <= j < i ==> #[trigger] r@[j] == store@[self@[j].spec_cell()->0 as int],
            decreases self@.len() - i,
        {
            assert(self@[i as int].spec_cell() is Some);
            r.push(store.get(self.signals[i].cell().unwrap()));
            i += 1;
        }
        r
    }
}


/// Every name in a list of definitions occurs once.
pub open spec fn defs_unique(defs: Seq<SigDef>) -> bool {
    forall|i: int, j: int|
        0 <= i < defs.len() && 0 <= j < defs.len() && i != j ==> (#[trigger] defs[i])@.name != (
        #[trigger] defs[j])@.name
}

impl BusCore<RefSignal> {
    /// A bus of unbound slots, one for each definition, in order. Fails if
    /// two definitions share a name.
    pub fn try_from_sigdefs(defs: &Vec<SigDef>) -> (r: Result<RefBus, BusError>)
        ensures
            r is Ok == defs_unique(defs@),
            r matches Ok(b) ==> {
                &&& b.wf()
                &&& b@.len() == defs@.len()
                &&& forall|i: int|
                    0 <= i < defs@.len() ==> (#[trigger] b@[i])@.def == defs@[i]@ && b@[i]@.source is None
            },
    {
        let mut bus = RefBus::new();
        let mut i: usize = 0;
        while i < defs.len()
            invariant
                i <= defs@.len(),
                bus.wf(),
                bus@.len() == i,
                forall|j: int|
                    0 <= j < i ==> (#[trigger] bus@[j])@.def == defs@[j]@ && bus@[j]@.source is None,
                forall|j: int, k: int|
                    0 <= j < i && 0 <= k < i && j != k ==> (#[trigger] defs@[j])@.name != (
                    #[trigger] defs@[k])@.name,
            decreases defs@.len() - i,
        {
            let slot = RefSignal::from_def(&defs[i]);
            let ghost prev = bus@;
            let pushed = bus.push(slot);
            if pushed.is_err() {
                proof {
                    let name = defs@[i as int]@.name;
                    let j = lookup(bus@, name)->0;
                    assert(bus@[j].spec_def().name == name);
                    assert(!defs_unique(defs@));
                }
                return Err(BusError::DuplicateName(defs[i].name().to_owned()));
            }
            proof {
                assert forall|j: int| 0 <= j < i implies (#[trigger] defs@[j])@.name != defs@[i as int]@.name by {
                    assert(prev[j].spec_def().name == defs@[j]@.name);
                }
            }
            i += 1;
        }
        Ok(bus)
    }
}


impl BusCore<RefSignal> {
    /// Unbinds the slot named `name`.
    pub fn disconnect(&mut self, name: &str) -> (r: Result<(), BusError>)
        requires
            old(self).wf(),
        ensures
            final(self).wf(),
            r is Ok == lookup(old(self)@, name@) is Some,
            r is Err ==> final(self)@ == old(self)@,
            r is Ok ==> {
                let i = lookup(old(self)@, name@)->0;
                &&& final(self)@.len() == old(self)@.len()
                &&& final(self)@[i]@.def == old(self)@[i]@.def
                &&& final(self)@[i]@.source is None
                &&& forall|j: int|
                    0 <= j < old(self)@.len() && j != i ==> #[trigger] final(self)@[j] == old(self)@[j]
            },
    {
        match self.index_of(name) {
            Some(i) => {
                self.signals[i].disconnect();
                proof {
                    assert forall|a: int, b: int|
                        0 <= a < self@.len() && 0 <= b < self@.len() && a != b implies #[trigger] self@[a].spec_def().name
                            != #[trigger] self@[b].spec_def().name by {
                        assert(old(self)@[a].spec_def().name != old(self)@[b].spec_def().name);
                    }
                }
                Ok(())
            },
            None => Err(BusError::NotFound(name.to_owned())),
        }
    }

    /// Unbinds every slot.
    pub fn disconnect_all(&mut self)
        requires
            old(self).wf(),
        ensures
            final(self).wf(),
            final(self)@.len() == old(self)@.len(),
            forall|i: int|
                0 <= i < old(self)@.len() ==> (#[trigger] final(self)@[i])@.def == old(self)@[i]@.def
                    && final(self)@[i]@.source is None,
    {
        let mut i: usize = 0;
        while i < self.signals.len()
            invariant
                i <= self@.len(),
                self@.len() == old(self)@.len(),
                forall|j: int| 0 <= j < self@.len() ==> (#[trigger] self@[j])@.def == old(self)@[j]@.def,
                forall|j: int| 0 <= j < i ==> (#[trigger] self@[j])@.source is None,
            decreases self@.len() - i,
        {
            self.signals[i].disconnect();
            i += 1;
        }
        proof {
            assert forall|a: int, b: int|
                0 <= a < self@.len() && 0 <= b < self@.len() && a != b implies #[trigger] self@[a].spec_def().name
                    != #[trigger] self@[b].spec_def().name by {
                assert(old(self)@[a].spec_def().name != old(self)@[b].spec_def().name);
            }
        }
    }
}


impl BusCore<Signal> {
    /// No two signals of the bus own the same cell.
    pub open spec fn cells_distinct(&self) -> bool {
        forall|i: int, j: int|
            0 <= i < self@.len() && 0 <= j < self@.len() && i != j ==> (#[trigger] self@[i])@.cell
                != (#[trigger] self@[j])@.cell
    }

    /// Some signal of the bus owns cell `c`.
    pub open spec fn owns_cell(&self, c: int) -> bool {
        exists|i: int| 0 <= i < self@.len() && (#[trigger] self@[i])@.cell == c
    }

    /// A bus with one signal for each definition, in order, each with a new
    /// cell that holds `initvalue`. Fails, allocating nothing, if two
    /// definitions share a name.
    pub fn try_from_sigdefs<V: Copy>(store: &mut ValueStore<V>, defs: &Vec<SigDef>, initvalue: V) -> (r:
        Result<Bus, BusError>)
        ensures
            r is Ok == defs_unique(defs@),
            r is Err ==> final(store)@ == old(store)@,
            r matches Ok(b) ==> {
                &&& b.wf()
                &&& b.cells_distinct()
                &&& b.readable(final(store)@.len())
                &&& b@.len() == defs@.len()
                &&& final(store)@ == old(store)@ + Seq::new(defs@.len(), |_i: int| initvalue)
                &&& forall|i: int|
                    0 <= i < defs@.len() ==> (#[trigger] b@[i])@.def == defs@[i]@ && b@[i]@.cell
                        == old(store)@.len() + i
            },
    {
        match RefBus::try_from_sigdefs(defs) {
            Err(e) => {
                return Err(e);
            },
            Ok(_) => {},
        }
        let ghost base = old(store)@;
        let mut bus = Bus::new();
        let mut i: usize = 0;
        while i < defs.len()
            invariant
                i <= defs@.len(),
                defs_unique(defs@),
                bus.wf(),
                bus@.len() == i,
                store@ == base + Seq::new(i as nat, |_i: int| initvalue),
                forall|j: int|
                    0 <= j < i ==> (#[trigger] bus@[j])@.def == defs@[j]@ && bus@[j]@.cell == base.len()
                        + j,
            decreases defs@.len() - i,
        {
            let sig = Signal::from_def(store, initvalue, &defs[i]);
            proof {
                assert forall|j: int| 0 <= j < bus@.len() implies #[trigger] bus@[j].spec_def().name
                    != sig.spec_def().name by {
                    assert(defs@[j]@.name != defs@[i as int]@.name);
                }
                assert(store@ =~= base + Seq::new((i + 1) as nat, |_i: int| initvalue));
            }
            let _ = bus.push(sig);
            i += 1;
        }
        Ok(bus)
    }

    /// Writes `value` into every cell of the bus.
    pub fn set_all<V: Copy>(&self, store: &mut ValueStore<V>, value: V)
        requires
            self.readable(old(store)@.len()),
        ensures
            final(store)@.len() == old(store)@.len(),
            forall|i: int| 0 <= i < self@.len() ==> final(store)@[(#[trigger] self@[i])@.cell as int] == value,
            forall|k: int|
                0 <= k < old(store)@.len() && !self.owns_cell(k) ==> #[trigger] final(store)@[k] == old(store)@[k],
    {
        proof {
            assert forall|j: int| 0 <= j < self@.len() implies (#[trigger] self@[j])@.cell < old(store)@.len() by {
                assert(self@[j].spec_cell() is Some);
            }
        }
        let mut i: usize = 0;
        while i < self.signals.len()
            invariant
                i <= self@.len(),
                self.readable(old(store)@.len()),
                store@.len() == old(store)@.len(),
                forall|j: int| 0 <= j < self@.len() ==> (#[trigger] self@[j])@.cell < store@.len(),
                forall|j: int| 0 <= j < i ==> store@[(#[trigger] self@[j])@.cell as int] == value,
                forall|k: int|
                    0 <= k < store@.len() && (forall|j: int| 0 <= j < i ==> (#[trigger] self@[j])@.cell != k)
                        ==> #[trigger] store@[k] == old(store)@[k],
            decreases self@.len() - i,
        {
            assert(self@[i as int].spec_cell() is Some);
            self.signals[i].set_val(store, value);
            i += 1;
        }
    }

    /// Writes `values[i]` into the cell of the bus's `i`-th signal.
    pub fn import_values<V: Copy>(&self, store: &mut ValueStore<V>, values: &Vec<V>)
        requires
            self.readable(old(store)@.len()),
            self.cells_distinct(),
            values@.len() == self@.len(),
        ensures
            final(store)@.len() == old(store)@.len(),
            forall|i: int|
                0 <= i < self@.len() ==> final(store)@[(#[trigger] self@[i])@.cell as int] == values@[i],
            forall|k: int|
                0 <= k < old(store)@.len() && !self.owns_cell(k) ==> #[trigger] final(store)@[k] == old(store)@[k],
    {
        proof {
            assert forall|j: int| 0 <= j < self@.len() implies (#[trigger] self@[j])@.cell < old(store)@.len() by {
                assert(self@[j].spec_cell() is Some);
            }
        }
        let mut i: usize = 0;
        while i < self.signals.len()
            invariant
                i <= self@.len(),
                self.readable(old(store)@.len()),
                self.cells_distinct(),
                values@.len() == self@.len(),
                store@.len() == old(store)@.len(),
                forall|j: int| 0 <= j < self@.len() ==> (#[trigger] self@[j])@.cell < store@.len(),
                forall|j: int| 0 <= j < i ==> store@[(#[trigger] self@[j])@.cell as int] == values@[j],
                forall|k: int|
                    0 <= k < store@.len() && (forall|j: int| 0 <= j < i ==> (#[trigger] self@[j])@.cell != k)
                        ==> #[trigger] store@[k] == old(store)@[k],
            decreases self@.len() - i,
        {
            assert(self@[i as int].spec_cell() is Some);
            self.signals[i].set_val(store, values[i]);
            i += 1;
        }
    }

    /// Copies, position by position, the values that `src` reads into the
    /// cells of this bus.
    pub fn copy_val_from_bus<V: Copy>(&self, store: &mut ValueStore<V>, src: &RefBus)
        requires
            self.readable(old(store)@.len()),
            self.cells_distinct(),
            src.readable(old(store)@.len()),
            src@.len() == self@.len(),
        ensures
            final(store)@.len() == old(store)@.len(),
            forall|i: int|
                0 <= i < self@.len() ==> final(store)@[(#[trigger] self@[i])@.cell as int] == old(
                    store,
                )@[src@[i]@.source->0 as int],
            forall|k: int|
                0 <= k < old(store)@.len() && !self.owns_cell(k) ==> #[trigger] final(store)@[k] == old(store)@[k],
    {
        let values = src.to_vec_f64(store);
        self.import_values(store, &values);
    }
}


/// The names of a list of string slices.
pub open spec fn str_names(l: Seq<&str>) -> Seq<Seq<char>> {
    l.map_values(|s: &str| s@)
}

/// The names of a list of strings.
pub open spec fn string_names(l: Seq<String>) -> Seq<Seq<char>> {
    l.map_values(|s: String| s@)
}

/// `name` is on `src` and the signal there reads a value cell.
pub open spec fn resolves<T: SigTrait>(src: Seq<T>, name: Seq<char>) -> bool {
    lookup(src, name) matches Some(i) && src[i].spec_cell() is Some
}

/// The cell that the signal named `name` on `src` reads.
pub open spec fn source_cell<T: SigTrait>(src: Seq<T>, name: Seq<char>) -> Option<usize> {
    src[lookup(src, name)->0].spec_cell()
}

/// The source names, in order, that do not resolve on `src`.
pub open spec fn unresolved_sources<T: SigTrait>(src: Seq<T>, names: Seq<Seq<char>>) -> Seq<
    Seq<char>,
>
    decreases names.len(),
{
    if names.len() == 0 {
        Seq::empty()
    } else {
        let rest = unresolved_sources(src, names.drop_last());
        if resolves(src, names.last()) {
            rest
        } else {
            rest.push(names.last())
        }
    }
}

/// The destination names, in order, that are not on `dst`.
pub open spec fn missing_destinations(dst: Seq<RefSignal>, names: Seq<Seq<char>>) -> Seq<
    Seq<char>,
>
    decreases names.len(),
{
    if names.len() == 0 {
        Seq::empty()
    } else {
        let rest = missing_destinations(dst, names.drop_last());
        if lookup(dst, names.last()) is Some {
            rest
        } else {
            rest.push(names.last())
        }
    }
}

/// The `k`-th destination is on `dst` but cannot be bound: its slot is bound
/// already, or an earlier pair of the same call names it too.
pub open spec fn dst_taken(dst: Seq<RefSignal>, names: Seq<Seq<char>>, k: int) -> bool {
    lookup(dst, names[k]) matches Some(i) && (dst[i]@.source is Some || exists|j: int|
        0 <= j < k && names[j] == names[k])
}

/// The destination names, in order, that cannot be bound.
pub open spec fn taken_destinations(dst: Seq<RefSignal>, names: Seq<Seq<char>>) -> Seq<Seq<char>>
    decreases names.len(),
{
    if names.len() == 0 {
        Seq::empty()
    } else {
        let rest = taken_destinations(dst, names.drop_last());
        if dst_taken(dst, names, names.len() - 1) {
            rest.push(names.last())
        } else {
            rest
        }
    }
}

/// A connect call with source names `sn` and destination names `dn` can
/// bind every pair.
pub open spec fn connectable<T: SigTrait>(
    dst: Seq<RefSignal>,
    src: Seq<T>,
    sn: Seq<Seq<char>>,
    dn: Seq<Seq<char>>,
) -> bool {
    &&& unresolved_sources(src, sn).len() == 0
    &&& missing_destinations(dst, dn).len() == 0
    &&& taken_destinations(dst, dn).len() == 0
}

/// `after` is `before` with the slot named `dn[k]` bound to the cell of the
/// source named `sn[k]`, for every `k`, and nothing else changed.
pub open spec fn connected<T: SigTrait>(
    before: Seq<RefSignal>,
    after: Seq<RefSignal>,
    src: Seq<T>,
    sn: Seq<Seq<char>>,
    dn: Seq<Seq<char>>,
) -> bool {
    &&& after.len() == before.len()
    &&& forall|i: int| 0 <= i < before.len() ==> (#[trigger] after[i])@.def == before[i]@.def
    &&& forall|k: int|
        0 <= k < dn.len() ==> after[lookup(before, #[trigger] dn[k])->0]@.source == source_cell(
            src,
            sn[k],
        )
    &&& forall|i: int|
        0 <= i < before.len() && !(exists|k: int|
            0 <= k < dn.len() && #[trigger] lookup(before, dn[k]) == Some(i)) ==> #[trigger] after[i]
            == before[i]
}

/// Why a connect call failed.
#[derive(Debug, Clone)]
pub enum ConnectError {
    /// The source and destination name lists differ in length.
    LengthMismatch,
    /// Some names could not be resolved; each list keeps the call's order.
    Unresolved {
        /// Source names that are not on the source bus, or that name an
        /// unbound slot there.
        src_missing: Vec<String>,
        /// Destination names that are not on this bus.
        dst_missing: Vec<String>,
        /// Destination names whose slot is bound already or named twice.
        dst_bound: Vec<String>,
    },
}

fn contains_index(v: &Vec<usize>, x: usize) -> (r: bool)
    ensures
        r == v@.contains(x),
{
    let mut i: usize = 0;
    while i < v.len()
        invariant
            i <= v@.len(),
            forall|j: int| 0 <= j < i ==> v@[j] != x,
        decreases v@.len() - i,
    {
        if v[i] == x {
            return true;
        }
        i += 1;
    }
    false
}

/// A name found by `lookup` is the name of the signal at that position.
pub proof fn lemma_lookup_found<T: SigTrait>(s: Seq<T>, name: Seq<char>)
    ensures
        lookup(s, name) matches Some(i) ==> 0 <= i < s.len() && s[i].spec_def().name == name,
        lookup(s, name) is None ==> forall|i: int|
            0 <= i < s.len() ==> #[trigger] s[i].spec_def().name != name,
{
}

proof fn lemma_string_names_push(l: Seq<String>, s: String)
    ensures
        string_names(l.push(s)) == string_names(l).push(s@),
{
    assert(string_names(l.push(s)) =~= string_names(l).push(s@));
}

impl BusCore<RefSignal> {
    /// Binds, for each `k`, the slot named `dstlist[k]` to the cell of the
    /// signal named `srclist[k]` on `srcbus`. The call is validated as a
    /// whole before anything is bound: on any failure no slot changes.
    pub fn connect_to<T: SigTrait>(&mut self, srcbus: &BusCore<T>, srclist: &[&str], dstlist: &[&str]) -> (r:
        Result<(), ConnectError>)
        requires
            old(self).wf(),
            srcbus.wf(),
        ensures
            final(self).wf(),
            r is Err ==> final(self)@ == old(self)@,
            srclist@.len() != dstlist@.len() ==> r matches Err(ConnectError::LengthMismatch),
            srclist@.len() == dstlist@.len() ==> {
                let sn = str_names(srclist@);
                let dn = str_names(dstlist@);
                &&& r is Ok == connectable(old(self)@, srcbus@, sn, dn)
                &&& r is Ok ==> connected(old(self)@, final(self)@, srcbus@, sn, dn)
                &&& r is Err ==> (r matches Err(
                    ConnectError::Unresolved { src_missing, dst_missing, dst_bound },
                ) && string_names(src_missing@) == unresolved_sources(srcbus@, sn) && string_names(
                    dst_missing@,
                ) == missing_destinations(old(self)@, dn) && string_names(dst_bound@)
                    == taken_destinations(old(self)@, dn))
            },
    {
        if srclist.len() != dstlist.len() {
            return Err(ConnectError::LengthMismatch);
        }
        let ghost sn = str_names(srclist@);
        let ghost dn = str_names(dstlist@);
        let ghost before = self@;
        let n = srclist.len();
        let mut src_missing: Vec<String> = Vec::new();
        let mut dst_missing: Vec<String> = Vec::new();
        let mut dst_bound: Vec<String> = Vec::new();
        // slots found so far, and the (slot, source position) pairs to bind
        let mut claimed: Vec<usize> = Vec::new();
        let mut plan: Vec<(usize, usize)> = Vec::new();
        let mut k: usize = 0;
        while k < n
            invariant
                n == srclist@.len(),
                n == dstlist@.len(),
                k <= n,
                self@ == before,
                self.wf(),
                srcbus.wf(),
                sn == str_names(srclist@),
                dn == str_names(dstlist@),
                string_names(src_missing@) == unresolved_sources(srcbus@, sn.take(k as int)),
                string_names(dst_missing@) == missing_destinations(before, dn.take(k as int)),
                string_names(dst_bound@) == taken_destinations(before, dn.take(k as int)),
                forall|x: usize|
                    #[trigger] claimed@.contains(x) <==> exists|j: int|
                        0 <= j < k && #[trigger] lookup(before, dn[j]) == Some(x as int),
                (src_missing@.len() == 0 && dst_missing@.len() == 0 && dst_bound@.len() == 0) ==> {
                    &&& plan@.len() == k
                    &&& forall|j: int|
                        0 <= j < k ==> {
                            &&& (#[trigger] plan@[j]).0 == lookup(before, dn[j])->0
                            &&& lookup(before, dn[j]) is Some
                            &&& lookup(srcbus@, sn[j]) is Some
                            &&& plan@[j].1 == lookup(srcbus@, sn[j])->0
                            &&& plan@[j].1 < srcbus@.len()
                            &&& plan@[j].0 < before.len()
                            &&& srcbus@[plan@[j].1 as int].spec_cell() is Some
                            &&& before[plan@[j].0 as int]@.source is None
                        }
                    &&& forall|j1: int, j2: int|
                        0 <= j1 < k && 0 <= j2 < k && j1 != j2 ==> (#[trigger] plan@[j1]).0 != (
                        #[trigger] plan@[j2]).0
                },
            decreases n - k,
        {
            proof {
                assert(sn.take(k + 1).drop_last() =~= sn.take(k as int));
                assert(dn.take(k + 1).drop_last() =~= dn.take(k as int));
                lemma_lookup_found(srcbus@, sn[k as int]);
                lemma_lookup_found(before, dn[k as int]);
            }
            let src_name = srclist[k];
            let dst_name = dstlist[k];
            let mut src_pos: Option<usize> = None;
            match srcbus.index_of(src_name) {
                Some(si) => {
                    if srcbus.get(si).cell().is_some() {
                        src_pos = Some(si);
                    }
                },
                None => {},
            }
            if src_pos.is_none() {
                let owned = src_name.to_owned();
                proof {
                    lemma_string_names_push(src_missing@, owned);
                }
                src_missing.push(owned);
            }
            let ghost missing_before = dst_missing@.len();
            let ghost bound_before = dst_bound@.len();
            let ghost src_before = src_missing@.len();
            match self.index_of(dst_name) {
                None => {
                    let owned = dst_name.to_owned();
                    proof {
                        lemma_string_names_push(dst_missing@, owned);
                    }
                    dst_missing.push(owned);
                },
                Some(di) => {
                    let taken = self.signals[di].is_connected() || contains_index(&claimed, di);
                    proof {
                        let t = dn.take(k + 1);
                        if taken {
                            if before[di as int]@.source is None {
                                let j = choose|j: int|
                                    0 <= j < k && #[trigger] lookup(before, dn[j]) == Some(di as int);
                                lemma_lookup_found(before, dn[j]);
                                assert(t[j] == t[k as int]);
                            }
                            assert(dst_taken(before, t, k as int));
                        } else {
                            assert forall|j: int| 0 <= j < k implies t[j] != t[k as int] by {
                                if t[j] == t[k as int] {
                                    assert(lookup(before, dn[j]) == Some(di as int));
                                    assert(claimed@.contains(di));
                                }
                            }
                            assert(!dst_taken(before, t, k as int));
                        }
                    }
                    if taken {
                        let owned = dst_name.to_owned();
                        proof {
                            lemma_string_names_push(dst_bound@, owned);
                        }
                        dst_bound.push(owned);
                    } else {
                        match src_pos {
                            Some(si) => {
                                let ghost plan0 = plan@;
                                plan.push((di, si));
                                proof {
                                    assert(dn[k as int] == dst_name@);
                                    assert(sn[k as int] == src_name@);
                                    if src_before == 0 && missing_before == 0 && bound_before == 0 {
                                        assert forall|j: int| 0 <= j < k implies (#[trigger] plan@[j]).0 != di by {
                                            assert(plan0[j] == plan@[j]);
                                            assert(lookup(before, dn[j]) == Some(plan0[j].0 as int));
                                            assert(claimed@.contains(plan0[j].0));
                                        }
                                    }
                                }
                            },
                            None => {},
                        }
                    }
                    let ghost old_claimed = claimed@;
                    claimed.push(di);
                    proof {
                        assert forall|x: usize|
                            #[trigger] claimed@.contains(x) <==> exists|j: int|
                                0 <= j < k + 1 && #[trigger] lookup(before, dn[j]) == Some(x as int) by {
                            if claimed@.contains(x) && x != di {
                                assert(old_claimed.contains(x));
                            }
                            if exists|j: int| 0 <= j < k + 1 && #[trigger] lookup(before, dn[j]) == Some(x as int) {
                                let j = choose|j: int| 0 <= j < k + 1 && #[trigger] lookup(before, dn[j]) == Some(x as int);
                                if j < k {
                                    assert(old_claimed.contains(x));
                                    let w = choose|w: int| 0 <= w < old_claimed.len() && old_claimed[w] == x;
                                    assert(claimed@[w] == x);
                                } else {
                                    assert(claimed@[old_claimed.len() as int] == di);
                                }
                            }
                        }
                    }
                },
            }
            k += 1;
        }
        if src_missing.len() > 0 || dst_missing.len() > 0 || dst_bound.len() > 0 {
            proof {
                assert(sn.take(n as int) =~= sn);
                assert(dn.take(n as int) =~= dn);
            }
            return Err(ConnectError::Unresolved { src_missing, dst_missing, dst_bound });
        }
        proof {
            assert(sn.take(n as int) =~= sn);
            assert(dn.take(n as int) =~= dn);
        }
        let mut m: usize = 0;
        while m < plan.len()
            invariant
                plan@.len() == n,
                m <= n,
                n == dstlist@.len(),
                n == srclist@.len(),
                dn == str_names(dstlist@),
                sn == str_names(srclist@),
                srcbus.wf(),
                self@.len() == before.len(),
                forall|i: int| 0 <= i < before.len() ==> (#[trigger] self@[i])@.def == before[i]@.def,
                forall|j: int|
                    0 <= j < n ==> {
                        &&& (#[trigger] plan@[j]).0 == lookup(before, dn[j])->0
                        &&& lookup(before, dn[j]) is Some
                        &&& lookup(srcbus@, sn[j]) is Some
                        &&& plan@[j].1 == lookup(srcbus@, sn[j])->0
                        &&& plan@[j].1 < srcbus@.len()
                        &&& plan@[j].0 < before.len()
                        &&& srcbus@[plan@[j].1 as int].spec_cell() is Some
                        &&& before[plan@[j].0 as int]@.source is None
                    },
                forall|j1: int, j2: int|
                    0 <= j1 < n && 0 <= j2 < n && j1 != j2 ==> (#[trigger] plan@[j1]).0 != (
                    #[trigger] plan@[j2]).0,
                forall|j: int|
                    0 <= j < m ==> self@[(#[trigger] plan@[j]).0 as int]@.source == srcbus@[plan@[j].1 as int].spec_cell(),
                forall|i: int|
                    0 <= i < before.len() && !(exists|j: int| 0 <= j < m && (#[trigger] plan@[j]).0 == i)
                        ==> #[trigger] self@[i] == before[i],
            decreases n - m,
        {
            let (di, si) = plan[m];
            proof {
                assert forall|j: int| m < j < n implies (#[trigger] plan@[j]).0 != di by {}
                assert(!(exists|j: int| 0 <= j < m && (#[trigger] plan@[j]).0 == di as int)) by {
                    assert forall|j: int| 0 <= j < m implies (#[trigger] plan@[j]).0 != di by {
                        assert(plan@[m as int] == (di, si));
                    }
                }
            }
            let _ = self.signals[di].connect_to(srcbus.get(si));
            proof {
                assert forall|i: int|
                    0 <= i < before.len() && !(exists|j: int| 0 <= j < m + 1 && (#[trigger] plan@[j]).0 == i)
                        implies #[trigger] self@[i] == before[i] by {
                    assert(plan@[m as int].0 != i);
                }
            }
            m += 1;
        }
        proof {
            assert forall|k: int| 0 <= k < dn.len() implies self@[lookup(before, #[trigger] dn[k])->0]@.source
                == source_cell(srcbus@, sn[k]) by {
                assert(plan@[k].0 == lookup(before, dn[k])->0);
            }
            assert forall|i: int|
                0 <= i < before.len() && !(exists|k: int|
                    0 <= k < dn.len() && #[trigger] lookup(before, dn[k]) == Some(i)) implies #[trigger] self@[i]
                    == before[i] by {
                if exists|j: int| 0 <= j < n && (#[trigger] plan@[j]).0 == i {
                    let j = choose|j: int| 0 <= j < n && (#[trigger] plan@[j]).0 == i;
                    lemma_lookup_found(before, dn[j]);
                    assert(lookup(before, dn[j]) == Some(i));
                }
            }
            assert forall|a: int, b: int|
                0 <= a < self@.len() && 0 <= b < self@.len() && a != b implies #[trigger] self@[a].spec_def().name
                    != #[trigger] self@[b].spec_def().name by {
                assert(before[a].spec_def().name != before[b].spec_def().name);
            }
        }
        Ok(())
    }
}


/// Pushing a signal whose name is not on the bus keeps names unique, and
/// looking that name up then finds the pushed signal, at the end.
pub proof fn lemma_push_then_get<T: SigTrait>(s: Seq<T>, x: T)
    requires
        names_unique(s),
        lookup(s, x.spec_def().name) is None,
    ensures
        names_unique(s.push(x)),
        lookup(s.push(x), x.spec_def().name) == Some(s.len() as int),
        s.push(x)[s.len() as int] == x,
{
    let t = s.push(x);
    lemma_lookup_found(s, x.spec_def().name);
    assert forall|i: int, j: int|
        0 <= i < t.len() && 0 <= j < t.len() && i != j implies #[trigger] t[i].spec_def().name
            != #[trigger] t[j].spec_def().name by {
        if i < s.len() && j < s.len() {
            assert(s[i] == t[i] && s[j] == t[j]);
        } else if i < s.len() {
            assert(s[i] == t[i]);
        } else {
            assert(s[j] == t[j]);
        }
    }
    lemma_lookup_at(t, s.len() as int);
}

proof fn lemma_taken_listed(dst: Seq<RefSignal>, dn: Seq<Seq<char>>, k: int)
    requires
        0 <= k < dn.len(),
        dst_taken(dst, dn, k),
    ensures
        taken_destinations(dst, dn).len() > 0,
    decreases dn.len(),
{
    if k < dn.len() - 1 {
        let d = dn.drop_last();
        assert(d[k] == dn[k]);
        assert forall|j: int| 0 <= j < k implies d[j] == dn[j] by {}
        assert(dst_taken(dst, d, k));
        lemma_taken_listed(dst, d, k);
    }
}

/// When no source name of a call is unresolved, each of them resolves.
pub proof fn lemma_unresolved_empty<T: SigTrait>(src: Seq<T>, sn: Seq<Seq<char>>, k: int)
    requires
        0 <= k < sn.len(),
        unresolved_sources(src, sn).len() == 0,
    ensures
        resolves(src, sn[k]),
    decreases sn.len(),
{
    if k < sn.len() - 1 {
        let d = sn.drop_last();
        if !resolves(src, sn.last()) {
            assert(unresolved_sources(src, sn).len() > 0);
        }
        assert(d[k] == sn[k]);
        lemma_unresolved_empty(src, d, k);
    }
}

/// A connect call that names a destination slot that is bound already
/// cannot bind its pairs; `connect_to` then fails and changes nothing.
pub proof fn lemma_bound_slot_blocks_connect<T: SigTrait>(
    dst: Seq<RefSignal>,
    src: Seq<T>,
    sn: Seq<Seq<char>>,
    dn: Seq<Seq<char>>,
    k: int,
)
    requires
        0 <= k < dn.len(),
        lookup(dst, dn[k]) matches Some(i) && dst[i]@.source is Some,
    ensures
        !connectable(dst, src, sn, dn),
{
    lemma_taken_listed(dst, dn, k);
}

/// After a successful connect, connecting again to any of the slots it
/// bound fails: the second call cannot bind its pairs, so `connect_to`
/// leaves the first binding as it was.
pub proof fn lemma_reconnect_fails<T: SigTrait, U: SigTrait>(
    before: Seq<RefSignal>,
    after: Seq<RefSignal>,
    src: Seq<T>,
    sn: Seq<Seq<char>>,
    dn: Seq<Seq<char>>,
    src2: Seq<U>,
    sn2: Seq<Seq<char>>,
    dn2: Seq<Seq<char>>,
    k: int,
    k2: int,
)
    requires
        names_unique(before),
        sn.len() == dn.len(),
        connectable(before, src, sn, dn),
        connected(before, after, src, sn, dn),
        0 <= k < dn.len(),
        0 <= k2 < dn2.len(),
        dn2[k2] == dn[k],
    ensures
        !connectable(after, src2, sn2, dn2),
        lookup(after, dn2[k2]) == lookup(before, dn[k]),
        after[lookup(before, dn[k])->0]@.source == source_cell(src, sn[k]),
        source_cell(src, sn[k]) is Some,
{
    lemma_unresolved_empty(src, sn, k);
    if lookup(before, dn[k]) is None {
        assert(missing_destinations(before, dn).len() > 0) by {
            lemma_missing_listed(before, dn, k);
        }
    }
    let i = lookup(before, dn[k])->0;
    lemma_lookup_found(before, dn[k]);
    assert(after[i]@.def == before[i]@.def);
    assert(names_unique(after)) by {
        assert forall|a: int, b: int|
            0 <= a < after.len() && 0 <= b < after.len() && a != b implies #[trigger] after[a].spec_def().name
                != #[trigger] after[b].spec_def().name by {
            assert(after[a]@.def == before[a]@.def);
            assert(after[b]@.def == before[b]@.def);
        }
    }
    lemma_lookup_at(after, i);
    lemma_bound_slot_blocks_connect(after, src2, sn2, dn2, k2);
}

/// A destination name that is not on the bus is listed as missing.
pub proof fn lemma_missing_listed(dst: Seq<RefSignal>, dn: Seq<Seq<char>>, k: int)
    requires
        0 <= k < dn.len(),
        lookup(dst, dn[k]) is None,
    ensures
        missing_destinations(dst, dn).len() > 0,
    decreases dn.len(),
{
    if k < dn.len() - 1 {
        let d = dn.drop_last();
        assert(d[k] == dn[k]);
        lemma_missing_listed(dst, d, k);
    }
}

} // verus!
