//! Signal definitions, the value cells that hold signal values, and the two
//! kinds of signal that a bus can carry: owned cells and reference slots.
use vstd::prelude::*;
use vstd::string::StringExecFns;

verus! {

/// The mathematical content of a signal definition.
pub ghost struct SigDefView {
    pub name: Seq<char>,
    pub unit: Seq<char>,
}

/// A signal's name and unit. Compared by value.
#[derive(Debug, Clone)]
pub struct SigDef {
    name: String,
    unit: String,
}

impl View for SigDef {
    type V = SigDefView;

    closed spec fn view(&self) -> SigDefView {
        SigDefView { name: self.name@, unit: self.unit@ }
    }
}

impl SigDef {
    pub fn new(name: &str, unit: &str) -> (r: SigDef)
        ensures
            r@.name == name@,
            r@.unit == unit@,
    {
        SigDef { name: name.to_owned(), unit: unit.to_owned() }
    }

    pub fn name(&self) -> (r: &str)
        ensures
            r@ == self@.name,
    {
        self.name.as_str()
    }

    pub fn unit(&self) -> (r: &str)
        ensures
            r@ == self@.unit,
    {
        self.unit.as_str()
    }

    /// A copy of this definition.
    pub fn duplicate(&self) -> (r: SigDef)
        ensures
            r@ == self@,
    {
        SigDef { name: self.name.clone(), unit: self.unit.clone() }
    }

    /// The definition as text: the name, then the unit in brackets.
    pub fn label(&self) -> (r: String)
        ensures
            r@ == self@.name + seq!['['] + self@.unit + seq![']'],
    {
        let mut r = self.name.clone();
        r.append("[");
        r.append(self.unit.as_str());
        r.append("]");
        proof {
            assert(r@ =~= self@.name + seq!['['] + self@.unit + seq![']']) by {
                reveal_strlit("[");
                reveal_strlit("]");
            }
        }
        r
    }

    /// Whether this definition's name is `name`.
    pub fn has_name(&self, name: &String) -> (r: bool)
        ensures
            r == (self@.name == name@),
    {
        self.name == *name
    }
}


impl PartialEq for SigDef {
    fn eq(&self, other: &SigDef) -> (r: bool) {
        self.name == other.name && self.unit == other.unit
    }
}

impl vstd::std_specs::cmp::PartialEqSpecImpl for SigDef {
    open spec fn obeys_eq_spec() -> bool {
        true
    }

    open spec fn eq_spec(&self, other: &SigDef) -> bool {
        self@ == other@
    }
}

/// The value cells of a simulation: every owned signal value lives in one
/// cell, addressed by its index. A cell may be read through many reference
/// slots; it is written only through the signal that owns it.
#[derive(Debug, Clone)]
pub struct ValueStore<V> {
    cells: Vec<V>,
}

impl<V> View for ValueStore<V> {
    type V = Seq<V>;

    closed spec fn view(&self) -> Seq<V> {
        self.cells@
    }
}

impl<V: Copy> ValueStore<V> {
    pub fn new() -> (r: ValueStore<V>)
        ensures
            r@ == Seq::<V>::empty(),
    {
        ValueStore { cells: Vec::new() }
    }

    /// Number of cells allocated so far.
    pub fn len(&self) -> (r: usize)
        ensures
            r == self@.len(),
    {
        self.cells.len()
    }

    /// Allocates a new cell holding `value` and returns its index.
    pub fn add_cell(&mut self, value: V) -> (r: usize)
        ensures
            r == old(self)@.len(),
            final(self)@ == old(self)@.push(value),
    {
        let r = self.cells.len();
        self.cells.push(value);
        r
    }

    pub fn get(&self, cell: usize) -> (r: V)
        requires
            cell < self@.len(),
        ensures
            r == self@[cell as int],
    {
        self.cells[cell]
    }

    pub fn set(&mut self, cell: usize, value: V)
        requires
            cell < old(self)@.len(),
        ensures
            final(self)@ == old(self)@.update(cell as int, value),
    {
        self.cells.set(cell, value);
    }
}

/// What every kind of signal that a bus carries offers: a definition and,
/// where it is bound to one, the value cell that it reads.
pub trait SigTrait {
    spec fn spec_def(&self) -> SigDefView;

    spec fn spec_cell(&self) -> Option<usize>;

    fn sigdef(&self) -> (r: &SigDef)
        ensures
            r@ == self.spec_def(),
    ;

    fn cell(&self) -> (r: Option<usize>)
        ensures
            r == self.spec_cell(),
    ;
}

pub ghost struct SignalView {
    pub def: SigDefView,
    pub cell: usize,
}

/// A signal that owns a value cell.
#[derive(Debug, Clone)]
pub struct Signal {
    cell: usize,
    sigdef: SigDef,
}

impl View for Signal {
    type V = SignalView;

    closed spec fn view(&self) -> SignalView {
        SignalView { def: self.sigdef@, cell: self.cell }
    }
}

impl Signal {
    /// A signal with a freshly allocated cell that holds `initvalue`.
    pub fn new<V: Copy>(store: &mut ValueStore<V>, initvalue: V, name: &str, unit: &str) -> (r:
        Signal)
        ensures
            r@.def.name == name@,
            r@.def.unit == unit@,
            r@.cell == old(store)@.len(),
            final(store)@ == old(store)@.push(initvalue),
    {
        let cell = store.add_cell(initvalue);
        Signal { cell, sigdef: SigDef::new(name, unit) }
    }

    /// A signal with a freshly allocated cell, described by `def`.
    pub fn from_def<V: Copy>(store: &mut ValueStore<V>, initvalue: V, def: &SigDef) -> (r: Signal)
        ensures
            r@.def == def@,
            r@.cell == old(store)@.len(),
            final(store)@ == old(store)@.push(initvalue),
    {
        let cell = store.add_cell(initvalue);
        Signal { cell, sigdef: def.duplicate() }
    }

    pub fn name(&self) -> (r: &str)
        ensures
            r@ == self@.def.name,
    {
        self.sigdef.name()
    }

    pub fn unit(&self) -> (r: &str)
        ensures
            r@ == self@.def.unit,
    {
        self.sigdef.unit()
    }

    /// Index of the cell that this signal owns.
    pub fn cell_index(&self) -> (r: usize)
        ensures
            r == self@.cell,
    {
        self.cell
    }

    pub fn val<V: Copy>(&self, store: &ValueStore<V>) -> (r: V)
        requires
            self@.cell < store@.len(),
        ensures
            r == store@[self@.cell as int],
    {
        store.get(self.cell)
    }

    pub fn set_val<V: Copy>(&self, store: &mut ValueStore<V>, val: V)
        requires
            self@.cell < old(store)@.len(),
        ensures
            final(store)@ == old(store)@.update(self@.cell as int, val),
    {
        store.set(self.cell, val);
    }
}

impl SigTrait for Signal {
    open spec fn spec_def(&self) -> SigDefView {
        self@.def
    }

    open spec fn spec_cell(&self) -> Option<usize> {
        Some(self@.cell)
    }

    fn sigdef(&self) -> (r: &SigDef) {
        &self.sigdef
    }

    fn cell(&self) -> (r: Option<usize>) {
        Some(self.cell)
    }
}

/// Why a reference slot could not be bound.
#[derive(Debug, Clone, Copy, PartialEq, Eq, Structural)]
pub enum BindError {
    /// The slot is bound already; it must be disconnected first.
    AlreadyConnected,
    /// The source has no value cell to read (an unbound reference slot).
    SourceUnbound,
}

pub ghost struct RefSignalView {
    pub def: SigDefView,
    pub source: Option<usize>,
}

/// A named placeholder that, once bound, reads a value cell owned elsewhere.
#[derive(Debug, Clone)]
pub struct RefSignal {
    source: Option<usize>,
    sigdef: SigDef,
}

impl View for RefSignal {
    type V = RefSignalView;

    closed spec fn view(&self) -> RefSignalView {
        RefSignalView { def: self.sigdef@, source: self.source }
    }
}

impl RefSignal {
    /// An unbound slot.
    pub fn new(name: &str, unit: &str) -> (r: RefSignal)
        ensures
            r@.def.name == name@,
            r@.def.unit == unit@,
            r@.source is None,
    {
        RefSignal { source: None, sigdef: SigDef::new(name, unit) }
    }

    /// An unbound slot described by `def`.
    pub fn from_def(def: &SigDef) -> (r: RefSignal)
        ensures
            r@.def == def@,
            r@.source is None,
    {
        RefSignal { source: None, sigdef: def.duplicate() }
    }

    pub fn name(&self) -> (r: &str)
        ensures
            r@ == self@.def.name,
    {
        self.sigdef.name()
    }

    pub fn unit(&self) -> (r: &str)
        ensures
            r@ == self@.def.unit,
    {
        self.sigdef.unit()
    }

    /// Binds this slot to the cell that `signal` reads. A bound slot is left
    /// as it is and the call fails.
    pub fn connect_to<T: SigTrait>(&mut self, signal: &T) -> (r: Result<(), BindError>)
        ensures
            old(self)@.source is Some ==> r == Err::<(), BindError>(BindError::AlreadyConnected)
                && final(self)@ == old(self)@,
            old(self)@.source is None && signal.spec_cell() is None ==> r == Err::<(), BindError>(
                BindError::SourceUnbound,
            ) && final(self)@ == old(self)@,
            old(self)@.source is None && signal.spec_cell() is Some ==> r is Ok && final(self)@
                == (RefSignalView { def: old(self)@.def, source: signal.spec_cell() }),
    {
        if self.source.is_some() {
            return Err(BindError::AlreadyConnected);
        }
        match signal.cell() {
            Some(c) => {
                self.source = Some(c);
                Ok(())
            },
            None => Err(BindError::SourceUnbound),
        }
    }

    pub fn is_connected(&self) -> (r: bool)
        ensures
            r == self@.source is Some,
    {
        self.source.is_some()
    }

    pub fn disconnect(&mut self)
        ensures
            final(self)@ == (RefSignalView { def: old(self)@.def, source: None }),
    {
        self.source = None;
    }

    /// Reads the bound cell. Reading an unbound slot is a wiring fault, which
    /// the contract rules out.
    pub fn val<V: Copy>(&self, store: &ValueStore<V>) -> (r: V)
        requires
            self@.source is Some,
            self@.source->0 < store@.len(),
        ensures
            r == store@[self@.source->0 as int],
    {
        store.get(self.source.unwrap())
    }
}

impl SigTrait for RefSignal {
    open spec fn spec_def(&self) -> SigDefView {
        self@.def
    }

    open spec fn spec_cell(&self) -> Option<usize> {
        self@.source
    }

    fn sigdef(&self) -> (r: &SigDef) {
        &self.sigdef
    }

    fn cell(&self) -> (r: Option<usize>) {
        self.source
    }
}

} // verus!
