//! A composite model: a private set of models behind one bus surface, with
//! buffer buses that decouple the outside wiring from the inside wiring.
use vstd::prelude::*;
use crate::signal::{SigDef, SigTrait, RefSignal, Signal, ValueStore};
use crate::bus::{
    Bus, RefBus, BusError, ConnectError, defs_unique, names_unique, lookup, lemma_lookup_at, str_names,
    connectable, connected, source_cell, lemma_lookup_found, lemma_unresolved_empty,
    lemma_missing_listed,
};

verus! {

/// A composite model. Inbound values are copied from the outside input bus
/// into an input buffer that inner models read; outbound values are copied
/// from an output buffer, bound to inner models' outputs, into the outside
/// output bus. `M` is the kind of inner model, `D` the step size. The step
/// size is kept for stepping inner models several times per outer tick;
/// as it stands, inner models step once per outer tick.
pub struct SubSystem<M, D> {
    inbus: RefBus,
    inbus_buf: Bus,
    outbus: Bus,
    outbus_buf: RefBus,
    models: Vec<M>,
    delta_t: D,
}

impl<M, D: Copy> SubSystem<M, D> {
    pub closed spec fn spec_inbus(&self) -> Seq<RefSignal> {
        self.inbus@
    }

    pub closed spec fn spec_inbus_buf(&self) -> Seq<Signal> {
        self.inbus_buf@
    }

    pub closed spec fn spec_outbus(&self) -> Seq<Signal> {
        self.outbus@
    }

    pub closed spec fn spec_outbus_buf(&self) -> Seq<RefSignal> {
        self.outbus_buf@
    }

    pub closed spec fn spec_models(&self) -> Seq<M> {
        self.models@
    }

    pub closed spec fn spec_delta_t(&self) -> D {
        self.delta_t
    }

    /// The buffers mirror the outside buses: same definitions, in the same
    /// order; the buses that own cells own distinct ones.
    pub closed spec fn wf(&self) -> bool {
        &&& self.inbus.wf()
        &&& self.inbus_buf.wf()
        &&& self.inbus_buf.cells_distinct()
        &&& self.outbus.wf()
        &&& self.outbus.cells_distinct()
        &&& self.outbus_buf.wf()
        &&& self.outbus_buf@.len() == self.outbus@.len()
        &&& forall|i: int|
            0 <= i < self.outbus@.len() ==> (#[trigger] self.outbus_buf@[i])@.def
                == self.outbus@[i]@.def
    }

    /// Builds the composite's buses from its input and output definitions;
    /// new cells hold `initvalue`. Fails, allocating nothing, if either list
    /// repeats a name.
    pub fn new<V: Copy>(
        store: &mut ValueStore<V>,
        input_def: &Vec<SigDef>,
        output_def: &Vec<SigDef>,
        delta_t: D,
        initvalue: V,
    ) -> (r: Result<SubSystem<M, D>, BusError>)
        ensures
            r is Ok == (defs_unique(input_def@) && defs_unique(output_def@)),
            r is Err ==> final(store)@ == old(store)@,
            r matches Ok(sub) ==> {
                &&& sub.wf()
                &&& sub.spec_models().len() == 0
                &&& sub.spec_delta_t() == delta_t
                &&& sub.spec_inbus().len() == input_def@.len()
                &&& sub.spec_inbus_buf().len() == input_def@.len()
                &&& sub.spec_outbus().len() == output_def@.len()
                &&& forall|i: int|
                    0 <= i < input_def@.len() ==> (#[trigger] sub.spec_inbus()[i])@.def
                        == input_def@[i]@ && sub.spec_inbus()[i]@.source is None
                        && sub.spec_inbus_buf()[i]@.def == input_def@[i]@
                &&& forall|i: int|
                    0 <= i < output_def@.len() ==> (#[trigger] sub.spec_outbus()[i])@.def
                        == output_def@[i]@ && sub.spec_outbus_buf()[i]@.source is None
                &&& forall|i: int|
                    0 <= i < input_def@.len() ==> (#[trigger] sub.spec_inbus_buf()[i])@.cell
                        < final(store)@.len()
                &&& forall|i: int|
                    0 <= i < output_def@.len() ==> (#[trigger] sub.spec_outbus()[i])@.cell
                        < final(store)@.len()
                &&& final(store)@.len() == old(store)@.len() + input_def@.len() + output_def@.len()
                &&& forall|k: int| 0 <= k < old(store)@.len() ==> #[trigger] final(store)@[k] == old(store)@[k]
            },
    {
        let inbus = match RefBus::try_from_sigdefs(input_def) {
            Ok(b) => b,
            Err(e) => {
                return Err(e);
            },
        };
        let outbus_buf = match RefBus::try_from_sigdefs(output_def) {
            Ok(b) => b,
            Err(e) => {
                return Err(e);
            },
        };
        let ghost s0 = store@;
        let inbus_buf = match Bus::try_from_sigdefs(store, input_def, initvalue) {
            Ok(b) => b,
            Err(e) => {
                return Err(e);
            },
        };
        let ghost s1 = store@;
        let outbus = match Bus::try_from_sigdefs(store, output_def, initvalue) {
            Ok(b) => b,
            Err(e) => {
                return Err(e);
            },
        };
        proof {
            assert forall|k: int| 0 <= k < s0.len() implies #[trigger] store@[k] == s0[k] by {
                assert(s1[k] == s0[k]);
            }
        }
        Ok(SubSystem { inbus, inbus_buf, outbus, outbus_buf, models: Vec::new(), delta_t })
    }

    /// Adds an inner model; inner models step in the order they were added.
    pub fn regist_model(&mut self, model: M)
        requires
            old(self).wf(),
        ensures
            final(self).wf(),
            final(self).spec_models() == old(self).spec_models().push(model),
            final(self).spec_inbus() == old(self).spec_inbus(),
            final(self).spec_inbus_buf() == old(self).spec_inbus_buf(),
            final(self).spec_outbus() == old(self).spec_outbus(),
            final(self).spec_outbus_buf() == old(self).spec_outbus_buf(),
    {
        self.models.push(model);
    }

    pub fn delta_t(&self) -> (r: D)
        ensures
            r == self.spec_delta_t(),
    {
        self.delta_t
    }

    /// Replaces the step size; the buses and models stay as they are.
    pub fn set_delta_t(&mut self, delta_t: D)
        requires
            old(self).wf(),
        ensures
            final(self).wf(),
            final(self).spec_delta_t() == delta_t,
            final(self).spec_models() == old(self).spec_models(),
            final(self).spec_inbus() == old(self).spec_inbus(),
            final(self).spec_inbus_buf() == old(self).spec_inbus_buf(),
            final(self).spec_outbus() == old(self).spec_outbus(),
            final(self).spec_outbus_buf() == old(self).spec_outbus_buf(),
    {
        self.delta_t = delta_t;
    }

    /// The inner models, to be stepped by the caller between
    /// `pull_inputs` and `push_outputs`.
    pub fn models_mut(&mut self) -> (r: &mut Vec<M>)
        requires
            old(self).wf(),
        ensures
            r@ == old(self).spec_models(),
            final(self).wf(),
            final(self).spec_models() == final(r)@,
            final(self).spec_inbus() == old(self).spec_inbus(),
            final(self).spec_inbus_buf() == old(self).spec_inbus_buf(),
            final(self).spec_outbus() == old(self).spec_outbus(),
            final(self).spec_outbus_buf() == old(self).spec_outbus_buf(),
            final(self).spec_delta_t() == old(self).spec_delta_t(),
    {
        &mut self.models
    }

    /// The outside input bus, to be bound to the sources of this composite.
    pub fn interface_in(&mut self) -> (r: &mut RefBus)
        requires
            old(self).wf(),
        ensures
            r@ == old(self).spec_inbus(),
            final(r).wf() ==> final(self).wf(),
            final(self).spec_inbus() == final(r)@,
            final(self).spec_models() == old(self).spec_models(),
            final(self).spec_inbus_buf() == old(self).spec_inbus_buf(),
            final(self).spec_outbus() == old(self).spec_outbus(),
            final(self).spec_outbus_buf() == old(self).spec_outbus_buf(),
            final(self).spec_delta_t() == old(self).spec_delta_t(),
    {
        &mut self.inbus
    }

    /// The outside output bus.
    pub fn interface_out(&self) -> (r: &Bus)
        ensures
            r@ == self.spec_outbus(),
    {
        &self.outbus
    }

    /// The input buffer that inner models read.
    pub fn inbus_buf(&self) -> (r: &Bus)
        ensures
            r@ == self.spec_inbus_buf(),
    {
        &self.inbus_buf
    }

    /// Binds an inner model's input slots to this composite's input buffer.
    pub fn connect_inbus(&self, target_inbus: &mut RefBus, srclist: &[&str], dstlist: &[&str]) -> (r:
        Result<(), ConnectError>)
        requires
            self.wf(),
            old(target_inbus).wf(),
        ensures
            final(target_inbus).wf(),
            r is Err ==> final(target_inbus)@ == old(target_inbus)@,
            srclist@.len() != dstlist@.len() ==> r matches Err(ConnectError::LengthMismatch),
            srclist@.len() == dstlist@.len() ==> {
                let sn = str_names(srclist@);
                let dn = str_names(dstlist@);
                &&& r is Ok == connectable(old(target_inbus)@, self.spec_inbus_buf(), sn, dn)
                &&& r is Ok ==> connected(
                    old(target_inbus)@,
                    final(target_inbus)@,
                    self.spec_inbus_buf(),
                    sn,
                    dn,
                )
            },
    {
        target_inbus.connect_to(&self.inbus_buf, srclist, dstlist)
    }

    /// Binds this composite's output buffer to an inner model's outputs.
    pub fn connect_outbus(&mut self, target_outbus: &Bus, srclist: &[&str], dstlist: &[&str]) -> (r:
        Result<(), ConnectError>)
        requires
            old(self).wf(),
            target_outbus.wf(),
        ensures
            final(self).wf(),
            final(self).spec_models() == old(self).spec_models(),
            final(self).spec_inbus() == old(self).spec_inbus(),
            final(self).spec_inbus_buf() == old(self).spec_inbus_buf(),
            final(self).spec_outbus() == old(self).spec_outbus(),
            final(self).spec_delta_t() == old(self).spec_delta_t(),
            r is Err ==> final(self).spec_outbus_buf() == old(self).spec_outbus_buf(),
            srclist@.len() != dstlist@.len() ==> r matches Err(ConnectError::LengthMismatch),
            srclist@.len() == dstlist@.len() ==> {
                let sn = str_names(srclist@);
                let dn = str_names(dstlist@);
                &&& r is Ok == connectable(old(self).spec_outbus_buf(), target_outbus@, sn, dn)
                &&& r is Ok ==> connected(
                    old(self).spec_outbus_buf(),
                    final(self).spec_outbus_buf(),
                    target_outbus@,
                    sn,
                    dn,
                )
            },
    {
        let r = self.outbus_buf.connect_to(target_outbus, srclist, dstlist);
        proof {
            if r is Ok {
                let sn = str_names(srclist@);
                let dn = str_names(dstlist@);
                assert(connected(old(self).outbus_buf@, self.outbus_buf@, target_outbus@, sn, dn));
                assert forall|i: int| 0 <= i < self.outbus@.len() implies (#[trigger] self.outbus_buf@[i])@.def
                    == self.outbus@[i]@.def by {
                    assert(self.outbus_buf@[i]@.def == old(self).outbus_buf@[i]@.def);
                }
            }
        }
        r
    }
}


impl<M, D: Copy> SubSystem<M, D> {
    /// Every bus of the composite reads cells of a store of `n` cells: the
    /// outside inputs and the output buffer are bound throughout.
    pub open spec fn ready(&self, n: nat) -> bool {
        &&& self.wf()
        &&& self.spec_inbus().len() == self.spec_inbus_buf().len()
        &&& forall|i: int|
            0 <= i < self.spec_inbus().len() ==> ((#[trigger] self.spec_inbus()[i])@.source matches Some(c) && c < n)
        &&& forall|i: int|
            0 <= i < self.spec_inbus_buf().len() ==> (#[trigger] self.spec_inbus_buf()[i])@.cell < n
        &&& forall|i: int|
            0 <= i < self.spec_outbus_buf().len() ==> ((#[trigger] self.spec_outbus_buf()[i])@.source matches Some(c) && c < n)
        &&& forall|i: int|
            0 <= i < self.spec_outbus().len() ==> (#[trigger] self.spec_outbus()[i])@.cell < n
    }

    /// `after` is `before` with the output bus's cells holding what the
    /// output buffer reads in `before`, position by position.
    pub open spec fn outputs_pushed<V>(&self, before: Seq<V>, after: Seq<V>) -> bool {
        &&& after.len() == before.len()
        &&& forall|i: int|
            0 <= i < self.spec_outbus().len() ==> after[(#[trigger] self.spec_outbus()[i])@.cell as int]
                == before[self.spec_outbus_buf()[i]@.source->0 as int]
        &&& forall|c: int|
            0 <= c < before.len() && !(exists|i: int|
                0 <= i < self.spec_outbus().len() && (#[trigger] self.spec_outbus()[i])@.cell == c)
                ==> #[trigger] after[c] == before[c]
    }

    /// `after` is `before` with the input buffer's cells holding what the
    /// outside input bus reads in `before`, position by position.
    pub open spec fn inputs_pulled<V>(&self, before: Seq<V>, after: Seq<V>) -> bool {
        &&& after.len() == before.len()
        &&& forall|i: int|
            0 <= i < self.spec_inbus_buf().len() ==> after[(#[trigger] self.spec_inbus_buf()[i])@.cell as int]
                == before[self.spec_inbus()[i]@.source->0 as int]
        &&& forall|c: int|
            0 <= c < before.len() && !(exists|i: int|
                0 <= i < self.spec_inbus_buf().len() && (#[trigger] self.spec_inbus_buf()[i])@.cell == c)
                ==> #[trigger] after[c] == before[c]
    }

    /// Whether the composite can be stepped against `store`.
    pub fn is_ready<V: Copy>(&self, store: &ValueStore<V>) -> (r: bool)
        requires
            self.wf(),
        ensures
            r == self.ready(store@.len()),
    {
        let n = store.len();
        let r = self.inbus.len() == self.inbus_buf.len() && self.inbus.is_readable(n)
            && self.inbus_buf.is_readable(n) && self.outbus_buf.is_readable(n)
            && self.outbus.is_readable(n);
        proof {
            if self.inbus.readable(n as nat) {
                assert forall|i: int| 0 <= i < self.spec_inbus().len() implies ((#[trigger] self.spec_inbus()[i])@.source matches Some(c) && c < n) by {
                    assert(self.inbus@[i].spec_cell() is Some);
                }
            }
            if self.inbus_buf.readable(n as nat) {
                assert forall|i: int| 0 <= i < self.spec_inbus_buf().len() implies (#[trigger] self.spec_inbus_buf()[i])@.cell < n by {
                    assert(self.inbus_buf@[i].spec_cell() is Some);
                }
            }
            if self.outbus_buf.readable(n as nat) {
                assert forall|i: int| 0 <= i < self.spec_outbus_buf().len() implies ((#[trigger] self.spec_outbus_buf()[i])@.source matches Some(c) && c < n) by {
                    assert(self.outbus_buf@[i].spec_cell() is Some);
                }
            }
            if self.outbus.readable(n as nat) {
                assert forall|i: int| 0 <= i < self.spec_outbus().len() implies (#[trigger] self.spec_outbus()[i])@.cell < n by {
                    assert(self.outbus@[i].spec_cell() is Some);
                }
            }
            if self.ready(n as nat) {
                assert forall|i: int| 0 <= i < self.inbus@.len() implies (#[trigger] self.inbus@[i].spec_cell() matches Some(c) && c < n) by {
                    assert(self.spec_inbus()[i]@.source is Some);
                }
                assert forall|i: int| 0 <= i < self.inbus_buf@.len() implies (#[trigger] self.inbus_buf@[i].spec_cell() matches Some(c) && c < n) by {
                    assert(self.spec_inbus_buf()[i]@.cell < n);
                }
                assert forall|i: int| 0 <= i < self.outbus_buf@.len() implies (#[trigger] self.outbus_buf@[i].spec_cell() matches Some(c) && c < n) by {
                    assert(self.spec_outbus_buf()[i]@.source is Some);
                }
                assert forall|i: int| 0 <= i < self.outbus@.len() implies (#[trigger] self.outbus@[i].spec_cell() matches Some(c) && c < n) by {
                    assert(self.spec_outbus()[i]@.cell < n);
                }
            }
        }
        r
    }

    /// Copies the outside inputs into the input buffer; done once per tick
    /// before the inner models step.
    pub fn pull_inputs<V: Copy>(&self, store: &mut ValueStore<V>)
        requires
            self.ready(old(store)@.len()),
        ensures
            self.inputs_pulled(old(store)@, final(store)@),
    {
        let n = store.len();
        proof {
            assert forall|i: int| 0 <= i < self.inbus@.len() implies (#[trigger] self.inbus@[i].spec_cell() matches Some(c) && c < n) by {
                assert(self.spec_inbus()[i]@.source is Some);
            }
            assert forall|i: int| 0 <= i < self.inbus_buf@.len() implies (#[trigger] self.inbus_buf@[i].spec_cell() matches Some(c) && c < n) by {
                assert(self.spec_inbus_buf()[i]@.cell < n);
            }
        }
        self.inbus_buf.copy_val_from_bus(store, &self.inbus);
        proof {
            assert forall|c: int|
                0 <= c < old(store)@.len() && !(exists|i: int|
                    0 <= i < self.spec_inbus_buf().len() && (#[trigger] self.spec_inbus_buf()[i])@.cell == c)
                    implies #[trigger] store@[c] == old(store)@[c] by {
                assert(!self.inbus_buf.owns_cell(c));
            }
        }
    }

    /// Copies what the output buffer reads into the outside output bus; done
    /// once per tick after the inner models step.
    pub fn push_outputs<V: Copy>(&self, store: &mut ValueStore<V>)
        requires
            self.ready(old(store)@.len()),
        ensures
            self.outputs_pushed(old(store)@, final(store)@),
    {
        let n = store.len();
        proof {
            assert forall|i: int| 0 <= i < self.outbus_buf@.len() implies (#[trigger] self.outbus_buf@[i].spec_cell() matches Some(c) && c < n) by {
                assert(self.spec_outbus_buf()[i]@.source is Some);
            }
            assert forall|i: int| 0 <= i < self.outbus@.len() implies (#[trigger] self.outbus@[i].spec_cell() matches Some(c) && c < n) by {
                assert(self.spec_outbus()[i]@.cell < n);
            }
        }
        self.outbus.copy_val_from_bus(store, &self.outbus_buf);
        proof {
            assert forall|c: int|
                0 <= c < old(store)@.len() && !(exists|i: int|
                    0 <= i < self.spec_outbus().len() && (#[trigger] self.spec_outbus()[i])@.cell == c)
                    implies #[trigger] store@[c] == old(store)@[c] by {
                assert(!self.outbus.owns_cell(c));
            }
        }
    }
}

/// Buffer transparency: once the output buffer has been bound to an inner
/// model's outputs, pushing the outputs makes each bound signal of the
/// composite's outside output bus hold exactly the value of the inner
/// model's output signal that it was connected to.
pub proof fn lemma_output_transparency<M, D: Copy, V>(
    sub0: SubSystem<M, D>,
    sub1: SubSystem<M, D>,
    target: Seq<Signal>,
    sn: Seq<Seq<char>>,
    dn: Seq<Seq<char>>,
    before: Seq<V>,
    after: Seq<V>,
    k: int,
)
    requires
        sub0.wf(),
        sub1.wf(),
        names_unique(target),
        sn.len() == dn.len(),
        connectable(sub0.spec_outbus_buf(), target, sn, dn),
        connected(sub0.spec_outbus_buf(), sub1.spec_outbus_buf(), target, sn, dn),
        sub1.spec_outbus() == sub0.spec_outbus(),
        sub1.outputs_pushed(before, after),
        0 <= k < dn.len(),
    ensures
        lookup(sub1.spec_outbus(), dn[k]) is Some,
        lookup(target, sn[k]) is Some,
        after[sub1.spec_outbus()[lookup(sub1.spec_outbus(), dn[k])->0]@.cell as int]
            == before[target[lookup(target, sn[k])->0]@.cell as int],
{
    let buf0 = sub0.spec_outbus_buf();
    lemma_unresolved_empty(target, sn, k);
    if lookup(buf0, dn[k]) is None {
        lemma_missing_listed(buf0, dn, k);
    }
    lemma_lookup_found(buf0, dn[k]);
    let i = lookup(buf0, dn[k])->0;
    assert(sub1.spec_outbus_buf()[i]@.source == source_cell(target, sn[k]));
    assert(sub1.spec_outbus()[i]@.def == buf0[i]@.def);
    lemma_lookup_at(sub1.spec_outbus(), i);
}

} // verus!
