//! The scheduler's own state: the clock, the registered models in execution
//! order, the named recorders, and progress reporting over a run.
use vstd::prelude::*;

verus! {

/// The position of `name` in `names`, if it occurs there.
pub open spec fn name_index(names: Seq<Seq<char>>, name: Seq<char>) -> Option<int> {
    if exists|i: int| 0 <= i < names.len() && #[trigger] names[i] == name {
        Some(choose|i: int| 0 <= i < names.len() && #[trigger] names[i] == name)
    } else {
        None
    }
}

/// Every name occurs once.
pub open spec fn unique_names(names: Seq<Seq<char>>) -> bool {
    forall|i: int, j: int|
        0 <= i < names.len() && 0 <= j < names.len() && i != j ==> #[trigger] names[i]
            != #[trigger] names[j]
}

proof fn lemma_name_index_at(names: Seq<Seq<char>>, i: int)
    requires
        unique_names(names),
        0 <= i < names.len(),
    ensures
        name_index(names, names[i]) == Some(i),
{
    let j = choose|j: int| 0 <= j < names.len() && #[trigger] names[j] == names[i];
    assert(names[j] == names[i]);
}

/// Why a scheduler lookup failed.
#[derive(Debug, Clone)]
pub enum SystemError {
    /// No recorder is registered under this name.
    RecorderNotFound(String),
}

/// The scheduler: a clock of type `C`, models of type `M` that step in the
/// order they were registered, and recorders of type `R` under unique names.
pub struct SimSystem<M, R, C> {
    sim_time: C,
    models: Vec<M>,
    recorder_names: Vec<String>,
    recorders: Vec<R>,
}

impl<M, R, C> SimSystem<M, R, C> {
    pub closed spec fn spec_sim_time(&self) -> C {
        self.sim_time
    }

    pub closed spec fn spec_models(&self) -> Seq<M> {
        self.models@
    }

    pub closed spec fn spec_recorder_names(&self) -> Seq<Seq<char>> {
        self.recorder_names@.map_values(|s: String| s@)
    }

    pub closed spec fn spec_recorders(&self) -> Seq<R> {
        self.recorders@
    }

    /// One recorder for each name, and names unique.
    pub open spec fn wf(&self) -> bool {
        &&& self.spec_recorder_names().len() == self.spec_recorders().len()
        &&& unique_names(self.spec_recorder_names())
    }

    pub fn new(sim_time: C) -> (r: SimSystem<M, R, C>)
        ensures
            r.wf(),
            r.spec_sim_time() == sim_time,
            r.spec_models().len() == 0,
            r.spec_recorders().len() == 0,
    {
        let r = SimSystem {
            sim_time,
            models: Vec::new(),
            recorder_names: Vec::new(),
            recorders: Vec::new(),
        };
        proof {
            assert(r.spec_recorder_names() =~= Seq::<Seq<char>>::empty());
        }
        r
    }

    pub fn set_sim_time(&mut self, sim_time: C)
        requires
            old(self).wf(),
        ensures
            final(self).wf(),
            final(self).spec_sim_time() == sim_time,
            final(self).spec_models() == old(self).spec_models(),
            final(self).spec_recorder_names() == old(self).spec_recorder_names(),
            final(self).spec_recorders() == old(self).spec_recorders(),
    {
        self.sim_time = sim_time;
    }

    /// The clock, for the caller to advance.
    pub fn sim_time(&mut self) -> (r: &mut C)
        requires
            old(self).wf(),
        ensures
            *r == old(self).spec_sim_time(),
            final(self).wf(),
            final(self).spec_sim_time() == *final(r),
            final(self).spec_models() == old(self).spec_models(),
            final(self).spec_recorder_names() == old(self).spec_recorder_names(),
            final(self).spec_recorders() == old(self).spec_recorders(),
    {
        &mut self.sim_time
    }

    /// Registers a model; it steps after every model registered before it.
    pub fn regist_model(&mut self, model: M)
        requires
            old(self).wf(),
        ensures
            final(self).wf(),
            final(self).spec_models() == old(self).spec_models().push(model),
            final(self).spec_sim_time() == old(self).spec_sim_time(),
            final(self).spec_recorder_names() == old(self).spec_recorder_names(),
            final(self).spec_recorders() == old(self).spec_recorders(),
    {
        self.models.push(model);
    }

    /// The models, in execution order.
    pub fn models(&self) -> (r: &Vec<M>)
        ensures
            r@ == self.spec_models(),
    {
        &self.models
    }

    /// The models, in execution order, for the caller to step.
    pub fn models_mut(&mut self) -> (r: &mut Vec<M>)
        requires
            old(self).wf(),
        ensures
            r@ == old(self).spec_models(),
            final(self).wf(),
            final(self).spec_models() == final(r)@,
            final(self).spec_sim_time() == old(self).spec_sim_time(),
            final(self).spec_recorder_names() == old(self).spec_recorder_names(),
            final(self).spec_recorders() == old(self).spec_recorders(),
    {
        &mut self.models
    }

    /// The recorders, in the order of their names' first registration.
    pub fn recorders_mut(&mut self) -> (r: &mut Vec<R>)
        requires
            old(self).wf(),
        ensures
            r@ == old(self).spec_recorders(),
            final(r)@.len() == r@.len() ==> final(self).wf(),
            final(self).spec_recorders() == final(r)@,
            final(self).spec_models() == old(self).spec_models(),
            final(self).spec_sim_time() == old(self).spec_sim_time(),
            final(self).spec_recorder_names() == old(self).spec_recorder_names(),
    {
        &mut self.recorders
    }

    fn recorder_index(&self, name: &str) -> (r: Option<usize>)
        requires
            self.wf(),
        ensures
            r is Some == name_index(self.spec_recorder_names(), name@) is Some,
            r is Some ==> r->0 == name_index(self.spec_recorder_names(), name@)->0,
    {
        let key = name.to_owned();
        let mut i: usize = 0;
        while i < self.recorder_names.len()
            invariant
                i <= self.recorder_names@.len(),
                self.wf(),
                key@ == name@,
                forall|j: int| 0 <= j < i ==> #[trigger] self.spec_recorder_names()[j] != name@,
            decreases self.recorder_names@.len() - i,
        {
            if self.recorder_names[i] == key {
                proof {
                    assert(self.spec_recorder_names()[i as int] == name@);
                    lemma_name_index_at(self.spec_recorder_names(), i as int);
                }
                return Some(i);
            }
            i += 1;
        }
        None
    }

    /// Registers `recorder` under `name`. A recorder registered earlier
    /// under the same name is replaced.
    pub fn regist_recorder(&mut self, name: &str, recorder: R)
        requires
            old(self).wf(),
        ensures
            final(self).wf(),
            final(self).spec_models() == old(self).spec_models(),
            final(self).spec_sim_time() == old(self).spec_sim_time(),
            name_index(old(self).spec_recorder_names(), name@) matches Some(i) ==> final(self).spec_recorder_names()
                == old(self).spec_recorder_names() && final(self).spec_recorders() == old(
                self,
            ).spec_recorders().update(i, recorder),
            name_index(old(self).spec_recorder_names(), name@) is None ==> final(self).spec_recorder_names()
                == old(self).spec_recorder_names().push(name@) && final(self).spec_recorders()
                == old(self).spec_recorders().push(recorder),
    {
        match self.recorder_index(name) {
            Some(i) => {
                self.recorders.set(i, recorder);
            },
            None => {
                let ghost names0 = self.spec_recorder_names();
                self.recorder_names.push(name.to_owned());
                self.recorders.push(recorder);
                proof {
                    let names1 = self.spec_recorder_names();
                    assert(names1 =~= names0.push(name@));
                    assert forall|i: int, j: int|
                        0 <= i < names1.len() && 0 <= j < names1.len() && i != j implies #[trigger] names1[i]
                            != #[trigger] names1[j] by {
                        if i < names0.len() && j < names0.len() {
                            assert(names0[i] != names0[j]);
                        } else if i < names0.len() {
                            assert(names0[i] != name@);
                        } else {
                            assert(names0[j] != name@);
                        }
                    }
                }
            },
        }
    }

    /// The recorder registered under `name`.
    pub fn get_recorder(&mut self, name: &str) -> (r: Result<&mut R, SystemError>)
        requires
            old(self).wf(),
        ensures
            r is Ok == name_index(old(self).spec_recorder_names(), name@) is Some,
            r is Err ==> *final(self) == *old(self),
            r matches Ok(x) ==> {
                let i = name_index(old(self).spec_recorder_names(), name@)->0;
                &&& *x == old(self).spec_recorders()[i]
                &&& final(self).wf()
                &&& final(self).spec_recorders() == old(self).spec_recorders().update(i, *final(x))
                &&& final(self).spec_recorder_names() == old(self).spec_recorder_names()
                &&& final(self).spec_models() == old(self).spec_models()
                &&& final(self).spec_sim_time() == old(self).spec_sim_time()
            },
    {
        match self.recorder_index(name) {
            Some(i) => Ok(&mut self.recorders[i]),
            None => Err(SystemError::RecorderNotFound(name.to_owned())),
        }
    }
}


pub ghost struct ProgressView {
    pub interval: nat,
    pub count: nat,
    pub reports: nat,
}

/// Progress reporting over a run: one report each time `interval` ticks
/// have passed since the last one, where `interval` is a tenth of the run's
/// step count (every tick when the run has fewer than ten steps).
#[derive(Debug, Clone, Copy)]
pub struct Progress {
    interval: usize,
    count: usize,
    reports: usize,
}

impl View for Progress {
    type V = ProgressView;

    closed spec fn view(&self) -> ProgressView {
        ProgressView {
            interval: self.interval as nat,
            count: self.count as nat,
            reports: self.reports as nat,
        }
    }
}

impl Progress {
    /// Ticks since the last report stay below the interval.
    pub open spec fn wf(&self) -> bool {
        self@.count == 0 || self@.count < self@.interval
    }

    /// Progress of a run of `step_num` steps, before its first tick.
    pub fn new(step_num: usize) -> (r: Progress)
        ensures
            r.wf(),
            r@ == (ProgressView { interval: (step_num / 10) as nat, count: 0, reports: 0 }),
    {
        Progress { interval: step_num / 10, count: 0, reports: 0 }
    }

    /// Counts one tick. Returns the ordinal of the report that is due at
    /// this tick (the `k`-th report marks `10 * k` percent), if one is.
    pub fn tick(&mut self) -> (r: Option<usize>)
        requires
            old(self).wf(),
            old(self)@.reports < usize::MAX,
        ensures
            final(self).wf(),
            final(self)@.interval == old(self)@.interval,
            old(self)@.count + 1 >= old(self)@.interval ==> {
                &&& r == Some((old(self)@.reports + 1) as usize)
                &&& final(self)@.count == 0
                &&& final(self)@.reports == old(self)@.reports + 1
            },
            old(self)@.count + 1 < old(self)@.interval ==> {
                &&& r is None
                &&& final(self)@.count == old(self)@.count + 1
                &&& final(self)@.reports == old(self)@.reports
            },
    {
        let count = self.count + 1;
        if count >= self.interval {
            self.count = 0;
            self.reports = self.reports + 1;
            Some(self.reports)
        } else {
            self.count = count;
            None
        }
    }

    /// Reports made so far.
    pub fn reports(&self) -> (r: usize)
        ensures
            r == self@.reports,
    {
        self.reports
    }
}

} // verus!
