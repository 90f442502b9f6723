use vstd::prelude::*;

use fine_grained::Stopwatch;

verus! {

#[verifier::external_type_specification]
#[verifier::external_body]
pub struct ExStopwatch(Stopwatch);

/// The lap times, in nanoseconds, that a `fine_grained::Stopwatch` has recorded (it keeps them
/// in a vector, in the order they were taken).
pub uninterp spec fn stopwatch_laps(watch: Stopwatch) -> Seq<u64>;

/// Whether a `fine_grained::Stopwatch` is running (its start time is set).
pub uninterp spec fn stopwatch_is_running(watch: Stopwatch) -> bool;

/// The sum of the given lap times.
pub open spec fn spec_sum(laps: Seq<u64>) -> int
    decreases laps.len(),
{
    if laps.len() == 0 {
        0
    } else {
        spec_sum(laps.drop_last()) + laps.last()
    }
}

/// `Stopwatch::new`: a stopwatch that is not running and has no laps.
#[verifier::external_body]
fn stopwatch_new() -> (r: Stopwatch)
    ensures
        stopwatch_laps(r) == Seq::<u64>::empty(),
        !stopwatch_is_running(r),
{
    Stopwatch::new()
}

/// `Stopwatch::start`: the stopwatch runs; its laps are kept. The profiler only ever starts a
/// stopwatch that is stopped: starting a running one would move its start time and lose the
/// time of its current lap.
#[verifier::external_body]
fn stopwatch_start(watch: &mut Stopwatch)
    requires
        !stopwatch_is_running(*old(watch)),
    ensures
        stopwatch_laps(*final(watch)) == stopwatch_laps(*old(watch)),
        stopwatch_is_running(*final(watch)),
{
    watch.start();
}

/// `Stopwatch::lap`: a running stopwatch records the time since its start or last lap as a new
/// lap, returns it, and keeps running; a stopwatch that is not running returns 0 and changes
/// nothing.
#[verifier::external_body]
fn stopwatch_lap(watch: &mut Stopwatch) -> (lap: u64)
    ensures
        stopwatch_is_running(*old(watch)) ==> stopwatch_laps(*final(watch)) == stopwatch_laps(
            *old(watch),
        ).push(lap) && stopwatch_is_running(*final(watch)),
        !stopwatch_is_running(*old(watch)) ==> lap == 0 && stopwatch_laps(*final(watch))
            == stopwatch_laps(*old(watch)) && !stopwatch_is_running(*final(watch)),
{
    watch.lap()
}

/// `Stopwatch::stop`: the stopwatch stops; its laps are kept.
#[verifier::external_body]
fn stopwatch_stop(watch: &mut Stopwatch)
    ensures
        stopwatch_laps(*final(watch)) == stopwatch_laps(*old(watch)),
        !stopwatch_is_running(*final(watch)),
{
    watch.stop();
}

/// `Stopwatch::number_of_laps`: the number of laps recorded.
#[verifier::external_body]
fn stopwatch_number_of_laps(watch: &Stopwatch) -> (r: usize)
    ensures
        r == stopwatch_laps(*watch).len(),
{
    watch.number_of_laps()
}

/// `Stopwatch::total_time`: the total measured time in nanoseconds. For a stopwatch that is not
/// running this is the sum of its laps (as long as that sum fits in 64 bits); for a running one
/// it also counts the time since the last lap, which depends on the clock.
#[verifier::external_body]
fn stopwatch_total_time(watch: &Stopwatch) -> (r: u64)
    ensures
        !stopwatch_is_running(*watch) && spec_sum(stopwatch_laps(*watch)) <= u64::MAX ==> r
            == spec_sum(stopwatch_laps(*watch)),
{
    watch.total_time()
}

/// Why the profiler refused a request.
#[derive(Debug, Clone, Copy, PartialEq, Eq, Structural)]
pub enum ProfilerError {
    /// No section is being timed.
    NoSectionRunning,
    /// No lap has been completed.
    NoData,
}

/// Average times collected by the `Profiler`, in whole microseconds.
pub struct ProfilingData {
    /// Number of laps.
    pub lap_count: usize,
    /// Average lap time.
    pub average_lap_time_us: u64,
    /// Average time of each section, in the order the sections were first started.
    pub average_section_times_us: Vec<(String, u64)>,
}

/// The stopwatches of a profiler and which section is being timed.
///
/// Sections are kept in the order they were first started. A run is timed by the main
/// stopwatch from the start of its first section to `stop`, and each section by its own
/// stopwatch while it is the current one.
struct ProfilerState {
    main_watch: Stopwatch,
    names: Vec<String>,
    watches: Vec<Stopwatch>,
    current_section: Option<usize>,
}

impl ProfilerState {
    /// The laps of whole runs.
    closed spec fn spec_main_laps(self) -> Seq<u64> {
        stopwatch_laps(self.main_watch)
    }

    /// Whether a run is being timed.
    closed spec fn spec_main_running(self) -> bool {
        stopwatch_is_running(self.main_watch)
    }

    /// The names of the sections, in the order they were first started.
    closed spec fn spec_names(self) -> Seq<Seq<char>> {
        self.names@.map_values(|n: String| n@)
    }

    /// The laps of each section, in the order of `spec_names`.
    closed spec fn spec_section_laps(self) -> Seq<Seq<u64>> {
        self.watches@.map_values(|w: Stopwatch| stopwatch_laps(w))
    }

    /// Whether each section's stopwatch is running, in the order of `spec_names`.
    closed spec fn spec_section_running(self) -> Seq<bool> {
        self.watches@.map_values(|w: Stopwatch| stopwatch_is_running(w))
    }

    /// The index of the section being timed, if any.
    closed spec fn spec_current(self) -> Option<usize> {
        self.current_section
    }

    /// Section names are distinct; a run is being timed exactly while a section is current,
    /// and exactly the current section's stopwatch runs.
    spec fn wf(self) -> bool {
        &&& self.spec_section_laps().len() == self.spec_names().len()
        &&& self.spec_section_running().len() == self.spec_names().len()
        &&& forall|i: int, j: int|
            0 <= i < j < self.spec_names().len() ==> self.spec_names()[i]
                != self.spec_names()[j]
        &&& self.spec_main_running() == (self.spec_current() is Some)
        &&& self.spec_current() matches Some(c) ==> c < self.spec_names().len()
        &&& forall|i: int|
            0 <= i < self.spec_names().len() ==> #[trigger] self.spec_section_running()[i]
                == self.is_current(i)
    }

    /// Whether section `i` is the one being timed.
    spec fn is_current(self, i: int) -> bool {
        self.spec_current() matches Some(c) && c == i
    }

    /// A profiler with no sections and no laps.
    fn new() -> (r: Self)
        ensures
            r.wf(),
            r.spec_main_laps() == Seq::<u64>::empty(),
            r.spec_names() == Seq::<Seq<char>>::empty(),
            r.spec_current() is None,
    {
        let r = Self {
            main_watch: stopwatch_new(),
            names: Vec::new(),
            watches: Vec::new(),
            current_section: None,
        };
        assert(r.spec_names() =~= Seq::<Seq<char>>::empty());
        assert(r.spec_section_laps() =~= Seq::<Seq<u64>>::empty());
        assert(r.spec_section_running() =~= Seq::<bool>::empty());
        r
    }

    fn find_section(&self, name: &String) -> (r: Option<usize>)
        ensures
            r matches Some(i) ==> i < self.spec_names().len() && self.spec_names()[i as int]
                == name@,
            r is None ==> !self.spec_names().contains(name@),
    {
        let mut i: usize = 0;
        while i < self.names.len()
            invariant
                i <= self.names@.len(),
                self.spec_names() == self.names@.map_values(|n: String| n@),
                forall|j: int| 0 <= j < i ==> self.spec_names()[j] != name@,
            decreases self.names@.len() - i,
        {
            if self.names[i] == *name {
                return Some(i);
            }
            i = i + 1;
        }
        proof {
            if self.spec_names().contains(name@) {
                let k = choose|k: int| 0 <= k < self.spec_names().len() && self.spec_names()[k] == name@;
                assert(self.spec_names()[k] != name@);
            }
        }
        None
    }

    /// Takes a lap (unless `cancel`) on the stopwatch of section `index` and stops it.
    fn lap_and_stop_section(&mut self, index: usize, cancel: bool)
        requires
            index < old(self).watches@.len(),
        ensures
            final(self).main_watch == old(self).main_watch,
            final(self).names == old(self).names,
            final(self).current_section == old(self).current_section,
            final(self).watches@.len() == old(self).watches@.len(),
            forall|i: int|
                0 <= i < old(self).watches@.len() && i != index ==> #[trigger] final(self).watches@[i]
                    == old(self).watches@[i],
            !stopwatch_is_running(final(self).watches@[index as int]),
            !cancel && stopwatch_is_running(old(self).watches@[index as int]) ==> stopwatch_laps(
                final(self).watches@[index as int],
            ).drop_last() == stopwatch_laps(old(self).watches@[index as int]) && stopwatch_laps(
                final(self).watches@[index as int],
            ).len() == stopwatch_laps(old(self).watches@[index as int]).len() + 1,
            cancel || !stopwatch_is_running(old(self).watches@[index as int]) ==> stopwatch_laps(
                final(self).watches@[index as int],
            ) == stopwatch_laps(old(self).watches@[index as int]),
    {
        let mut watch = self.watches.remove(index);
        if !cancel {
            stopwatch_lap(&mut watch);
        }
        stopwatch_stop(&mut watch);
        self.watches.insert(index, watch);
        proof {
            assert forall|i: int|
                0 <= i < old(self).watches@.len() && i != index implies #[trigger] self.watches@[i]
                == old(self).watches@[i] by {
                if i < index {
                } else {
                }
            }
        }
    }
}

impl ProfilerState {
    fn start_section_watch(&mut self, index: usize)
        requires
            index < old(self).watches@.len(),
            !stopwatch_is_running(old(self).watches@[index as int]),
        ensures
            final(self).main_watch == old(self).main_watch,
            final(self).names == old(self).names,
            final(self).current_section == old(self).current_section,
            final(self).watches@.len() == old(self).watches@.len(),
            forall|i: int|
                0 <= i < old(self).watches@.len() && i != index ==> #[trigger] final(self).watches@[i]
                    == old(self).watches@[i],
            stopwatch_is_running(final(self).watches@[index as int]),
            stopwatch_laps(final(self).watches@[index as int]) == stopwatch_laps(
                old(self).watches@[index as int],
            ),
    {
        let mut watch = self.watches.remove(index);
        stopwatch_start(&mut watch);
        self.watches.insert(index, watch);
        proof {
            assert forall|i: int|
                0 <= i < old(self).watches@.len() && i != index implies #[trigger] self.watches@[i]
                == old(self).watches@[i] by {
                if i < index {
                } else {
                }
            }
        }
    }

    /// Starts the timer of the section `name`, creating the section after the existing ones if
    /// it is new. The section being timed, if any, is stopped first and gets a lap; otherwise a
    /// new run starts.
    fn start_section(&mut self, name: &str)
        requires
            old(self).wf(),
        ensures
            final(self).wf(),
            old(self).spec_names().contains(name@) ==> final(self).spec_names() == old(self).spec_names(),
            !old(self).spec_names().contains(name@) ==> final(self).spec_names() == old(self).spec_names().push(name@),
            final(self).spec_current() matches Some(c) && final(self).spec_names()[c as int]
                == name@,
            final(self).spec_main_laps() == old(self).spec_main_laps(),
            old(self).spec_current() is Some ==> final(self).main_watch == old(self).main_watch,
            forall|i: int|
                0 <= i < old(self).spec_names().len() && !old(self).is_current(i)
                    ==> #[trigger] final(self).spec_section_laps()[i] == old(self).spec_section_laps()[i],
            old(self).spec_current() matches Some(c) ==> final(self).spec_section_laps()[c as int].len()
                == old(self).spec_section_laps()[c as int].len() + 1 && final(self).spec_section_laps()[c as int].drop_last() == old(self).spec_section_laps()[c as int],
            !old(self).spec_names().contains(name@) ==> final(self).spec_section_laps()[old(self).spec_names().len() as int] == Seq::<u64>::empty(),
    {
        let ghost old_laps = self.spec_section_laps();
        match self.current_section {
            Some(c) => {
                assert(self.spec_section_running()[c as int]);
                self.lap_and_stop_section(c, false);
                self.current_section = None;
            },
            None => {
                stopwatch_start(&mut self.main_watch);
            },
        }
        let ghost mid = *self;
        assert forall|i: int|
            0 <= i < old(self).spec_names().len() && !old(self).is_current(i)
                implies #[trigger] mid.spec_section_laps()[i] == old_laps[i] by {
            assert(mid.watches@[i] == old(self).watches@[i]);
        }
        assert forall|i: int| 0 <= i < mid.watches@.len() implies !stopwatch_is_running(
            #[trigger] mid.watches@[i],
        ) by {
            assert(old(self).spec_section_running()[i] == old(self).is_current(i));
            if !old(self).is_current(i) {
                assert(mid.watches@[i] == old(self).watches@[i]);
            }
        }
        let name_s = String::from_str(name);
        let index = match self.find_section(&name_s) {
            Some(i) => i,
            None => {
                let n = self.names.len();
                self.names.push(name_s);
                self.watches.push(stopwatch_new());
                proof {
                    assert forall|i: int| 0 <= i < self.watches@.len() implies !stopwatch_is_running(
                        #[trigger] self.watches@[i],
                    ) by {
                        if i < n {
                            assert(self.watches@[i] == mid.watches@[i]);
                        }
                    }
                    assert(self.spec_names() =~= mid.spec_names().push(name@));
                    assert forall|i: int, j: int|
                        0 <= i < j < self.spec_names().len() implies self.spec_names()[i]
                        != self.spec_names()[j] by {
                        if j == n {
                            assert(mid.spec_names()[i] == self.spec_names()[i]);
                            assert(!mid.spec_names().contains(name@));
                        }
                    }
                }
                n
            },
        };
        let ghost before_start = *self;
        assert(forall|i: int|
            0 <= i < before_start.watches@.len() ==> !stopwatch_is_running(
                #[trigger] before_start.watches@[i],
            ));
        self.start_section_watch(index);
        self.current_section = Some(index);
        proof {
            assert(self.spec_names() == before_start.spec_names());
            assert forall|i: int|
                0 <= i < old(self).spec_names().len() && !old(self).is_current(i) implies #[trigger] self.spec_section_laps()[i] == old_laps[i] by {
                assert(mid.watches@[i] == before_start.watches@[i]);
                if i != index {
                    assert(self.watches@[i] == before_start.watches@[i]);
                }
            }
            if let Some(c) = old(self).spec_current() {
                assert(mid.watches@[c as int] == before_start.watches@[c as int]);
                if c != index {
                    assert(self.watches@[c as int] == before_start.watches@[c as int]);
                }
            }
            assert(self.spec_section_running().len() == self.spec_names().len());
            assert(self.spec_section_running()[index as int]);
            assert forall|i: int| 0 <= i < self.spec_names().len() implies #[trigger]
                self.spec_section_running()[i] == self.is_current(i) by {
                if i != index {
                    assert(self.watches@[i] == before_start.watches@[i]);
                }
            }
        }
    }
}

impl ProfilerState {
    /// Stops timing the current run: the current section and the run each get a lap, unless
    /// `cancel` is set, in which case the measurement is discarded. Fails when no section is
    /// being timed, changing nothing.
    fn stop(&mut self, cancel: bool) -> (r: Result<(), ProfilerError>)
        requires
            old(self).wf(),
        ensures
            final(self).wf(),
            old(self).spec_current() is None <==> r == Err::<(), ProfilerError>(
                ProfilerError::NoSectionRunning,
            ),
            r is Err ==> *final(self) == *old(self),
            r is Ok ==> final(self).spec_current() is None,
            final(self).spec_names() == old(self).spec_names(),
            r is Ok && !cancel ==> final(self).spec_main_laps().len() == old(self).spec_main_laps().len()
                + 1 && final(self).spec_main_laps().drop_last() == old(self).spec_main_laps(),
            r is Ok && cancel ==> final(self).spec_main_laps() == old(self).spec_main_laps(),
            forall|i: int|
                0 <= i < old(self).spec_names().len() && !old(self).is_current(i)
                    ==> #[trigger] final(self).spec_section_laps()[i] == old(self).spec_section_laps()[i],
            old(self).spec_current() matches Some(c) ==> (!cancel ==> final(self).spec_section_laps()[c as int].len()
                == old(self).spec_section_laps()[c as int].len() + 1 && final(self).spec_section_laps()[c as int].drop_last()
                == old(self).spec_section_laps()[c as int]),
            old(self).spec_current() matches Some(c) ==> (cancel ==> final(self).spec_section_laps()[c as int]
                == old(self).spec_section_laps()[c as int]),
    {
        let ghost old_laps = self.spec_section_laps();
        match self.current_section {
            None => Err(ProfilerError::NoSectionRunning),
            Some(c) => {
                assert(self.spec_section_running()[c as int]);
                self.lap_and_stop_section(c, cancel);
                self.current_section = None;
                if !cancel {
                    stopwatch_lap(&mut self.main_watch);
                }
                stopwatch_stop(&mut self.main_watch);
                proof {
                    assert(self.spec_names() == old(self).spec_names());
                    assert forall|i: int|
                        0 <= i < old(self).spec_names().len() && !old(self).is_current(i) implies #[trigger] self.spec_section_laps()[i] == old_laps[i] by {
                        assert(self.watches@[i] == old(self).watches@[i]);
                    }
                    assert(self.spec_section_laps().len() == self.spec_names().len());
                    assert(self.spec_section_running().len() == self.spec_names().len());
                    assert forall|i: int| 0 <= i < self.spec_names().len() implies
                        !#[trigger] self.spec_section_running()[i] by {
                        assert(old(self).spec_section_running()[i] == old(self).is_current(i));
                        if i != c {
                            assert(self.watches@[i] == old(self).watches@[i]);
                        }
                    }
                }
                Ok(())
            },
        }
    }

    /// The number of runs timed to the end (not cancelled).
    fn lap_count(&self) -> (r: usize)
        ensures
            r == self.spec_main_laps().len(),
    {
        stopwatch_number_of_laps(&self.main_watch)
    }

    /// Checks that every section has as many laps as there were runs.
    fn check_lap_counters(&self) -> (r: bool)
        requires
            self.wf(),
        ensures
            r == forall|i: int|
                0 <= i < self.spec_names().len() ==> (#[trigger] self.spec_section_laps()[i]).len()
                    == self.spec_main_laps().len(),
    {
        let lap_count = stopwatch_number_of_laps(&self.main_watch);
        let mut i: usize = 0;
        while i < self.watches.len()
            invariant
                i <= self.watches@.len(),
                self.wf(),
                lap_count == self.spec_main_laps().len(),
                forall|j: int|
                    0 <= j < i ==> (#[trigger] self.spec_section_laps()[j]).len() == lap_count,
            decreases self.watches@.len() - i,
        {
            if stopwatch_number_of_laps(&self.watches[i]) != lap_count {
                assert((self.spec_section_laps()[i as int]).len() != lap_count);
                return false;
            }
            i = i + 1;
        }
        true
    }

    /// Returns the average lap time and the average time of each section, in the order the
    /// sections were first started. Fails when no run has been completed.
    fn get_data(&self) -> (r: Result<ProfilingData, ProfilerError>)
        requires
            self.wf(),
            self.spec_main_laps().len() * 1000 <= usize::MAX,
        ensures
            self.spec_main_laps().len() == 0 <==> r is Err,
            r is Err ==> r == Err::<ProfilingData, ProfilerError>(ProfilerError::NoData),
            r matches Ok(data) ==> {
                let denom = self.spec_main_laps().len() * 1000;
                &&& data.lap_count == self.spec_main_laps().len()
                &&& !self.spec_main_running() && spec_sum(self.spec_main_laps()) <= u64::MAX
                    ==> data.average_lap_time_us == spec_sum(self.spec_main_laps()) / (denom as int)
                &&& data.average_section_times_us@.len() == self.spec_names().len()
                &&& forall|i: int|
                    0 <= i < self.spec_names().len() ==> {
                        let (name, average) = #[trigger] data.average_section_times_us@[i];
                        &&& name@ == self.spec_names()[i]
                        &&& !self.spec_section_running()[i] && spec_sum(self.spec_section_laps()[i])
                            <= u64::MAX ==> average == spec_sum(self.spec_section_laps()[i]) / (denom as int)
                    }
            },
    {
        let lap_count = stopwatch_number_of_laps(&self.main_watch);
        if lap_count == 0 {
            return Err(ProfilerError::NoData);
        }
        let denom = (lap_count * 1000) as u64;
        let average_lap_time_us = stopwatch_total_time(&self.main_watch) / denom;
        let mut sections: Vec<(String, u64)> = Vec::new();
        let mut i: usize = 0;
        while i < self.watches.len()
            invariant
                i <= self.watches@.len(),
                self.wf(),
                denom == self.spec_main_laps().len() * 1000,
                denom > 0,
                sections@.len() == i,
                forall|j: int|
                    0 <= j < i ==> {
                        let (name, average) = #[trigger] sections@[j];
                        &&& name@ == self.spec_names()[j]
                        &&& !self.spec_section_running()[j] && spec_sum(self.spec_section_laps()[j])
                            <= u64::MAX ==> average == spec_sum(self.spec_section_laps()[j]) / (denom as int)
                    },
            decreases self.watches@.len() - i,
        {
            let average = stopwatch_total_time(&self.watches[i]) / denom;
            let name = self.names[i].clone();
            sections.push((name, average));
            i = i + 1;
        }
        Ok(ProfilingData { lap_count, average_lap_time_us, average_section_times_us: sections })
    }
}

/// A profiler that gathers average run times of code sections.
///
/// Sections are kept in the order they were first started. A run is timed by the main
/// stopwatch from the start of its first section to `stop`, and each section by its own
/// stopwatch while it is the current one.
pub struct Profiler {
    state: ProfilerState,
}

impl Profiler {
    /// Section names are distinct; a run is being timed exactly while a section is current,
    /// and exactly the current section's stopwatch runs.
    #[verifier::type_invariant]
    closed spec fn state_is_consistent(self) -> bool {
        self.state.wf()
    }

    /// The stopwatch that times whole runs.
    pub closed spec fn spec_main_watch(self) -> Stopwatch {
        self.state.main_watch
    }

    /// The laps of whole runs.
    pub closed spec fn spec_main_laps(self) -> Seq<u64> {
        self.state.spec_main_laps()
    }

    /// Whether a run is being timed.
    pub closed spec fn spec_main_running(self) -> bool {
        self.state.spec_main_running()
    }

    /// The names of the sections, in the order they were first started.
    pub closed spec fn spec_names(self) -> Seq<Seq<char>> {
        self.state.spec_names()
    }

    /// The laps of each section, in the order of `spec_names`.
    pub closed spec fn spec_section_laps(self) -> Seq<Seq<u64>> {
        self.state.spec_section_laps()
    }

    /// Whether each section's stopwatch is running, in the order of `spec_names`.
    pub closed spec fn spec_section_running(self) -> Seq<bool> {
        self.state.spec_section_running()
    }

    /// The index of the section being timed, if any.
    pub closed spec fn spec_current(self) -> Option<usize> {
        self.state.spec_current()
    }

    /// Whether section `i` is the one being timed.
    pub open spec fn is_current(self, i: int) -> bool {
        self.spec_current() matches Some(c) && c == i
    }

    /// A profiler with no sections and no laps.
    pub fn new() -> (r: Self)
        ensures
            r.spec_main_laps() == Seq::<u64>::empty(),
            !r.spec_main_running(),
            r.spec_names() == Seq::<Seq<char>>::empty(),
            r.spec_current() is None,
    {
        Profiler { state: ProfilerState::new() }
    }

    /// Starts the timer of the section `name`, creating the section after the existing ones if
    /// it is new. The section being timed, if any, is stopped first and gets a lap, while the
    /// run goes on being timed; otherwise a new run starts.
    pub fn start_section(&mut self, name: &str)
        ensures
            old(self).spec_names().contains(name@) ==> final(self).spec_names() == old(self).spec_names(),
            !old(self).spec_names().contains(name@) ==> final(self).spec_names() == old(self).spec_names().push(name@),
            final(self).spec_current() matches Some(c) && final(self).spec_names()[c as int]
                == name@,
            final(self).spec_main_running(),
            final(self).spec_main_laps() == old(self).spec_main_laps(),
            old(self).spec_current() is Some ==> final(self).spec_main_watch() == old(self).spec_main_watch(),
            forall|i: int|
                0 <= i < old(self).spec_names().len() && !old(self).is_current(i)
                    ==> #[trigger] final(self).spec_section_laps()[i] == old(self).spec_section_laps()[i],
            old(self).spec_current() matches Some(c) ==> final(self).spec_section_laps()[c as int].len()
                == old(self).spec_section_laps()[c as int].len() + 1 && final(self).spec_section_laps()[c as int].drop_last() == old(self).spec_section_laps()[c as int],
            !old(self).spec_names().contains(name@) ==> final(self).spec_section_laps()[old(self).spec_names().len() as int] == Seq::<u64>::empty(),
    {
        proof {
            use_type_invariant(&*self);
        }
        let mut state = ProfilerState::new();
        std::mem::swap(&mut state, &mut self.state);
        state.start_section(name);
        self.state = state;
    }

    /// Stops timing the current run: the current section and the run each get a lap, unless
    /// `cancel` is set, in which case the measurement is discarded. Fails when no section is
    /// being timed, changing nothing.
    pub fn stop(&mut self, cancel: bool) -> (r: Result<(), ProfilerError>)
        ensures
            old(self).spec_current() is None <==> r == Err::<(), ProfilerError>(
                ProfilerError::NoSectionRunning,
            ),
            r is Err ==> *final(self) == *old(self),
            r is Ok ==> final(self).spec_current() is None && !final(self).spec_main_running(),
            final(self).spec_names() == old(self).spec_names(),
            r is Ok && !cancel ==> final(self).spec_main_laps().len() == old(self).spec_main_laps().len() + 1 && final(self).spec_main_laps().drop_last() == old(self).spec_main_laps(),
            r is Ok && cancel ==> final(self).spec_main_laps() == old(self).spec_main_laps(),
            forall|i: int|
                0 <= i < old(self).spec_names().len() && !old(self).is_current(i)
                    ==> #[trigger] final(self).spec_section_laps()[i] == old(self).spec_section_laps()[i],
            old(self).spec_current() matches Some(c) ==> (!cancel ==> final(self).spec_section_laps()[c as int].len() == old(self).spec_section_laps()[c as int].len()
                + 1 && final(self).spec_section_laps()[c as int].drop_last() == old(self).spec_section_laps()[c as int]),
            old(self).spec_current() matches Some(c) ==> (cancel ==> final(self).spec_section_laps()[c as int] == old(self).spec_section_laps()[c as int]),
    {
        proof {
            use_type_invariant(&*self);
        }
        if self.state.current_section.is_none() {
            return Err(ProfilerError::NoSectionRunning);
        }
        let mut state = ProfilerState::new();
        std::mem::swap(&mut state, &mut self.state);
        let r = state.stop(cancel);
        self.state = state;
        r
    }

    /// The number of runs timed to the end (not cancelled).
    pub fn lap_count(&self) -> (r: usize)
        ensures
            r == self.spec_main_laps().len(),
    {
        self.state.lap_count()
    }

    /// Checks that every section has as many laps as there were runs.
    pub fn check_lap_counters(&self) -> (r: bool)
        ensures
            r == forall|i: int|
                0 <= i < self.spec_names().len() ==> (#[trigger] self.spec_section_laps()[i]).len()
                    == self.spec_main_laps().len(),
    {
        proof {
            use_type_invariant(self);
        }
        let r = self.state.check_lap_counters();
        proof {
            if r {
                assert forall|i: int| 0 <= i < self.spec_names().len() implies (
                #[trigger] self.spec_section_laps()[i]).len() == self.spec_main_laps().len() by {
                    assert(self.state.spec_section_laps()[i].len()
                        == self.state.spec_main_laps().len());
                }
            } else {
                let i = choose|i: int|
                    0 <= i < self.state.spec_names().len() && (
                    #[trigger] self.state.spec_section_laps()[i]).len()
                        != self.state.spec_main_laps().len();
                assert(self.spec_section_laps()[i].len() != self.spec_main_laps().len());
            }
        }
        r
    }

    /// Returns the average lap time and the average time of each section, in the order the
    /// sections were first started. Fails when no run has been completed.
    pub fn get_data(&self) -> (r: Result<ProfilingData, ProfilerError>)
        requires
            self.spec_main_laps().len() * 1000 <= usize::MAX,
        ensures
            self.spec_main_laps().len() == 0 <==> r is Err,
            r is Err ==> r == Err::<ProfilingData, ProfilerError>(ProfilerError::NoData),
            r matches Ok(data) ==> {
                let denom = self.spec_main_laps().len() * 1000;
                &&& data.lap_count == self.spec_main_laps().len()
                &&& self.spec_current() is None && spec_sum(self.spec_main_laps()) <= u64::MAX
                    ==> data.average_lap_time_us == spec_sum(self.spec_main_laps()) / (denom as int)
                &&& data.average_section_times_us@.len() == self.spec_names().len()
                &&& forall|i: int|
                    0 <= i < self.spec_names().len() ==> {
                        let (name, average) = #[trigger] data.average_section_times_us@[i];
                        &&& name@ == self.spec_names()[i]
                        &&& !self.is_current(i) && spec_sum(self.spec_section_laps()[i])
                            <= u64::MAX ==> average == spec_sum(self.spec_section_laps()[i]) / (
                        denom as int)
                    }
            },
    {
        proof {
            use_type_invariant(self);
        }
        self.state.get_data()
    }
}

} // verus!
