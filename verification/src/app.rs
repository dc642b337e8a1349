use std::collections::VecDeque;
use std::path::PathBuf;
use std::time::Instant;
use vstd::prelude::*;
use vstd::string::*;

use crate::kinds::{FmiVersion, InterfaceKind, VariableKind};
use crate::logging::{LogEntry, LogLevel};
use crate::messages::{SampleMsg, StatusMsg};
use crate::series::{
    columns_paired, empty_series, names_of, series_after_push, series_in, with_entries, SeriesMap,
};
use crate::worker::{clone_names, clone_start_values, start_values_of, SimJobConfig};

verus! {

/// Most entries that the session log keeps; older ones are dropped first.
pub const MAX_LOG_ENTRIES: usize = 10_000;

/// A variable of a loaded model, as the front end shows it.
#[derive(Clone, Debug)]
pub struct VariableInfo {
    pub name: String,
    pub description: Option<String>,
    pub causality: String,
    pub kind: VariableKind,
    pub is_output: bool,
}

/// An FMU that was unpacked and whose model description was read.
#[derive(Clone, Debug)]
pub struct LoadedFmu<T> {
    pub path: PathBuf,
    pub version: FmiVersion,
    pub model_name: String,
    pub variables: Vec<VariableInfo>,
    pub default_stop_time: Option<T>,
    pub default_step_size: Option<T>,
    pub supports_cs: bool,
    pub supports_me: bool,
}

/// A start value that the user sets for a variable before a run.
#[derive(Clone, Debug)]
pub struct StartValue {
    pub name: String,
    pub value: String,
}

/// What the user configured for the next run and for the display.
pub struct UiConfig<T> {
    pub stop_time: T,
    pub step_size: T,
    pub logging_on: bool,
    pub log_fmi_calls: bool,
    pub interface: InterfaceKind,
    pub log_level_filter: LogLevel,
    pub auto_scroll_logs: bool,
    pub follow_plot: bool,
    pub start_values: Vec<StartValue>,
}

impl<T> UiConfig<T> {
    /// The configuration the front end starts with, for the given stop time
    /// and step size.
    pub fn new(stop_time: T, step_size: T) -> (r: UiConfig<T>)
        ensures
            r.stop_time == stop_time,
            r.step_size == step_size,
            r.logging_on,
            !r.log_fmi_calls,
            r.interface == InterfaceKind::CoSimulation,
            r.log_level_filter == LogLevel::Info,
            r.auto_scroll_logs,
            r.follow_plot,
            r.start_values@.len() == 0,
    {
        UiConfig {
            stop_time,
            step_size,
            logging_on: true,
            log_fmi_calls: false,
            interface: InterfaceKind::CoSimulation,
            log_level_filter: LogLevel::Info,
            auto_scroll_logs: true,
            follow_plot: true,
            start_values: Vec::new(),
        }
    }
}

/// Where the session stands with respect to a simulation run.
pub enum SimState<T> {
    Idle,
    Running { stop_time: T, started_at: Instant },
    Finished { message: String, ok: bool },
}

/// Names of the variables that are outputs and can be plotted, in order.
pub open spec fn plottable_output_names(vars: Seq<VariableInfo>) -> Seq<Seq<char>>
    decreases vars.len(),
{
    if vars.len() == 0 {
        Seq::empty()
    } else {
        let rest = plottable_output_names(vars.drop_last());
        let v = vars.last();
        if v.is_output && v.kind.spec_plottable() {
            rest.push(v.name@)
        } else {
            rest
        }
    }
}

/// The names of the plottable outputs among `vars`, in order.
pub fn plottable_outputs(vars: &Vec<VariableInfo>) -> (r: Vec<String>)
    ensures
        names_of(r@) == plottable_output_names(vars@),
{
    let mut r: Vec<String> = Vec::new();
    let mut i: usize = 0;
    while i < vars.len()
        invariant
            i <= vars@.len(),
            names_of(r@) == plottable_output_names(vars@.take(i as int)),
        decreases vars@.len() - i,
    {
        let v = &vars[i];
        assert(vars@.take(i + 1).drop_last() =~= vars@.take(i as int));
        if v.is_output && v.kind.plottable() {
            r.push(v.name.clone());
        }
        assert(names_of(r@) =~= plottable_output_names(vars@.take(i + 1)));
        i = i + 1;
    }
    assert(vars@.take(vars@.len() as int) =~= vars@);
    r
}

/// `names` without any occurrence of `k`.
pub open spec fn without(names: Seq<Seq<char>>, k: Seq<char>) -> Seq<Seq<char>>
    decreases names.len(),
{
    if names.len() == 0 {
        names
    } else if names.last() == k {
        without(names.drop_last(), k)
    } else {
        without(names.drop_last(), k).push(names.last())
    }
}

/// The message with which a finished run is reported.
pub open spec fn finish_message(result: Result<(), String>) -> Seq<char> {
    match result {
        Ok(()) => "Simulation finished"@,
        Err(e) => "Simulation failed: "@ + e@,
    }
}

/// The series after recording the first `n` values of one sample taken at
/// time `t`, the value at position `i` belonging to the output `names[i]`.
pub open spec fn record_sample<T>(
    m: Map<Seq<char>, (Seq<T>, Seq<T>)>,
    names: Seq<Seq<char>>,
    values: Seq<Option<T>>,
    t: T,
    n: nat,
) -> Map<Seq<char>, (Seq<T>, Seq<T>)>
    decreases n,
{
    if n == 0 {
        m
    } else {
        let prev = record_sample(m, names, values, t, (n - 1) as nat);
        match values[n - 1] {
            Some(v) => prev.insert(
                names[n - 1],
                series_after_push(series_in(prev, names[n - 1]), t, v),
            ),
            None => prev,
        }
    }
}

/// Whether `name` is among `v`.
pub fn contains_name(v: &Vec<String>, name: &String) -> (r: bool)
    ensures
        r == names_of(v@).contains(name@),
{
    let mut i: usize = 0;
    while i < v.len()
        invariant
            i <= v@.len(),
            forall|j: int| 0 <= j < i ==> names_of(v@)[j] != name@,
        decreases v@.len() - i,
    {
        if v[i] == *name {
            assert(names_of(v@)[i as int] == name@);
            return true;
        }
        i = i + 1;
    }
    false
}

/// A copy of `v` without any occurrence of `name`.
pub fn remove_name(v: &Vec<String>, name: &String) -> (r: Vec<String>)
    ensures
        names_of(r@) == without(names_of(v@), name@),
{
    let mut r: Vec<String> = Vec::new();
    let mut i: usize = 0;
    while i < v.len()
        invariant
            i <= v@.len(),
            names_of(r@) == without(names_of(v@).take(i as int), name@),
        decreases v@.len() - i,
    {
        let ghost old_r = r@;
        let ghost prefix = names_of(v@).take(i + 1);
        assert(prefix.drop_last() =~= names_of(v@).take(i as int));
        assert(prefix.last() == v@[i as int]@);
        if v[i] != *name {
            let c = v[i].clone();
            r.push(c);
            assert(names_of(r@) =~= names_of(old_r).push(v@[i as int]@));
        }
        i = i + 1;
    }
    assert(names_of(v@).take(v@.len() as int) =~= names_of(v@));
    r
}

/// Removing a name leaves it out, changes nothing when it is absent, and
/// undoes adding an absent name.
pub proof fn lemma_without(s: Seq<Seq<char>>, k: Seq<char>)
    ensures
        !without(s, k).contains(k),
        !s.contains(k) ==> without(s, k) == s,
        !s.contains(k) ==> without(s.push(k), k) == s,
        forall|x: Seq<char>| x != k ==> (without(s, k).contains(x) <==> s.contains(x)),
    decreases s.len(),
{
    if s.len() > 0 {
        lemma_without(s.drop_last(), k);
        let r = without(s.drop_last(), k);
        assert forall|x: Seq<char>| x != k implies (without(s, k).contains(x) <==> s.contains(
            x,
        )) by {
            if s.contains(x) {
                let j = choose|j: int| 0 <= j < s.len() && s[j] == x;
                if j < s.len() - 1 {
                    assert(s.drop_last()[j] == x);
                    assert(s.drop_last().contains(x));
                    assert(r.contains(x));
                    let m = choose|m: int| 0 <= m < r.len() && r[m] == x;
                    if s.last() == k {
                        assert(without(s, k) == r);
                    } else {
                        assert(without(s, k) == r.push(s.last()));
                    }
                    assert(without(s, k)[m] == x);
                } else {
                    assert(without(s, k) == r.push(s.last()));
                    assert(without(s, k)[r.len() as int] == x);
                }
            }
            if without(s, k).contains(x) {
                let j = choose|j: int| 0 <= j < without(s, k).len() && without(s, k)[j] == x;
                if j < r.len() {
                    assert(r[j] == x);
                    assert(r.contains(x));
                    assert(s.drop_last().contains(x));
                    let m = choose|m: int| 0 <= m < s.drop_last().len() && s.drop_last()[m] == x;
                    assert(s[m] == x);
                } else {
                    assert(s[s.len() - 1] == x);
                }
            }
        }
        if without(s, k).contains(k) {
            let j = choose|j: int| 0 <= j < without(s, k).len() && without(s, k)[j] == k;
            if s.last() != k {
                assert(j < r.len() ==> r[j] == k);
            }
        }
        if !s.contains(k) {
            assert(!s.drop_last().contains(k)) by {
                if s.drop_last().contains(k) {
                    let j = choose|j: int| 0 <= j < s.drop_last().len() && s.drop_last()[j] == k;
                    assert(s[j] == k);
                }
            }
            assert(s.last() != k) by {
                assert(s[s.len() - 1] == s.last());
            }
            assert(s.drop_last().push(s.last()) =~= s);
        }
    }
    if !s.contains(k) {
        assert(s.push(k).drop_last() =~= s);
    }
}

/// `s` with `e` appended, after dropping the oldest entry when `s` already
/// holds `MAX_LOG_ENTRIES`.
pub open spec fn log_after<A>(s: Seq<A>, e: A) -> Seq<A> {
    if s.len() == MAX_LOG_ENTRIES {
        s.drop_first().push(e)
    } else {
        s.push(e)
    }
}

/// The log never grows beyond `MAX_LOG_ENTRIES`: an entry appended to a log
/// within the bound keeps it within the bound, ends the log, and only the
/// oldest entry is ever dropped.
pub proof fn lemma_log_after<A>(s: Seq<A>, e: A)
    ensures
        s.len() <= MAX_LOG_ENTRIES ==> log_after(s, e).len() <= MAX_LOG_ENTRIES,
        log_after(s, e).last() == e,
        log_after(s, e).drop_last() =~= s.skip(s.len() + 1 - log_after(s, e).len()),
        s.len() < MAX_LOG_ENTRIES ==> log_after(s, e) == s.push(e),
{
}

/// Every name given to `with_entries` has a series afterwards, and the series
/// that were there before are kept as they were.
pub proof fn lemma_with_entries<T>(m: Map<Seq<char>, (Seq<T>, Seq<T>)>, names: Seq<Seq<char>>)
    ensures
        forall|i: int|
            0 <= i < names.len() ==> with_entries(m, names).dom().contains(#[trigger] names[i]),
        forall|k: Seq<char>|
            #[trigger] m.dom().contains(k) ==> with_entries(m, names).dom().contains(k)
                && with_entries(m, names)[k] == m[k],
        forall|k: Seq<char>|
            with_entries(m, names).dom().contains(k) && !m.dom().contains(k) ==> #[trigger] with_entries(m, names)[k]
                == empty_series::<T>(),
{
    assert forall|i: int| 0 <= i < names.len() implies with_entries(m, names).dom().contains(
        #[trigger] names[i],
    ) by {
        assert(names.contains(names[i]));
    }
}

/// Recording a sample never removes a series, and leaves a series for each
/// output that received a value.
pub proof fn lemma_record_sample_keeps_series<T>(
    m: Map<Seq<char>, (Seq<T>, Seq<T>)>,
    names: Seq<Seq<char>>,
    values: Seq<Option<T>>,
    t: T,
    n: nat,
)
    requires
        n <= names.len(),
        n <= values.len(),
    ensures
        forall|k: Seq<char>|
            m.dom().contains(k) ==> #[trigger] record_sample(m, names, values, t, n).dom().contains(k),
        forall|i: int|
            0 <= i < n && values[i] is Some ==> record_sample(m, names, values, t, n).dom().contains(
                #[trigger] names[i],
            ),
    decreases n,
{
    if n > 0 {
        lemma_record_sample_keeps_series(m, names, values, t, (n - 1) as nat);
        let prev = record_sample(m, names, values, t, (n - 1) as nat);
        let cur = record_sample(m, names, values, t, n);
        assert forall|k: Seq<char>| prev.dom().contains(k) implies #[trigger] cur.dom().contains(
            k,
        ) by {}
        assert forall|k: Seq<char>| m.dom().contains(k) implies #[trigger] cur.dom().contains(
            k,
        ) by {
            assert(prev.dom().contains(k));
        }
        assert forall|i: int| 0 <= i < n && values[i] is Some implies cur.dom().contains(
            #[trigger] names[i],
        ) by {
            if i < n - 1 {
                assert(prev.dom().contains(names[i]));
            }
        }
    }
}

/// A successful run and a failed run are never reported with the same message.
pub proof fn lemma_finish_messages_distinct(e: String)
    ensures
        finish_message(Ok(())) != finish_message(Err(e)),
{
    reveal_strlit("Simulation finished");
    reveal_strlit("Simulation failed: ");
    assert(finish_message(Ok(()))[12] != finish_message(Err(e))[12]);
}

/// The session state of the front end: the loaded FMU, the configuration,
/// the selected outputs, the state of the run, the log and the live series.
pub struct FmusimApp<T> {
    pub loaded: Option<LoadedFmu<T>>,
    pub load_error: Option<String>,
    pub config: UiConfig<T>,
    pub selected_outputs: Vec<String>,
    pub sim_state: SimState<T>,
    pub logs: VecDeque<LogEntry>,
    pub series: SeriesMap<T>,
    pub latest_sim_time: Option<T>,
}

impl<T: Copy> FmusimApp<T> {
    /// The series are well formed.
    pub open spec fn wf(&self) -> bool {
        self.series.wf()
    }

    /// An FMU that supports co-simulation is loaded.
    pub open spec fn spec_startable(&self) -> bool {
        self.loaded matches Some(f) && f.supports_cs
    }

    pub open spec fn spec_is_running(&self) -> bool {
        self.sim_state is Running
    }

    /// The names of the selected outputs.
    pub open spec fn selected(&self) -> Seq<Seq<char>> {
        names_of(self.selected_outputs@)
    }

    /// Every selected output has a series.
    pub open spec fn outputs_have_series(&self) -> bool {
        forall|i: int|
            0 <= i < self.selected().len() ==> self.series@.dom().contains(
                #[trigger] self.selected()[i],
            )
    }

    /// A session with nothing loaded and the given configuration.
    pub fn new(config: UiConfig<T>) -> (r: FmusimApp<T>)
        ensures
            r.wf(),
            r.loaded is None,
            r.load_error is None,
            r.config == config,
            r.selected_outputs@.len() == 0,
            r.sim_state is Idle,
            r.logs@.len() == 0,
            r.series@ == Map::<Seq<char>, (Seq<T>, Seq<T>)>::empty(),
            r.latest_sim_time is None,
            r.outputs_have_series(),
    {
        FmusimApp {
            loaded: None,
            load_error: None,
            config,
            selected_outputs: Vec::new(),
            sim_state: SimState::Idle,
            logs: VecDeque::with_capacity(MAX_LOG_ENTRIES),
            series: SeriesMap::new(),
            latest_sim_time: None,
        }
    }

    /// Whether a run can be started, given whether the configured stop time
    /// and step size are positive: an FMU that supports co-simulation is
    /// loaded, no run is going on, and at least one output is selected.
    pub fn can_start(&self, stop_time_positive: bool, step_size_positive: bool) -> (r: bool)
        ensures
            r == (self.spec_startable() && !self.spec_is_running() && stop_time_positive && step_size_positive && self.selected_outputs@.len() > 0),
    {
        let supports_cs = match &self.loaded {
            Some(f) => f.supports_cs,
            None => false,
        };
        supports_cs && !self.is_running() && stop_time_positive && step_size_positive
            && self.selected_outputs.len() > 0
    }

    /// Applies the outcome of loading an FMU.  On success the FMU becomes the
    /// loaded one, its default experiment overrides the stop time and step
    /// size, its plottable outputs become the selection, each with an empty
    /// series, the log is emptied and the session is idle.  On failure only
    /// the error is recorded.
    pub fn load_fmu(&mut self, result: Result<LoadedFmu<T>, String>)
        requires
            old(self).wf(),
        ensures
            final(self).wf(),
            final(self).latest_sim_time == old(self).latest_sim_time,
            final(self).config.logging_on == old(self).config.logging_on,
            final(self).config.log_fmi_calls == old(self).config.log_fmi_calls,
            final(self).config.interface == old(self).config.interface,
            final(self).config.log_level_filter == old(self).config.log_level_filter,
            final(self).config.auto_scroll_logs == old(self).config.auto_scroll_logs,
            final(self).config.follow_plot == old(self).config.follow_plot,
            final(self).config.start_values == old(self).config.start_values,
            old(self).outputs_have_series() || result is Ok ==> final(self).outputs_have_series(),
            match result {
                Err(e) => {
                    &&& final(self).load_error == Some(e)
                    &&& final(self).loaded == old(self).loaded
                    &&& final(self).config == old(self).config
                    &&& final(self).selected_outputs == old(self).selected_outputs
                    &&& final(self).sim_state == old(self).sim_state
                    &&& final(self).logs == old(self).logs
                    &&& final(self).series == old(self).series
                },
                Ok(fmu) => {
                    &&& final(self).load_error is None
                    &&& final(self).config.stop_time == match fmu.default_stop_time {
                        Some(t) => t,
                        None => old(self).config.stop_time,
                    }
                    &&& final(self).config.step_size == match fmu.default_step_size {
                        Some(t) => t,
                        None => old(self).config.step_size,
                    }
                    &&& final(self).selected() == plottable_output_names(fmu.variables@)
                    &&& final(self).series@ == with_entries::<T>(
                        Map::empty(),
                        plottable_output_names(fmu.variables@),
                    )
                    &&& final(self).logs@.len() == 0
                    &&& final(self).sim_state is Idle
                    &&& final(self).loaded == Some(fmu)
                },
            },
    {
        self.load_error = None;
        match result {
            Ok(fmu) => {
                if let Some(t) = fmu.default_stop_time {
                    self.config.stop_time = t;
                }
                if let Some(t) = fmu.default_step_size {
                    self.config.step_size = t;
                }
                self.selected_outputs = plottable_outputs(&fmu.variables);
                self.series.clear();
                self.series.ensure_all(&self.selected_outputs);
                proof {
                    lemma_with_entries(Map::<Seq<char>, (Seq<T>, Seq<T>)>::empty(), self.selected());
                    assert forall|i: int| 0 <= i < self.selected().len() implies self.series@.dom().contains(
                        #[trigger] self.selected()[i],
                    ) by {}
                }
                self.logs.clear();
                self.sim_state = SimState::Idle;
                self.loaded = Some(fmu);
            },
            Err(e) => {
                self.load_error = Some(e);
                proof {
                    if old(self).outputs_have_series() {
                        assert forall|i: int| 0 <= i < self.selected().len() implies self.series@.dom().contains(
                            #[trigger] self.selected()[i],
                        ) by {
                            assert(self.selected()[i] == old(self).selected()[i]);
                        }
                    }
                }
            },
        }
    }

    /// Prepares a run that starts at `started_at`: with an FMU loaded that
    /// supports co-simulation, the log and every series are emptied, each
    /// selected output gets a series, the latest time is forgotten, the session
    /// is running, and the configuration for the worker is returned.  Otherwise
    /// nothing changes and `None` is returned.
    pub fn start_simulation(&mut self, started_at: Instant) -> (r: Option<SimJobConfig<T>>)
        requires
            old(self).wf(),
        ensures
            final(self).wf(),
            old(self).outputs_have_series() || old(self).spec_startable()
                ==> final(self).outputs_have_series(),
            !old(self).spec_startable() ==> r is None && *final(self) == *old(self),
            old(self).spec_startable() ==> {
                &&& r matches Some(cfg) && {
                    &&& cfg.fmu_path == old(self).loaded->0.path
                    &&& names_of(cfg.selected_outputs@) == old(self).selected()
                    &&& cfg.stop_time == old(self).config.stop_time
                    &&& cfg.output_interval == old(self).config.step_size
                    &&& cfg.logging_on == old(self).config.logging_on
                    &&& cfg.log_fmi_calls == old(self).config.log_fmi_calls
                    &&& start_values_of(cfg.start_values@) == start_values_of(
                        old(self).config.start_values@,
                    )
                }
                &&& final(self).logs@.len() == 0
                &&& final(self).series@ == with_entries(
                    Map::new(
                        |k: Seq<char>| old(self).series@.dom().contains(k),
                        |k: Seq<char>| empty_series::<T>(),
                    ),
                    old(self).selected(),
                )
                &&& final(self).latest_sim_time is None
                &&& final(self).sim_state == SimState::<T>::Running {
                    stop_time: old(self).config.stop_time,
                    started_at,
                }
                &&& final(self).loaded == old(self).loaded
                &&& final(self).load_error == old(self).load_error
                &&& final(self).config == old(self).config
                &&& final(self).selected_outputs == old(self).selected_outputs
            },
    {
        let fmu_path = match &self.loaded {
            Some(f) => {
                if !f.supports_cs {
                    return None;
                }
                f.path.clone()
            },
            None => {
                return None;
            },
        };
        self.logs.clear();
        self.series.clear_all();
        let ghost cleared = self.series@;
        self.series.ensure_all(&self.selected_outputs);
        proof {
            lemma_with_entries(cleared, self.selected());
        }
        self.latest_sim_time = None;
        let cfg = SimJobConfig {
            fmu_path,
            selected_outputs: clone_names(&self.selected_outputs),
            stop_time: self.config.stop_time,
            output_interval: self.config.step_size,
            logging_on: self.config.logging_on,
            log_fmi_calls: self.config.log_fmi_calls,
            start_values: clone_start_values(&self.config.start_values),
        };
        self.sim_state = SimState::Running { stop_time: self.config.stop_time, started_at };
        Some(cfg)
    }

    /// Appends `entry` to the log, dropping the oldest entry when the log
    /// already holds `MAX_LOG_ENTRIES`.
    pub fn record_log(&mut self, entry: LogEntry)
        ensures
            final(self).logs@ == log_after(old(self).logs@, entry),
            final(self).loaded == old(self).loaded,
            final(self).load_error == old(self).load_error,
            final(self).config == old(self).config,
            final(self).selected_outputs == old(self).selected_outputs,
            final(self).sim_state == old(self).sim_state,
            final(self).series == old(self).series,
            final(self).latest_sim_time == old(self).latest_sim_time,
    {
        if self.logs.len() == MAX_LOG_ENTRIES {
            self.logs.pop_front();
        }
        self.logs.push_back(entry);
    }

    /// Records one sample: its time becomes the latest time, and each value
    /// that is present is added to the series of the selected output at the
    /// same position.
    pub fn record_sample(&mut self, msg: SampleMsg<T>)
        requires
            old(self).wf(),
        ensures
            final(self).wf(),
            columns_paired(final(self).series@),
            final(self).latest_sim_time == Some(msg.time),
            old(self).outputs_have_series() ==> final(self).outputs_have_series(),
            final(self).series@ == record_sample(
                old(self).series@,
                old(self).selected(),
                msg.values@,
                msg.time,
                if old(self).selected_outputs@.len() <= msg.values@.len() {
                    old(self).selected_outputs@.len()
                } else {
                    msg.values@.len()
                },
            ),
            final(self).loaded == old(self).loaded,
            final(self).load_error == old(self).load_error,
            final(self).config == old(self).config,
            final(self).selected_outputs == old(self).selected_outputs,
            final(self).sim_state == old(self).sim_state,
            final(self).logs == old(self).logs,
    {
        let ghost before = self.series@;
        self.latest_sim_time = Some(msg.time);
        let n: usize = if self.selected_outputs.len() <= msg.values.len() {
            self.selected_outputs.len()
        } else {
            msg.values.len()
        };
        let mut i: usize = 0;
        while i < n
            invariant
                self.wf(),
                i <= n,
                n <= self.selected_outputs@.len(),
                n <= msg.values@.len(),
                self.latest_sim_time == Some(msg.time),
                self.loaded == old(self).loaded,
                self.load_error == old(self).load_error,
                self.config == old(self).config,
                self.selected_outputs == old(self).selected_outputs,
                self.sim_state == old(self).sim_state,
                self.logs == old(self).logs,
                self.series@ == record_sample(
                    before,
                    self.selected(),
                    msg.values@,
                    msg.time,
                    i as nat,
                ),
            decreases n - i,
        {
            match msg.values[i] {
                Some(v) => {
                    self.series.push(&self.selected_outputs[i], msg.time, v);
                },
                None => {},
            }
            i = i + 1;
        }
        proof {
            lemma_record_sample_keeps_series(before, old(self).selected(), msg.values@, msg.time, n as nat);
            self.series.lemma_columns_paired();
        }
    }

    /// Applies a progress update from the worker.  A start makes the session
    /// running; an end makes it finished with its message, and `true` is
    /// returned so that the caller lets the worker go.
    pub fn apply_status(&mut self, msg: StatusMsg<T>) -> (finished: bool)
        ensures
            match msg {
                StatusMsg::Started { stop_time, started_at } => {
                    &&& !finished
                    &&& final(self).sim_state == SimState::<T>::Running { stop_time, started_at }
                },
                StatusMsg::Finished(result) => {
                    &&& finished
                    &&& final(self).sim_state matches SimState::Finished { message, ok } && message@
                        == finish_message(result) && ok == result is Ok
                },
            },
            final(self).loaded == old(self).loaded,
            final(self).load_error == old(self).load_error,
            final(self).config == old(self).config,
            final(self).selected_outputs == old(self).selected_outputs,
            final(self).logs == old(self).logs,
            final(self).series == old(self).series,
            final(self).latest_sim_time == old(self).latest_sim_time,
    {
        match msg {
            StatusMsg::Started { stop_time, started_at } => {
                self.sim_state = SimState::Running { stop_time, started_at };
                false
            },
            StatusMsg::Finished(result) => {
                let ok = result.is_ok();
                let message = match result {
                    Ok(()) => "Simulation finished".to_owned(),
                    Err(e) => {
                        let mut m = "Simulation failed: ".to_owned();
                        m.append(e.as_str());
                        m
                    },
                };
                self.sim_state = SimState::Finished { message, ok };
                true
            },
        }
    }

    /// Whether the variable at `index` of the loaded FMU can have its
    /// selection changed: no run is going on and the variable is plottable.
    pub open spec fn spec_selectable(&self, index: int) -> bool {
        &&& !self.spec_is_running()
        &&& self.loaded matches Some(f) && 0 <= index < f.variables@.len()
            && f.variables@[index].kind.spec_plottable()
    }

    /// Selects every plottable output of the loaded FMU, in order, and makes
    /// sure each has a series.  Nothing changes while a run is going on or
    /// when no FMU is loaded.
    pub fn select_all_outputs(&mut self)
        requires
            old(self).wf(),
        ensures
            final(self).wf(),
            final(self).loaded == old(self).loaded,
            final(self).load_error == old(self).load_error,
            final(self).config == old(self).config,
            final(self).sim_state == old(self).sim_state,
            final(self).logs == old(self).logs,
            final(self).latest_sim_time == old(self).latest_sim_time,
            old(self).spec_is_running() || old(self).loaded is None ==> {
                &&& final(self).selected_outputs == old(self).selected_outputs
                &&& final(self).series == old(self).series
            },
            old(self).outputs_have_series() || (!old(self).spec_is_running()
                && old(self).loaded is Some) ==> final(self).outputs_have_series(),
            !old(self).spec_is_running() && old(self).loaded is Some ==> {
                &&& final(self).selected() == plottable_output_names(
                    old(self).loaded->0.variables@,
                )
                &&& final(self).series@ == with_entries(
                    old(self).series@,
                    plottable_output_names(old(self).loaded->0.variables@),
                )
            },
    {
        if self.is_running() {
            return;
        }
        let names = match &self.loaded {
            Some(f) => plottable_outputs(&f.variables),
            None => {
                return;
            },
        };
        let ghost before = self.series@;
        self.series.ensure_all(&names);
        proof {
            lemma_with_entries(before, names_of(names@));
        }
        self.selected_outputs = names;
    }

    /// Empties the selection, unless a run is going on.
    pub fn clear_selection(&mut self)
        ensures
            old(self).outputs_have_series() || !old(self).spec_is_running()
                ==> final(self).outputs_have_series(),
            final(self).selected_outputs@ == if old(self).spec_is_running() {
                old(self).selected_outputs@
            } else {
                Seq::<String>::empty()
            },
            final(self).loaded == old(self).loaded,
            final(self).load_error == old(self).load_error,
            final(self).config == old(self).config,
            final(self).sim_state == old(self).sim_state,
            final(self).logs == old(self).logs,
            final(self).series == old(self).series,
            final(self).latest_sim_time == old(self).latest_sim_time,
    {
        if !self.is_running() {
            self.selected_outputs.clear();
        }
    }

    /// Checks or unchecks the variable at `index` of the loaded FMU.  When it
    /// can be changed, checking an unselected variable appends its name to the
    /// selection and makes sure it has a series, and unchecking a selected one
    /// removes its name from the selection; otherwise nothing changes.
    pub fn set_variable_selected(&mut self, index: usize, selected: bool)
        requires
            old(self).wf(),
        ensures
            final(self).wf(),
            final(self).loaded == old(self).loaded,
            final(self).load_error == old(self).load_error,
            final(self).config == old(self).config,
            final(self).sim_state == old(self).sim_state,
            final(self).logs == old(self).logs,
            final(self).latest_sim_time == old(self).latest_sim_time,
            old(self).outputs_have_series() ==> final(self).outputs_have_series(),
            !old(self).spec_selectable(index as int) ==> {
                &&& final(self).selected_outputs == old(self).selected_outputs
                &&& final(self).series == old(self).series
            },
            old(self).spec_selectable(index as int) ==> {
                let name = old(self).loaded->0.variables@[index as int].name@;
                let present = old(self).selected().contains(name);
                &&& selected && !present ==> {
                    &&& final(self).selected() == old(self).selected().push(name)
                    &&& final(self).series@ == with_entries(old(self).series@, seq![name])
                }
                &&& !selected && present ==> {
                    &&& final(self).selected() == without(old(self).selected(), name)
                    &&& final(self).series == old(self).series
                }
                &&& selected == present ==> {
                    &&& final(self).selected_outputs == old(self).selected_outputs
                    &&& final(self).series == old(self).series
                }
            },
    {
        if self.is_running() {
            return;
        }
        let name = match &self.loaded {
            Some(f) => {
                if index >= f.variables.len() || !f.variables[index].kind.plottable() {
                    return;
                }
                f.variables[index].name.clone()
            },
            None => {
                return;
            },
        };
        let present = contains_name(&self.selected_outputs, &name);
        if selected && !present {
            let ghost before = self.selected_outputs@;
            let ghost series_before = self.series@;
            let ghost nm = name@;
            let mut one: Vec<String> = Vec::new();
            one.push(name.clone());
            self.series.ensure_all(&one);
            self.selected_outputs.push(name);
            assert(names_of(one@) =~= seq![name@]);
            assert(self.selected() =~= names_of(before).push(name@));
            proof {
                lemma_with_entries(series_before, seq![nm]);
                assert(seq![nm][0] == nm);
                if old(self).outputs_have_series() {
                    assert forall|i: int| 0 <= i < self.selected().len() implies self.series@.dom().contains(
                        #[trigger] self.selected()[i],
                    ) by {
                        if i < names_of(before).len() {
                            assert(self.selected()[i] == names_of(before)[i]);
                            assert(old(self).selected()[i] == names_of(before)[i]);
                            assert(series_before.dom().contains(names_of(before)[i]));
                        }
                    }
                }
            }
        } else if !selected && present {
            let ghost before = self.selected();
            self.selected_outputs = remove_name(&self.selected_outputs, &name);
            proof {
                lemma_without(before, name@);
                if old(self).outputs_have_series() {
                    assert forall|i: int| 0 <= i < self.selected().len() implies self.series@.dom().contains(
                        #[trigger] self.selected()[i],
                    ) by {
                        let x = self.selected()[i];
                        assert(self.selected().contains(x));
                        if x != name@ {
                            assert(without(before, name@).contains(x));
                            assert(before.contains(x));
                            let j = choose|j: int| 0 <= j < before.len() && before[j] == x;
                            assert(old(self).series@.dom().contains(before[j]));
                        }
                    }
                }
            }
        }
    }

    /// Positions in the log of the entries at least as severe as the
    /// configured filter level, in increasing order.
    pub fn visible_log_indices(&self) -> (r: Vec<usize>)
        ensures
            forall|j: int|
                0 <= j < r@.len() ==> #[trigger] r@[j] < self.logs@.len()
                    && self.logs@[r@[j] as int].level.spec_at_least(self.config.log_level_filter),
            forall|j: int, m: int| 0 <= j < m < r@.len() ==> r@[j] < r@[m],
            forall|i: int|
                0 <= i < self.logs@.len() && (#[trigger] self.logs@[i]).level.spec_at_least(
                    self.config.log_level_filter,
                ) ==> r@.contains(i as usize),
    {
        let mut r: Vec<usize> = Vec::new();
        let mut i: usize = 0;
        let min = self.config.log_level_filter;
        while i < self.logs.len()
            invariant
                min == self.config.log_level_filter,
                i <= self.logs@.len(),
                forall|j: int|
                    0 <= j < r@.len() ==> #[trigger] r@[j] < i && self.logs@[r@[j] as int].level.spec_at_least(min),
                forall|j: int, m: int| 0 <= j < m < r@.len() ==> r@[j] < r@[m],
                forall|k: int|
                    0 <= k < i && (#[trigger] self.logs@[k]).level.spec_at_least(min) ==> r@.contains(k as usize),
            decreases self.logs@.len() - i,
        {
            if self.logs[i].level.at_least(min) {
                let ghost before = r@;
                r.push(i);
                assert forall|k: int|
                    0 <= k < i + 1 && (#[trigger] self.logs@[k]).level.spec_at_least(min) implies r@.contains(k as usize) by {
                    if k < i {
                        let j = choose|j: int| 0 <= j < before.len() && before[j] == k as usize;
                        assert(r@[j] == k as usize);
                    } else {
                        assert(r@[before.len() as int] == i);
                    }
                }
            }
            i = i + 1;
        }
        r
    }

    /// Positions in the selection of the outputs that have a series with at
    /// least one sample, in increasing order: the outputs that are drawn.
    pub fn plotted_outputs(&self) -> (r: Vec<usize>)
        requires
            self.wf(),
        ensures
            forall|j: int|
                0 <= j < r@.len() ==> #[trigger] r@[j] < self.selected_outputs@.len()
                    && series_in(self.series@, self.selected()[r@[j] as int]).0.len() > 0,
            forall|j: int, m: int| 0 <= j < m < r@.len() ==> r@[j] < r@[m],
            forall|i: int|
                0 <= i < self.selected_outputs@.len() && series_in(
                    self.series@,
                    #[trigger] self.selected()[i],
                ).0.len() > 0 ==> r@.contains(i as usize),
    {
        let mut r: Vec<usize> = Vec::new();
        let mut i: usize = 0;
        while i < self.selected_outputs.len()
            invariant
                self.wf(),
                i <= self.selected_outputs@.len(),
                forall|j: int|
                    0 <= j < r@.len() ==> #[trigger] r@[j] < i && series_in(
                        self.series@,
                        self.selected()[r@[j] as int],
                    ).0.len() > 0,
                forall|j: int, m: int| 0 <= j < m < r@.len() ==> r@[j] < r@[m],
                forall|k: int|
                    0 <= k < i && series_in(self.series@, #[trigger] self.selected()[k]).0.len()
                        > 0 ==> r@.contains(k as usize),
            decreases self.selected_outputs@.len() - i,
        {
            let drawn = match self.series.get(&self.selected_outputs[i]) {
                Some(s) => s.time.len() > 0,
                None => false,
            };
            assert(self.selected()[i as int] == self.selected_outputs@[i as int]@);
            if drawn {
                let ghost before = r@;
                r.push(i);
                assert forall|k: int|
                    0 <= k < i + 1 && series_in(self.series@, #[trigger] self.selected()[k]).0.len()
                        > 0 implies r@.contains(k as usize) by {
                    if k < i {
                        let j = choose|j: int| 0 <= j < before.len() && before[j] == k as usize;
                        assert(r@[j] == k as usize);
                    } else {
                        assert(r@[before.len() as int] == i);
                    }
                }
            }
            i = i + 1;
        }
        r
    }

    pub fn is_running(&self) -> (r: bool)
        ensures
            r == self.spec_is_running(),
    {
        match self.sim_state {
            SimState::Running { .. } => true,
            _ => false,
        }
    }
}

} // verus!
