use vstd::prelude::*;

use crate::app::{plottable_output_names, record_sample, without, FmusimApp, VariableInfo};
use crate::kinds::VariableKind;
use crate::series::{series_after_push, series_in, MAX_SERIES_POINTS, SERIES_DROP};

verus! {

/// Exactly `Float`, `Integer`, `Boolean` and `Enumeration` values can be plotted.
pub proof fn lemma_plottable_kinds(k: VariableKind)
    ensures
        k.spec_plottable() <==> (k == VariableKind::Float || k == VariableKind::Integer || k
            == VariableKind::Boolean || k == VariableKind::Enumeration),
{
}

/// Recording the sample `v` at time `t` in a series ends both columns with the
/// new point; a column that already holds `MAX_SERIES_POINTS` or more first
/// loses its oldest `SERIES_DROP` entries, and nothing else is lost.
pub proof fn lemma_series_after_push<T>(s: (Seq<T>, Seq<T>), t: T, v: T)
    ensures
        series_after_push(s, t, v).0.last() == t,
        series_after_push(s, t, v).1.last() == v,
        series_after_push(s, t, v).0.len() == if s.0.len() >= MAX_SERIES_POINTS {
            s.0.len() - SERIES_DROP + 1
        } else {
            s.0.len() as int + 1
        },
        series_after_push(s, t, v).1.len() == if s.1.len() >= MAX_SERIES_POINTS {
            s.1.len() - SERIES_DROP + 1
        } else {
            s.1.len() as int + 1
        },
        series_after_push(s, t, v).0.drop_last() == s.0.skip(
            s.0.len() + 1 - series_after_push(s, t, v).0.len(),
        ),
        series_after_push(s, t, v).1.drop_last() == s.1.skip(
            s.1.len() + 1 - series_after_push(s, t, v).1.len(),
        ),
{
    let r = series_after_push(s, t, v);
    assert(r.0.drop_last() =~= s.0.skip(s.0.len() + 1 - r.0.len()));
    assert(r.1.drop_last() =~= s.1.skip(s.1.len() + 1 - r.1.len()));
}

/// A name that none of the first `n` positions carries keeps its series (or
/// its absence) when a sample is recorded.
pub proof fn lemma_record_sample_untouched<T>(
    m: Map<Seq<char>, (Seq<T>, Seq<T>)>,
    names: Seq<Seq<char>>,
    values: Seq<Option<T>>,
    t: T,
    n: nat,
    k: Seq<char>,
)
    requires
        n <= names.len(),
        n <= values.len(),
        forall|j: int| 0 <= j < n ==> names[j] != k,
    ensures
        record_sample(m, names, values, t, n).dom().contains(k) == m.dom().contains(k),
        series_in(record_sample(m, names, values, t, n), k) == series_in(m, k),
    decreases n,
{
    if n > 0 {
        lemma_record_sample_untouched(m, names, values, t, (n - 1) as nat, k);
    }
}

/// When the selected names are distinct, recording a sample gives each output
/// that has a value among the first `n` positions exactly one new point
/// `(t, v)` appended to the series it had, and leaves the series of an output
/// without a value as it was.
pub proof fn lemma_record_sample_values<T>(
    m: Map<Seq<char>, (Seq<T>, Seq<T>)>,
    names: Seq<Seq<char>>,
    values: Seq<Option<T>>,
    t: T,
    n: nat,
    i: int,
)
    requires
        n <= names.len(),
        n <= values.len(),
        names.no_duplicates(),
        0 <= i < n,
    ensures
        values[i] is Some ==> {
            &&& record_sample(m, names, values, t, n).dom().contains(names[i])
            &&& record_sample(m, names, values, t, n)[names[i]] == series_after_push(
                series_in(m, names[i]),
                t,
                values[i]->0,
            )
            &&& record_sample(m, names, values, t, n)[names[i]].0.last() == t
            &&& record_sample(m, names, values, t, n)[names[i]].1.last() == values[i]->0
        },
        values[i] is None ==> series_in(record_sample(m, names, values, t, n), names[i])
            == series_in(m, names[i]),
    decreases n,
{
    let prev = record_sample(m, names, values, t, (n - 1) as nat);
    if i == n - 1 {
        lemma_record_sample_untouched(m, names, values, t, (n - 1) as nat, names[i]);
    } else {
        lemma_record_sample_values(m, names, values, t, (n - 1) as nat, i);
        assert(names[n - 1] != names[i]);
    }
    if values[i] is Some {
        lemma_series_after_push(series_in(m, names[i]), t, values[i]->0);
    }
}

/// The plottable outputs are the outputs among `vars` whose kind is neither a
/// string nor binary, with their names in the order of `vars`.
pub proof fn lemma_plottable_output_names(vars: Seq<VariableInfo>)
    ensures
        plottable_output_names(vars) == vars.filter(
            |x: VariableInfo| x.is_output && !(x.kind is String || x.kind is Binary),
        ).map_values(|x: VariableInfo| x.name@),
        forall|i: int|
            0 <= i < vars.len() && (#[trigger] vars[i]).is_output && !(vars[i].kind is String
                || vars[i].kind is Binary) ==> plottable_output_names(vars).contains(vars[i].name@),
    decreases vars.len(),
{
    let p = |x: VariableInfo| x.is_output && !(x.kind is String || x.kind is Binary);
    let f = |x: VariableInfo| x.name@;
    reveal(Seq::filter);
    if vars.len() > 0 {
        lemma_plottable_output_names(vars.drop_last());
        let rest = vars.drop_last().filter(p);
        if p(vars.last()) {
            assert(rest.push(vars.last()).map_values(f) =~= rest.map_values(f).push(
                vars.last().name@,
            ));
        }
        let r = plottable_output_names(vars);
        let q = plottable_output_names(vars.drop_last());
        assert forall|i: int|
            0 <= i < vars.len() && (#[trigger] vars[i]).is_output && !(vars[i].kind is String
                || vars[i].kind is Binary) implies r.contains(vars[i].name@) by {
            if i < vars.len() - 1 {
                assert(vars.drop_last()[i] == vars[i]);
                assert(q.contains(vars[i].name@));
                let j = choose|j: int| 0 <= j < q.len() && q[j] == vars[i].name@;
                assert(r[j] == vars[i].name@);
            } else {
                assert(r[q.len() as int] == vars[i].name@);
            }
        }
    }
}

/// Removing a name keeps every other name, in the order it had.
pub proof fn lemma_without_filter(s: Seq<Seq<char>>, k: Seq<char>)
    ensures
        without(s, k) == s.filter(|x: Seq<char>| x != k),
    decreases s.len(),
{
    reveal(Seq::filter);
    if s.len() > 0 {
        lemma_without_filter(s.drop_last(), k);
    }
}

/// A variable of the loaded FMU can be checked or unchecked exactly when no
/// run is going on, the position names a variable, and the variable's kind is
/// neither a string nor binary.
pub proof fn lemma_selectable<T: Copy>(app: FmusimApp<T>, index: int)
    ensures
        app.spec_selectable(index) <==> {
            &&& !(app.sim_state is Running)
            &&& app.loaded is Some
            &&& 0 <= index < app.loaded->0.variables@.len()
            &&& !(app.loaded->0.variables@[index].kind is String
                || app.loaded->0.variables@[index].kind is Binary)
        },
{
}

} // verus!
