use std::path::PathBuf;
use vstd::prelude::*;
use vstd::string::*;

use crate::app::{StartValue, VariableInfo};
use crate::series::names_of;

verus! {

/// What a simulation run is started with.
pub struct SimJobConfig<T> {
    pub fmu_path: PathBuf,
    pub selected_outputs: Vec<String>,
    pub stop_time: T,
    pub output_interval: T,
    pub logging_on: bool,
    pub log_fmi_calls: bool,
    pub start_values: Vec<StartValue>,
}

/// The names and values of a sequence of start values.
pub open spec fn start_values_of(v: Seq<StartValue>) -> Seq<(Seq<char>, Seq<char>)> {
    v.map_values(|s: StartValue| (s.name@, s.value@))
}

/// A copy of the names `v`.
pub fn clone_names(v: &Vec<String>) -> (r: Vec<String>)
    ensures
        names_of(r@) == names_of(v@),
{
    let mut r: Vec<String> = Vec::new();
    let mut i: usize = 0;
    while i < v.len()
        invariant
            i <= v@.len(),
            names_of(r@) == names_of(v@).take(i as int),
        decreases v@.len() - i,
    {
        let c = v[i].clone();
        assert(c@ == v@[i as int]@);
        let ghost old_r = r@;
        r.push(c);
        assert(names_of(r@) =~= names_of(old_r).push(v@[i as int]@));
        assert(names_of(v@).take(i + 1) =~= names_of(v@).take(i as int).push(v@[i as int]@));
        i = i + 1;
    }
    assert(names_of(v@).take(v@.len() as int) =~= names_of(v@));
    r
}

/// A copy of the start values `v`.
pub fn clone_start_values(v: &Vec<StartValue>) -> (r: Vec<StartValue>)
    ensures
        start_values_of(r@) == start_values_of(v@),
{
    let mut r: Vec<StartValue> = Vec::new();
    let mut i: usize = 0;
    while i < v.len()
        invariant
            i <= v@.len(),
            start_values_of(r@) == start_values_of(v@).take(i as int),
        decreases v@.len() - i,
    {
        let n = v[i].name.clone();
        let x = v[i].value.clone();
        assert(n@ == v@[i as int].name@ && x@ == v@[i as int].value@);
        let ghost old_r = r@;
        r.push(StartValue { name: n, value: x });
        let ghost e = (v@[i as int].name@, v@[i as int].value@);
        assert(start_values_of(r@) =~= start_values_of(old_r).push(e));
        assert(start_values_of(v@).take(i + 1) =~= start_values_of(v@).take(i as int).push(e));
        i = i + 1;
    }
    assert(start_values_of(v@).take(v@.len() as int) =~= start_values_of(v@));
    r
}

/// Whether some variable among `vars` is named `name`.
pub open spec fn has_variable(vars: Seq<VariableInfo>, name: Seq<char>) -> bool {
    exists|j: int| 0 <= j < vars.len() && (#[trigger] vars[j]).name@ == name
}

/// `i` is the first position among `vars` of a variable named `name`.
pub open spec fn is_first_named(vars: Seq<VariableInfo>, name: Seq<char>, i: int) -> bool {
    &&& 0 <= i < vars.len()
    &&& vars[i].name@ == name
    &&& forall|j: int| 0 <= j < i ==> (#[trigger] vars[j]).name@ != name
}

/// Positions of the variables that are outputs, in order.
pub open spec fn output_indices(vars: Seq<VariableInfo>) -> Seq<usize>
    decreases vars.len(),
{
    if vars.len() == 0 {
        Seq::empty()
    } else {
        let rest = output_indices(vars.drop_last());
        if vars.last().is_output {
            rest.push((vars.len() - 1) as usize)
        } else {
            rest
        }
    }
}

/// The error with which an unknown output name is reported.
pub open spec fn unknown_output_message(name: Seq<char>) -> Seq<char> {
    "Unknown output variable: "@ + name
}

/// The first position among `vars` of a variable named `name`, if any.
pub fn find_variable(vars: &Vec<VariableInfo>, name: &String) -> (r: Option<usize>)
    ensures
        r is None <==> !has_variable(vars@, name@),
        r matches Some(i) ==> is_first_named(vars@, name@, i as int),
{
    let mut i: usize = 0;
    while i < vars.len()
        invariant
            i <= vars@.len(),
            forall|j: int| 0 <= j < i ==> (#[trigger] vars@[j]).name@ != name@,
        decreases vars@.len() - i,
    {
        if vars[i].name == *name {
            return Some(i);
        }
        i = i + 1;
    }
    None
}

/// Resolves the outputs that a run records: with no selection, every output
/// variable in order; otherwise, for each selected name in order, the first
/// variable with that name.  A selected name that no variable has is an
/// error that names the first such output.
pub fn resolve_outputs(selected: &Vec<String>, vars: &Vec<VariableInfo>) -> (r: Result<
    Vec<usize>,
    String,
>)
    ensures
        selected@.len() == 0 ==> (r matches Ok(idx) && idx@ == output_indices(vars@)),
        selected@.len() > 0 ==> (r is Ok <==> forall|m: int|
            0 <= m < selected@.len() ==> has_variable(vars@, (#[trigger] selected@[m])@)),
        selected@.len() > 0 ==> (r matches Ok(idx) ==> {
            &&& idx@.len() == selected@.len()
            &&& forall|m: int|
                0 <= m < selected@.len() ==> is_first_named(
                    vars@,
                    selected@[m]@,
                    #[trigger] idx@[m] as int,
                )
        }),
        r matches Err(e) ==> exists|m: int|
            0 <= m < selected@.len() && !has_variable(vars@, (#[trigger] selected@[m])@) && (
            forall|p: int| 0 <= p < m ==> has_variable(vars@, (#[trigger] selected@[p])@))
                && e@ == unknown_output_message(selected@[m]@),
{
    if selected.len() == 0 {
        let mut idx: Vec<usize> = Vec::new();
        let mut i: usize = 0;
        while i < vars.len()
            invariant
                i <= vars@.len(),
                idx@ == output_indices(vars@.take(i as int)),
            decreases vars@.len() - i,
        {
            assert(vars@.take(i + 1).drop_last() =~= vars@.take(i as int));
            if vars[i].is_output {
                idx.push(i);
            }
            i = i + 1;
        }
        assert(vars@.take(vars@.len() as int) =~= vars@);
        return Ok(idx);
    }
    let mut idx: Vec<usize> = Vec::new();
    let mut m: usize = 0;
    while m < selected.len()
        invariant
            m <= selected@.len(),
            idx@.len() == m,
            forall|p: int| 0 <= p < m ==> is_first_named(vars@, selected@[p]@, #[trigger] idx@[p] as int),
        decreases selected@.len() - m,
    {
        match find_variable(vars, &selected[m]) {
            Some(i) => {
                idx.push(i);
            },
            None => {
                let mut e = "Unknown output variable: ".to_owned();
                e.append(selected[m].as_str());
                proof {
                    assert forall|p: int| 0 <= p < m implies has_variable(vars@, (#[trigger] selected@[p])@) by {
                        assert(vars@[idx@[p] as int].name@ == selected@[p]@);
                    }
                }
                return Err(e);
            },
        }
        m = m + 1;
    }
    proof {
        assert forall|p: int| 0 <= p < selected@.len() implies has_variable(vars@, (#[trigger] selected@[p])@) by {
            assert(vars@[idx@[p] as int].name@ == selected@[p]@);
        }
    }
    Ok(idx)
}

} // verus!
