//! The variables of the dispatch model in the solver's list of variables:
//! one for every capacity and one for every flow of every hour, each at
//! the place that the model's layout gives it.

use crate::calendar::HOURS_PER_YEAR;
use crate::model::{lemma_variables_have_places_of_their_own, Capacity, Flow, Subsystems};
use good_lp::{variable, ProblemVariables, Variable};
use vstd::prelude::*;

verus! {

/// The list of variables of a linear program, `good_lp::ProblemVariables`.
#[verifier::external_type_specification]
#[verifier::external_body]
pub struct ExProblemVariables(ProblemVariables);

/// One variable of a linear program, `good_lp::Variable`: a handle that
/// holds nothing but the variable's place in the list it was added to.
#[verifier::external_type_specification]
#[verifier::external_body]
pub struct ExVariable(Variable);

/// The lower bounds of the variables in a list, in the order in which the
/// variables were added. It is known only of lists that this module made:
/// their bounds are whole numbers.
pub uninterp spec fn lower_bounds(problem: ProblemVariables) -> Seq<int>;

/// The place of a variable in the list it was added to: the number of
/// variables that were added before it.
pub uninterp spec fn variable_place(variable: Variable) -> nat;

/// Calls `ProblemVariables::new`, which makes a list without variables.
#[verifier::external_body]
fn new_problem() -> (problem: ProblemVariables)
    ensures
        lower_bounds(problem) == Seq::<int>::empty(),
{
    ProblemVariables::new()
}

/// Calls `ProblemVariables::add` with the definition of a continuous
/// variable, made by `variable`, whose lower bound `VariableDefinition::min`
/// has set to `lower_bound`. `add` puts the definition at the end of the
/// list and hands back the variable of that place: the list grows by the
/// one bound, and the variable's place is the length that the list had.
#[verifier::external_body]
fn add_bounded_below(problem: &mut ProblemVariables, lower_bound: i32) -> (added: Variable)
    ensures
        lower_bounds(*final(problem)) == lower_bounds(*old(problem)).push(lower_bound as int),
        variable_place(added) == lower_bounds(*old(problem)).len(),
{
    problem.add(variable().min(lower_bound))
}

/// The variables of a dispatch model, in the order of the model's layout.
pub struct ModelVariables {
    subsystems: Subsystems,
    all: Vec<Variable>,
}

impl ModelVariables {
    /// The subsystems of the model, as a value.
    pub closed spec fn model(self) -> Subsystems {
        self.subsystems
    }

    /// The variables, in the order of the layout.
    pub closed spec fn listed(self) -> Seq<Variable> {
        self.all@
    }

    /// There is one variable for each place of the layout, and each stands
    /// at its own place of the solver's list.
    pub open spec fn wf(self) -> bool {
        &&& self.listed().len() == self.model().variables()
        &&& forall|i: int|
            0 <= i < self.listed().len() ==> variable_place(#[trigger] self.listed()[i]) == i
    }

    /// Makes a list of variables for the solver that holds one variable for
    /// every capacity and every hourly flow of the model, and nothing else.
    /// No variable may go below zero: no capacity, no flow and no level of
    /// a storage is ever negative.
    pub fn new(subsystems: Subsystems) -> (r: (ProblemVariables, ModelVariables))
        ensures
            lower_bounds(r.0).len() == subsystems.variables(),
            forall|i: int| 0 <= i < lower_bounds(r.0).len() ==> lower_bounds(r.0)[i] == 0,
            r.1.model() == subsystems,
            r.1.wf(),
    {
        let count = subsystems.variable_count();
        let mut problem = new_problem();
        let mut all: Vec<Variable> = Vec::new();
        let mut i: usize = 0;
        while i < count
            invariant
                i <= count,
                all@.len() == i,
                lower_bounds(problem).len() == i,
                forall|k: int| 0 <= k < i ==> lower_bounds(problem)[k] == 0,
                forall|k: int| 0 <= k < i ==> variable_place(#[trigger] all@[k]) == k,
            decreases count - i,
        {
            let added = add_bounded_below(&mut problem, 0);
            all.push(added);
            i += 1;
        }
        (problem, ModelVariables { subsystems, all })
    }

    /// The subsystems of the model.
    pub fn subsystems(&self) -> (subsystems: Subsystems)
        ensures
            subsystems == self.model(),
    {
        self.subsystems
    }

    /// The variable of a capacity; none where the model does not size it.
    pub fn capacity(&self, capacity: Capacity) -> (r: Option<Variable>)
        requires
            self.wf(),
        ensures
            r is Some == self.model().sizes(capacity),
            r is Some ==> variable_place(r->Some_0) == self.model().capacity_place(capacity),
    {
        match self.subsystems.capacity_index(capacity) {
            Some(place) => {
                proof {
                    lemma_variables_have_places_of_their_own(
                        self.subsystems,
                        Flow::Grid,
                        0,
                        Flow::Grid,
                        0,
                        capacity,
                        capacity,
                    );
                }
                Some(self.all[place])
            },
            None => None,
        }
    }

    /// The variable of a flow in one hour of the year; none where the
    /// model has no variables for the flow, and for an hour past the year.
    pub fn flow(&self, flow: Flow, hour: usize) -> (r: Option<Variable>)
        requires
            self.wf(),
        ensures
            r is Some == (self.model().has(flow) && hour < HOURS_PER_YEAR),
            r is Some ==> variable_place(r->Some_0) == self.model().flow_place(flow, hour as int),
    {
        match self.subsystems.variable_index(flow, hour) {
            Some(place) => {
                proof {
                    lemma_variables_have_places_of_their_own(
                        self.subsystems,
                        flow,
                        hour as int,
                        flow,
                        hour as int,
                        Capacity::Pv,
                        Capacity::Pv,
                    );
                }
                Some(self.all[place])
            },
            None => None,
        }
    }
}

/// No two flows share a variable: the variables of two flows, or of one
/// flow in two hours, stand at different places of the solver's list.
pub proof fn lemma_flows_have_variables_of_their_own(
    variables: ModelVariables,
    flow: Flow,
    hour: int,
    other_flow: Flow,
    other_hour: int,
)
    requires
        variables.wf(),
        variables.model().has(flow),
        variables.model().has(other_flow),
        0 <= hour < HOURS_PER_YEAR,
        0 <= other_hour < HOURS_PER_YEAR,
        flow != other_flow || hour != other_hour,
    ensures
        variables.model().flow_place(flow, hour) != variables.model().flow_place(
            other_flow,
            other_hour,
        ),
        variable_place(variables.listed()[variables.model().flow_place(flow, hour)])
            != variable_place(
            variables.listed()[variables.model().flow_place(other_flow, other_hour)],
        ),
{
    lemma_variables_have_places_of_their_own(
        variables.model(),
        flow,
        hour,
        other_flow,
        other_hour,
        Capacity::Pv,
        Capacity::Pv,
    );
    lemma_variables_have_places_of_their_own(
        variables.model(),
        other_flow,
        other_hour,
        flow,
        hour,
        Capacity::Pv,
        Capacity::Pv,
    );
}

} // verus!
