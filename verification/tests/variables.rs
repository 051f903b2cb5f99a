use std::collections::HashSet;

use ems_model::model::{Capacity, ChargingWindow, Flow, Subsystems};
use ems_model::variables::ModelVariables;
use good_lp::Variable;

fn battery_and_car() -> Subsystems {
    Subsystems {
        battery: true,
        hot_water: false,
        heat_pump: false,
        electric_car: Some(ChargingWindow::Night),
    }
}

#[test]
fn solver_list_holds_one_variable_for_each_place() {
    let subsystems = battery_and_car();
    let (problem, variables) = ModelVariables::new(subsystems);
    assert_eq!(problem.len(), subsystems.variable_count());
    assert_eq!(problem.len(), 4 + 8760 * 8);
    assert_eq!(variables.subsystems(), subsystems);
}

#[test]
fn variables_stand_at_the_places_of_the_layout() {
    let subsystems = battery_and_car();
    let (problem, variables) = ModelVariables::new(subsystems);
    let listed: Vec<Variable> = problem
        .iter_variables_with_def()
        .map(|(variable, _)| variable)
        .collect();

    let pv = variables.capacity(Capacity::Pv).unwrap();
    assert_eq!(pv, listed[0]);
    let battery = variables.capacity(Capacity::Battery).unwrap();
    assert_eq!(battery, listed[3]);
    assert_eq!(variables.capacity(Capacity::HotWater), None);

    for hour in [0, 1, 4380, 8759] {
        for flow in [
            Flow::PvUsed,
            Flow::Grid,
            Flow::Overproduction,
            Flow::CarCharge,
            Flow::HeatPump,
            Flow::BatteryIn,
            Flow::BatteryOut,
            Flow::BatteryLevel,
        ] {
            let place = subsystems.variable_index(flow, hour).unwrap();
            assert_eq!(variables.flow(flow, hour), Some(listed[place]));
        }
        assert_eq!(variables.flow(Flow::HotWaterIn, hour), None);
    }
    assert_eq!(variables.flow(Flow::PvUsed, 8760), None);
}

#[test]
fn no_two_flows_share_a_variable() {
    let subsystems = battery_and_car();
    let (_problem, variables) = ModelVariables::new(subsystems);
    let mut seen = HashSet::new();
    for capacity in [Capacity::Pv, Capacity::Grid, Capacity::HeatPump, Capacity::Battery] {
        assert!(seen.insert(variables.capacity(capacity).unwrap()));
    }
    for hour in 0..8760 {
        for flow in [
            Flow::PvUsed,
            Flow::Grid,
            Flow::Overproduction,
            Flow::CarCharge,
            Flow::HeatPump,
            Flow::BatteryIn,
            Flow::BatteryOut,
            Flow::BatteryLevel,
        ] {
            assert!(seen.insert(variables.flow(flow, hour).unwrap()));
        }
    }
    assert_eq!(seen.len(), subsystems.variable_count());
}

#[test]
fn variables_are_bounded_below_by_zero() {
    let subsystems = Subsystems {
        battery: false,
        hot_water: false,
        heat_pump: false,
        electric_car: None,
    };
    let (problem, _variables) = ModelVariables::new(subsystems);
    let mut count = 0;
    for (_variable, definition) in problem.iter_variables_with_def() {
        assert_eq!(definition.get_min(), 0.0);
        assert_eq!(definition.get_max(), f64::INFINITY);
        count += 1;
    }
    assert_eq!(count, 3 + 8760 * 5);
}
