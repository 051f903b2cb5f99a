use ems_model::model::{
    battery_action, Balance, BatteryAction, Capacity, ChargingWindow, Flow, HourlyRule, Side,
    Storage, Subsystems,
};

const ALL_FLOWS: [Flow; 11] = [
    Flow::PvUsed,
    Flow::Grid,
    Flow::Overproduction,
    Flow::CarCharge,
    Flow::HeatPump,
    Flow::BatteryIn,
    Flow::BatteryOut,
    Flow::BatteryLevel,
    Flow::HotWaterIn,
    Flow::HotWaterOut,
    Flow::HotWaterLevel,
];

const ALL_CAPACITIES: [Capacity; 5] = [
    Capacity::Pv,
    Capacity::Grid,
    Capacity::HeatPump,
    Capacity::Battery,
    Capacity::HotWater,
];

fn bare() -> Subsystems {
    Subsystems {
        battery: false,
        hot_water: false,
        heat_pump: false,
        electric_car: None,
    }
}

fn full() -> Subsystems {
    Subsystems {
        battery: true,
        hot_water: true,
        heat_pump: true,
        electric_car: Some(ChargingWindow::Day),
    }
}

fn every_choice() -> Vec<Subsystems> {
    let mut all = Vec::new();
    for battery in [false, true] {
        for hot_water in [false, true] {
            for heat_pump in [false, true] {
                for electric_car in [None, Some(ChargingWindow::Day), Some(ChargingWindow::Night)] {
                    all.push(Subsystems {
                        battery,
                        hot_water,
                        heat_pump,
                        electric_car,
                    });
                }
            }
        }
    }
    all
}

#[test]
fn flows_stand_on_their_side_of_the_balance() {
    assert_eq!(Flow::PvUsed.balance_side(), Some(Side::Supply));
    assert_eq!(Flow::Grid.balance_side(), Some(Side::Supply));
    assert_eq!(Flow::BatteryOut.balance_side(), Some(Side::Supply));
    assert_eq!(Flow::HotWaterOut.balance_side(), Some(Side::Supply));
    assert_eq!(Flow::BatteryIn.balance_side(), Some(Side::Consumption));
    assert_eq!(Flow::CarCharge.balance_side(), Some(Side::Consumption));
    assert_eq!(Flow::HeatPump.balance_side(), Some(Side::Consumption));
    assert_eq!(Flow::HotWaterIn.balance_side(), Some(Side::Consumption));
    assert_eq!(Flow::Overproduction.balance_side(), None);
    assert_eq!(Flow::BatteryLevel.balance_side(), None);
    assert_eq!(Flow::HotWaterLevel.balance_side(), None);
}

#[test]
fn bare_system_balances_pv_and_grid_only() {
    assert_eq!(
        bare().balance_terms(),
        vec![(Flow::PvUsed, Side::Supply), (Flow::Grid, Side::Supply)]
    );
}

#[test]
fn full_system_balances_every_flow() {
    assert_eq!(
        full().balance_terms(),
        vec![
            (Flow::PvUsed, Side::Supply),
            (Flow::Grid, Side::Supply),
            (Flow::BatteryIn, Side::Consumption),
            (Flow::BatteryOut, Side::Supply),
            (Flow::CarCharge, Side::Consumption),
            (Flow::HeatPump, Side::Consumption),
            (Flow::HotWaterIn, Side::Consumption),
            (Flow::HotWaterOut, Side::Supply),
        ]
    );
}

#[test]
fn disabled_subsystems_add_no_term() {
    let battery_only = Subsystems {
        battery: true,
        ..bare()
    };
    assert_eq!(
        battery_only.balance_terms(),
        vec![
            (Flow::PvUsed, Side::Supply),
            (Flow::Grid, Side::Supply),
            (Flow::BatteryIn, Side::Consumption),
            (Flow::BatteryOut, Side::Supply),
        ]
    );
    let car_only = Subsystems {
        electric_car: Some(ChargingWindow::Night),
        ..bare()
    };
    assert_eq!(
        car_only.balance_terms(),
        vec![
            (Flow::PvUsed, Side::Supply),
            (Flow::Grid, Side::Supply),
            (Flow::CarCharge, Side::Consumption),
        ]
    );
}

#[test]
fn storage_flows_exist_with_their_subsystem() {
    for flow in [Flow::BatteryIn, Flow::BatteryOut, Flow::BatteryLevel] {
        assert!(!bare().has_flow(flow));
        assert!(full().has_flow(flow));
    }
    for flow in [Flow::HotWaterIn, Flow::HotWaterOut, Flow::HotWaterLevel] {
        assert!(!bare().has_flow(flow));
        assert!(full().has_flow(flow));
    }
    for flow in [
        Flow::PvUsed,
        Flow::Grid,
        Flow::Overproduction,
        Flow::CarCharge,
        Flow::HeatPump,
    ] {
        assert!(bare().has_flow(flow));
    }
    assert!(!bare().has_capacity(Capacity::Battery));
    assert!(!bare().has_capacity(Capacity::HotWater));
    assert!(bare().has_capacity(Capacity::Pv));
    assert!(bare().has_capacity(Capacity::Grid));
    assert!(bare().has_capacity(Capacity::HeatPump));
    assert!(full().has_capacity(Capacity::Battery));
    assert!(full().has_capacity(Capacity::HotWater));
}

#[test]
fn car_charges_in_its_window_only() {
    let by_day = Subsystems {
        electric_car: Some(ChargingWindow::Day),
        ..bare()
    };
    let by_night = Subsystems {
        electric_car: Some(ChargingWindow::Night),
        ..bare()
    };
    for hour in 0..8760 {
        let hour_of_day = hour % 24;
        let day = (6..18).contains(&hour_of_day);
        assert_eq!(by_day.car_may_charge(hour), day);
        assert_eq!(by_night.car_may_charge(hour), !day);
        assert!(!bare().car_may_charge(hour));
    }
    assert!(!by_day.car_may_charge(5));
    assert!(by_day.car_may_charge(6));
    assert!(by_day.car_may_charge(17));
    assert!(!by_day.car_may_charge(18));
    assert!(by_night.car_may_charge(18));
    assert!(by_night.car_may_charge(0));
}

#[test]
fn variable_counts() {
    assert_eq!(bare().flows_per_hour(), 5);
    assert_eq!(bare().capacity_count(), 3);
    assert_eq!(bare().variable_count(), 3 + 8760 * 5);
    assert_eq!(full().flows_per_hour(), 11);
    assert_eq!(full().capacity_count(), 5);
    assert_eq!(full().variable_count(), 5 + 8760 * 11);
    let hot_water_only = Subsystems {
        hot_water: true,
        ..bare()
    };
    assert_eq!(hot_water_only.flows_per_hour(), 8);
    assert_eq!(hot_water_only.capacity_count(), 4);
    assert_eq!(hot_water_only.variable_count(), 4 + 8760 * 8);
}

#[test]
fn variable_places_of_given_flows() {
    assert_eq!(bare().capacity_index(Capacity::Pv), Some(0));
    assert_eq!(bare().capacity_index(Capacity::Grid), Some(1));
    assert_eq!(bare().capacity_index(Capacity::HeatPump), Some(2));
    assert_eq!(bare().capacity_index(Capacity::Battery), None);
    assert_eq!(bare().capacity_index(Capacity::HotWater), None);
    assert_eq!(full().capacity_index(Capacity::Battery), Some(3));
    assert_eq!(full().capacity_index(Capacity::HotWater), Some(4));
    let hot_water_only = Subsystems {
        hot_water: true,
        ..bare()
    };
    assert_eq!(hot_water_only.capacity_index(Capacity::HotWater), Some(3));

    assert_eq!(bare().variable_index(Flow::PvUsed, 0), Some(3));
    assert_eq!(bare().variable_index(Flow::HeatPump, 0), Some(7));
    assert_eq!(bare().variable_index(Flow::PvUsed, 1), Some(8));
    assert_eq!(bare().variable_index(Flow::HeatPump, 8759), Some(3 + 8759 * 5 + 4));
    assert_eq!(bare().variable_index(Flow::PvUsed, 8760), None);
    assert_eq!(bare().variable_index(Flow::BatteryIn, 0), None);
    assert_eq!(full().variable_index(Flow::HotWaterLevel, 8759), Some(5 + 8760 * 11 - 1));
    assert_eq!(hot_water_only.variable_index(Flow::HotWaterIn, 0), Some(4 + 5));
    assert_eq!(hot_water_only.variable_index(Flow::HotWaterLevel, 2), Some(4 + 2 * 8 + 7));
}

#[test]
fn every_variable_has_a_place_of_its_own() {
    for subsystems in every_choice() {
        let count = subsystems.variable_count();
        let mut taken = vec![false; count];
        for capacity in ALL_CAPACITIES {
            if let Some(place) = subsystems.capacity_index(capacity) {
                assert!(subsystems.has_capacity(capacity));
                assert!(!taken[place]);
                taken[place] = true;
            } else {
                assert!(!subsystems.has_capacity(capacity));
            }
        }
        for hour in 0..8760 {
            for flow in ALL_FLOWS {
                if let Some(place) = subsystems.variable_index(flow, hour) {
                    assert!(subsystems.has_flow(flow));
                    assert!(!taken[place]);
                    taken[place] = true;
                } else {
                    assert!(!subsystems.has_flow(flow));
                }
            }
        }
        assert!(taken.iter().all(|t| *t));
    }
}

#[test]
fn battery_follows_the_policy() {
    assert_eq!(battery_action(Balance::Surplus, false), BatteryAction::Charge);
    assert_eq!(battery_action(Balance::Surplus, true), BatteryAction::Charge);
    assert_eq!(battery_action(Balance::Shortfall, true), BatteryAction::Discharge);
    assert_eq!(battery_action(Balance::Shortfall, false), BatteryAction::Rest);
    assert_eq!(battery_action(Balance::Even, true), BatteryAction::Rest);
    assert_eq!(battery_action(Balance::Even, false), BatteryAction::Rest);
}

#[test]
fn storages_name_their_flows() {
    assert_eq!(Storage::Battery.level(), Flow::BatteryLevel);
    assert_eq!(Storage::Battery.input(), Flow::BatteryIn);
    assert_eq!(Storage::Battery.output(), Flow::BatteryOut);
    assert_eq!(Storage::Battery.capacity(), Capacity::Battery);
    assert_eq!(Storage::HotWater.level(), Flow::HotWaterLevel);
    assert_eq!(Storage::HotWater.input(), Flow::HotWaterIn);
    assert_eq!(Storage::HotWater.output(), Flow::HotWaterOut);
    assert_eq!(Storage::HotWater.capacity(), Capacity::HotWater);
    assert!(!bare().has_storage(Storage::Battery));
    assert!(!bare().has_storage(Storage::HotWater));
    assert!(full().has_storage(Storage::Battery));
    assert!(full().has_storage(Storage::HotWater));
}

#[test]
fn bare_system_rules_without_storage_and_car() {
    let always = vec![
        HourlyRule::EnergyBalance,
        HourlyRule::Overproduction,
        HourlyRule::PvLimit,
        HourlyRule::GridLimit,
        HourlyRule::HeatPumpDemand,
        HourlyRule::HeatPumpLimit,
        HourlyRule::CarRests,
    ];
    for hour in [0, 1, 12, 8759] {
        assert_eq!(bare().hourly_rules(hour), always);
    }
}

#[test]
fn storage_is_empty_first_and_balanced_later() {
    let rules = full().hourly_rules(0);
    assert_eq!(
        rules,
        vec![
            HourlyRule::EnergyBalance,
            HourlyRule::Overproduction,
            HourlyRule::PvLimit,
            HourlyRule::GridLimit,
            HourlyRule::HeatPumpDemand,
            HourlyRule::HeatPumpLimit,
            HourlyRule::CarRests,
            HourlyRule::StorageLimit(Storage::Battery),
            HourlyRule::ChargeLimit(Storage::Battery),
            HourlyRule::DischargeLimit(Storage::Battery),
            HourlyRule::StorageEmpty(Storage::Battery),
            HourlyRule::StorageLimit(Storage::HotWater),
            HourlyRule::ChargeLimit(Storage::HotWater),
            HourlyRule::DischargeLimit(Storage::HotWater),
            HourlyRule::StorageEmpty(Storage::HotWater),
        ]
    );
    let rules = full().hourly_rules(12);
    assert_eq!(
        rules,
        vec![
            HourlyRule::EnergyBalance,
            HourlyRule::Overproduction,
            HourlyRule::PvLimit,
            HourlyRule::GridLimit,
            HourlyRule::HeatPumpDemand,
            HourlyRule::HeatPumpLimit,
            HourlyRule::StorageLimit(Storage::Battery),
            HourlyRule::ChargeLimit(Storage::Battery),
            HourlyRule::DischargeLimit(Storage::Battery),
            HourlyRule::StorageBalance(Storage::Battery),
            HourlyRule::StorageLimit(Storage::HotWater),
            HourlyRule::ChargeLimit(Storage::HotWater),
            HourlyRule::DischargeLimit(Storage::HotWater),
            HourlyRule::StorageBalance(Storage::HotWater),
        ]
    );
}

#[test]
fn car_rests_exactly_where_it_may_not_charge() {
    for subsystems in every_choice() {
        for hour in 0..72 {
            let rests = subsystems
                .hourly_rules(hour)
                .contains(&HourlyRule::CarRests);
            assert_eq!(rests, !subsystems.car_may_charge(hour));
        }
    }
}
