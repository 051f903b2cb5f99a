//! The shape of the hourly dispatch model: which optional subsystems take
//! part, which flows of energy each hour has, with which sign each flow
//! stands in the hour's energy balance, when a car may charge, and where
//! each variable stands in the model's list of variables.

use crate::calendar::{is_day_hour, in_day_window, HOURS_PER_YEAR};
use vstd::prelude::*;

verus! {

/// The part of the day in which an electric car charges.
#[derive(Debug, Clone, Copy, PartialEq, Eq, Structural)]
pub enum ChargingWindow {
    /// From 6 o'clock up to 18 o'clock
    Day,
    /// From 18 o'clock up to 6 o'clock
    Night,
}

/// The optional subsystems of an energy system.
#[derive(Debug, Clone, Copy, PartialEq, Eq, Structural)]
pub struct Subsystems {
    /// A battery whose capacity may be more than nothing
    pub battery: bool,
    /// A hot-water storage
    pub hot_water: bool,
    /// A heat pump
    pub heat_pump: bool,
    /// An electric car, with the window in which it charges
    pub electric_car: Option<ChargingWindow>,
}

/// A flow or a level of energy that the model has a variable for in every
/// hour.
#[derive(Debug, Clone, Copy, PartialEq, Eq, Structural)]
pub enum Flow {
    PvUsed,
    Grid,
    Overproduction,
    CarCharge,
    HeatPump,
    BatteryIn,
    BatteryOut,
    BatteryLevel,
    HotWaterIn,
    HotWaterOut,
    HotWaterLevel,
}

/// The side of the energy balance on which a flow stands.
#[derive(Debug, Clone, Copy, PartialEq, Eq, Structural)]
pub enum Side {
    /// Energy that the hour is supplied with
    Supply,
    /// Energy that the hour consumes
    Consumption,
}

/// A capacity that the model sizes.
#[derive(Debug, Clone, Copy, PartialEq, Eq, Structural)]
pub enum Capacity {
    Pv,
    Grid,
    HeatPump,
    Battery,
    HotWater,
}

/// A storage that the model may hold.
#[derive(Debug, Clone, Copy, PartialEq, Eq, Structural)]
pub enum Storage {
    Battery,
    HotWater,
}

/// A rule that the model lays down for one hour.
#[derive(Debug, Clone, Copy, PartialEq, Eq, Structural)]
pub enum HourlyRule {
    /// What the hour is supplied with equals what it consumes.
    EnergyBalance,
    /// Overproduction is what the PV system could give and does not.
    Overproduction,
    /// The PV system gives no more than its capacity allows in the hour.
    PvLimit,
    /// The grid gives no more than the connection's capacity.
    GridLimit,
    /// The heat pump takes what the hour's heat demand asks for.
    HeatPumpDemand,
    /// The heat pump takes no more than its capacity.
    HeatPumpLimit,
    /// The car charges nothing.
    CarRests,
    /// The storage holds no more than its capacity.
    StorageLimit(Storage),
    /// The storage takes up no more than its rate allows.
    ChargeLimit(Storage),
    /// The storage gives off no more than its rate allows.
    DischargeLimit(Storage),
    /// The storage holds what it held an hour before and did not lose,
    /// and what it took up, less what it gave off.
    StorageBalance(Storage),
    /// The storage is empty.
    StorageEmpty(Storage),
}

/// What the battery of a fixed system does in one hour.
#[derive(Debug, Clone, Copy, PartialEq, Eq, Structural)]
pub enum BatteryAction {
    /// Takes up surplus production
    Charge,
    /// Covers demand that production leaves open
    Discharge,
    /// Only loses what it loses by standing
    Rest,
}

/// How an hour's production compares with its demand.
#[derive(Debug, Clone, Copy, PartialEq, Eq, Structural)]
pub enum Balance {
    /// Production exceeds demand
    Surplus,
    /// Production equals demand
    Even,
    /// Demand exceeds production
    Shortfall,
}

impl Flow {
    /// The side of the energy balance on which the flow stands; none for a
    /// storage level and for overproduction, which stand in no balance.
    pub open spec fn side(self) -> Option<Side> {
        match self {
            Flow::PvUsed | Flow::Grid | Flow::BatteryOut | Flow::HotWaterOut => Some(Side::Supply),
            Flow::BatteryIn | Flow::CarCharge | Flow::HeatPump | Flow::HotWaterIn => Some(
                Side::Consumption,
            ),
            Flow::Overproduction | Flow::BatteryLevel | Flow::HotWaterLevel => None,
        }
    }

    /// The place of the flow among the flows of one hour when every
    /// subsystem is present.
    pub open spec fn rank(self) -> int {
        match self {
            Flow::PvUsed => 0,
            Flow::Grid => 1,
            Flow::Overproduction => 2,
            Flow::CarCharge => 3,
            Flow::HeatPump => 4,
            Flow::BatteryIn => 5,
            Flow::BatteryOut => 6,
            Flow::BatteryLevel => 7,
            Flow::HotWaterIn => 8,
            Flow::HotWaterOut => 9,
            Flow::HotWaterLevel => 10,
        }
    }

    /// The side of the energy balance on which the flow stands.
    pub fn balance_side(&self) -> (side: Option<Side>)
        ensures
            side == self.side(),
    {
        match self {
            Flow::PvUsed | Flow::Grid | Flow::BatteryOut | Flow::HotWaterOut => Some(Side::Supply),
            Flow::BatteryIn | Flow::CarCharge | Flow::HeatPump | Flow::HotWaterIn => Some(
                Side::Consumption,
            ),
            Flow::Overproduction | Flow::BatteryLevel | Flow::HotWaterLevel => None,
        }
    }
}

impl Storage {
    /// The flow that is the storage's level.
    pub open spec fn level_flow(self) -> Flow {
        match self {
            Storage::Battery => Flow::BatteryLevel,
            Storage::HotWater => Flow::HotWaterLevel,
        }
    }

    /// The flow that the storage takes up.
    pub open spec fn input_flow(self) -> Flow {
        match self {
            Storage::Battery => Flow::BatteryIn,
            Storage::HotWater => Flow::HotWaterIn,
        }
    }

    /// The flow that the storage gives off.
    pub open spec fn output_flow(self) -> Flow {
        match self {
            Storage::Battery => Flow::BatteryOut,
            Storage::HotWater => Flow::HotWaterOut,
        }
    }

    /// The capacity that bounds the storage.
    pub open spec fn bound(self) -> Capacity {
        match self {
            Storage::Battery => Capacity::Battery,
            Storage::HotWater => Capacity::HotWater,
        }
    }

    /// The flow that is the storage's level.
    pub fn level(&self) -> (flow: Flow)
        ensures
            flow == self.level_flow(),
    {
        match self {
            Storage::Battery => Flow::BatteryLevel,
            Storage::HotWater => Flow::HotWaterLevel,
        }
    }

    /// The flow that the storage takes up.
    pub fn input(&self) -> (flow: Flow)
        ensures
            flow == self.input_flow(),
    {
        match self {
            Storage::Battery => Flow::BatteryIn,
            Storage::HotWater => Flow::HotWaterIn,
        }
    }

    /// The flow that the storage gives off.
    pub fn output(&self) -> (flow: Flow)
        ensures
            flow == self.output_flow(),
    {
        match self {
            Storage::Battery => Flow::BatteryOut,
            Storage::HotWater => Flow::HotWaterOut,
        }
    }

    /// The capacity that bounds the storage.
    pub fn capacity(&self) -> (capacity: Capacity)
        ensures
            capacity == self.bound(),
    {
        match self {
            Storage::Battery => Capacity::Battery,
            Storage::HotWater => Capacity::HotWater,
        }
    }
}

impl Subsystems {
    /// Whether the model holds `storage`.
    pub open spec fn stores(self, storage: Storage) -> bool {
        match storage {
            Storage::Battery => self.battery,
            Storage::HotWater => self.hot_water,
        }
    }

    /// Whether the model lays `rule` down for the hour `hour` of the year.
    /// A storage that the model holds is bounded in every hour, is empty
    /// in the first hour and follows its balance in every later one. The
    /// car rests in every hour in which it may not charge.
    pub open spec fn holds(self, hour: int, rule: HourlyRule) -> bool {
        match rule {
            HourlyRule::CarRests => !self.may_charge(hour),
            HourlyRule::StorageLimit(storage) => self.stores(storage),
            HourlyRule::ChargeLimit(storage) => self.stores(storage),
            HourlyRule::DischargeLimit(storage) => self.stores(storage),
            HourlyRule::StorageBalance(storage) => self.stores(storage) && hour >= 1,
            HourlyRule::StorageEmpty(storage) => self.stores(storage) && hour == 0,
            _ => true,
        }
    }

    /// Whether the model holds a storage.
    pub fn has_storage(&self, storage: Storage) -> (r: bool)
        ensures
            r == self.stores(storage),
    {
        match storage {
            Storage::Battery => self.battery,
            Storage::HotWater => self.hot_water,
        }
    }

    /// The rules of one storage for an hour, added to `rules`.
    fn add_storage_rules(&self, storage: Storage, hour: usize, rules: &mut Vec<HourlyRule>)
        requires
            forall|i: int| 0 <= i < old(rules)@.len() ==> self.holds(hour as int, old(rules)@[i]),
            forall|i: int, j: int|
                0 <= i < j < old(rules)@.len() ==> old(rules)@[i] != old(rules)@[j],
            forall|i: int|
                0 <= i < old(rules)@.len() ==> old(rules)@[i] != HourlyRule::StorageLimit(storage)
                    && old(rules)@[i] != HourlyRule::ChargeLimit(storage) && old(rules)@[i]
                    != HourlyRule::DischargeLimit(storage) && old(rules)@[i]
                    != HourlyRule::StorageBalance(storage) && old(rules)@[i]
                    != HourlyRule::StorageEmpty(storage),
        ensures
            forall|i: int| 0 <= i < final(rules)@.len() ==> self.holds(hour as int, final(rules)@[i]),
            forall|i: int, j: int|
                0 <= i < j < final(rules)@.len() ==> final(rules)@[i] != final(rules)@[j],
            old(rules)@.len() <= final(rules)@.len(),
            forall|i: int| 0 <= i < old(rules)@.len() ==> final(rules)@[i] == old(rules)@[i],
            forall|i: int|
                old(rules)@.len() <= i < final(rules)@.len() ==> final(rules)@[i]
                    == HourlyRule::StorageLimit(storage) || final(rules)@[i]
                    == HourlyRule::ChargeLimit(storage) || final(rules)@[i]
                    == HourlyRule::DischargeLimit(storage) || final(rules)@[i]
                    == HourlyRule::StorageBalance(storage) || final(rules)@[i]
                    == HourlyRule::StorageEmpty(storage),
            forall|rule: HourlyRule|
                (rule == HourlyRule::StorageLimit(storage) || rule == HourlyRule::ChargeLimit(
                    storage,
                ) || rule == HourlyRule::DischargeLimit(storage) || rule
                    == HourlyRule::StorageBalance(storage) || rule == HourlyRule::StorageEmpty(
                    storage,
                )) && self.holds(hour as int, rule) ==> exists|i: int|
                    0 <= i < final(rules)@.len() && final(rules)@[i] == rule,
    {
        if !self.has_storage(storage) {
            return ;
        }
        let ghost n = rules@.len() as int;
        rules.push(HourlyRule::StorageLimit(storage));
        rules.push(HourlyRule::ChargeLimit(storage));
        rules.push(HourlyRule::DischargeLimit(storage));
        if hour == 0 {
            rules.push(HourlyRule::StorageEmpty(storage));
        } else {
            rules.push(HourlyRule::StorageBalance(storage));
        }
        assert(rules@[n] == HourlyRule::StorageLimit(storage));
        assert(rules@[n + 1] == HourlyRule::ChargeLimit(storage));
        assert(rules@[n + 2] == HourlyRule::DischargeLimit(storage));
        assert(rules@[n + 3] == if hour == 0 {
            HourlyRule::StorageEmpty(storage)
        } else {
            HourlyRule::StorageBalance(storage)
        });
    }

    /// The rules that the model lays down for an hour of the year, each of
    /// them once.
    pub fn hourly_rules(&self, hour: usize) -> (rules: Vec<HourlyRule>)
        ensures
            forall|i: int| 0 <= i < rules@.len() ==> self.holds(hour as int, #[trigger] rules@[i]),
            forall|rule: HourlyRule|
                self.holds(hour as int, rule) ==> exists|i: int|
                    0 <= i < rules@.len() && #[trigger] rules@[i] == rule,
            forall|i: int, j: int|
                0 <= i < j < rules@.len() ==> #[trigger] rules@[i] != #[trigger] rules@[j],
    {
        let mut rules: Vec<HourlyRule> = Vec::new();
        rules.push(HourlyRule::EnergyBalance);
        rules.push(HourlyRule::Overproduction);
        rules.push(HourlyRule::PvLimit);
        rules.push(HourlyRule::GridLimit);
        rules.push(HourlyRule::HeatPumpDemand);
        rules.push(HourlyRule::HeatPumpLimit);
        assert(rules@[0] == HourlyRule::EnergyBalance && rules@[1] == HourlyRule::Overproduction
            && rules@[2] == HourlyRule::PvLimit && rules@[3] == HourlyRule::GridLimit && rules@[4]
            == HourlyRule::HeatPumpDemand && rules@[5] == HourlyRule::HeatPumpLimit);
        if !self.car_may_charge(hour) {
            rules.push(HourlyRule::CarRests);
            assert(rules@[6] == HourlyRule::CarRests);
        }
        let ghost fixed = rules@;
        self.add_storage_rules(Storage::Battery, hour, &mut rules);
        let ghost with_battery = rules@;
        self.add_storage_rules(Storage::HotWater, hour, &mut rules);
        proof {
            assert forall|rule: HourlyRule| self.holds(hour as int, rule) implies exists|i: int|
                0 <= i < rules@.len() && #[trigger] rules@[i] == rule by {
                match rule {
                    HourlyRule::EnergyBalance => {
                        assert(rules@[0] == rule);
                    },
                    HourlyRule::Overproduction => {
                        assert(rules@[1] == rule);
                    },
                    HourlyRule::PvLimit => {
                        assert(rules@[2] == rule);
                    },
                    HourlyRule::GridLimit => {
                        assert(rules@[3] == rule);
                    },
                    HourlyRule::HeatPumpDemand => {
                        assert(rules@[4] == rule);
                    },
                    HourlyRule::HeatPumpLimit => {
                        assert(rules@[5] == rule);
                    },
                    HourlyRule::CarRests => {
                        assert(rules@[6] == rule);
                    },
                    HourlyRule::StorageLimit(storage)
                    | HourlyRule::ChargeLimit(storage)
                    | HourlyRule::DischargeLimit(storage)
                    | HourlyRule::StorageBalance(storage)
                    | HourlyRule::StorageEmpty(storage) => {
                        if storage == Storage::Battery {
                            let i = choose|i: int|
                                0 <= i < with_battery.len() && with_battery[i] == rule;
                            assert(rules@[i] == rule);
                        } else {
                            let i = choose|i: int| 0 <= i < rules@.len() && rules@[i] == rule;
                            assert(rules@[i] == rule);
                        }
                    },
                }
            }
        }
        rules
    }

    /// Whether the model has variables for `flow`: those of the battery and
    /// of the hot-water storage exist only with their subsystem, all others
    /// always.
    pub open spec fn has(self, flow: Flow) -> bool {
        match flow {
            Flow::BatteryIn | Flow::BatteryOut | Flow::BatteryLevel => self.battery,
            Flow::HotWaterIn | Flow::HotWaterOut | Flow::HotWaterLevel => self.hot_water,
            _ => true,
        }
    }

    /// Whether `flow` stands in the hourly energy balance: it has a side
    /// there, and its subsystem is enabled.
    pub open spec fn in_balance(self, flow: Flow) -> bool {
        &&& flow.side() is Some
        &&& match flow {
            Flow::BatteryIn | Flow::BatteryOut => self.battery,
            Flow::HotWaterIn | Flow::HotWaterOut => self.hot_water,
            Flow::HeatPump => self.heat_pump,
            Flow::CarCharge => self.electric_car is Some,
            _ => true,
        }
    }

    /// Whether the car may charge in the hour `hour` of the year: there is
    /// a car, and the hour lies in its window.
    pub open spec fn may_charge(self, hour: int) -> bool {
        match self.electric_car {
            None => false,
            Some(ChargingWindow::Day) => in_day_window(hour),
            Some(ChargingWindow::Night) => !in_day_window(hour),
        }
    }

    /// The number of flows that one hour has variables for.
    pub open spec fn flows(self) -> int {
        5 + if self.battery {
            3int
        } else {
            0
        } + if self.hot_water {
            3int
        } else {
            0
        }
    }

    /// The number of capacities that the model has variables for.
    pub open spec fn capacities(self) -> int {
        3 + if self.battery {
            1int
        } else {
            0
        } + if self.hot_water {
            1int
        } else {
            0
        }
    }

    /// The number of flows before `flow` among those of one hour.
    pub open spec fn offset(self, flow: Flow) -> int {
        if flow.rank() < 8 || self.battery {
            flow.rank()
        } else {
            flow.rank() - 3
        }
    }

    /// Whether the model has a variable for `capacity`.
    pub open spec fn sizes(self, capacity: Capacity) -> bool {
        match capacity {
            Capacity::Battery => self.battery,
            Capacity::HotWater => self.hot_water,
            _ => true,
        }
    }

    /// The place of the variable for `capacity` in the list of variables.
    pub open spec fn capacity_place(self, capacity: Capacity) -> int {
        match capacity {
            Capacity::Pv => 0,
            Capacity::Grid => 1,
            Capacity::HeatPump => 2,
            Capacity::Battery => 3,
            Capacity::HotWater => if self.battery {
                4
            } else {
                3
            },
        }
    }

    /// The place of the variable for `flow` in hour `hour` in the list of
    /// variables: the capacities stand first, then hour after hour the
    /// flows of each.
    pub open spec fn flow_place(self, flow: Flow, hour: int) -> int {
        self.capacities() + hour * self.flows() + self.offset(flow)
    }

    /// The number of variables of the model.
    pub open spec fn variables(self) -> int {
        self.capacities() + HOURS_PER_YEAR * self.flows()
    }

    /// Whether the model has variables for `flow`.
    pub fn has_flow(&self, flow: Flow) -> (r: bool)
        ensures
            r == self.has(flow),
    {
        match flow {
            Flow::BatteryIn | Flow::BatteryOut | Flow::BatteryLevel => self.battery,
            Flow::HotWaterIn | Flow::HotWaterOut | Flow::HotWaterLevel => self.hot_water,
            _ => true,
        }
    }

    /// Whether the model has a variable for `capacity`.
    pub fn has_capacity(&self, capacity: Capacity) -> (r: bool)
        ensures
            r == self.sizes(capacity),
    {
        match capacity {
            Capacity::Battery => self.battery,
            Capacity::HotWater => self.hot_water,
            _ => true,
        }
    }

    /// The flows of the hourly energy balance, each with its side. The
    /// flows of a subsystem that is disabled are left out.
    pub fn balance_terms(&self) -> (terms: Vec<(Flow, Side)>)
        ensures
            forall|i: int|
                0 <= i < terms@.len() ==> self.in_balance((#[trigger] terms@[i]).0) && Some(
                    terms@[i].1,
                ) == terms@[i].0.side(),
            forall|flow: Flow|
                self.in_balance(flow) ==> exists|i: int|
                    0 <= i < terms@.len() && (#[trigger] terms@[i]).0 == flow,
            forall|i: int, j: int|
                0 <= i < j < terms@.len() ==> (#[trigger] terms@[i]).0 != (#[trigger] terms@[j]).0,
    {
        let mut terms: Vec<(Flow, Side)> = Vec::new();
        terms.push((Flow::PvUsed, Side::Supply));
        terms.push((Flow::Grid, Side::Supply));
        assert(terms@[0].0 == Flow::PvUsed && terms@[1].0 == Flow::Grid);
        if self.battery {
            let ghost before = terms@;
            terms.push((Flow::BatteryIn, Side::Consumption));
            terms.push((Flow::BatteryOut, Side::Supply));
            assert(terms@[2].0 == Flow::BatteryIn && terms@[3].0 == Flow::BatteryOut);
            assert(forall|i: int| 0 <= i < before.len() ==> terms@[i] == before[i]);
        }
        if self.electric_car.is_some() {
            let ghost before = terms@;
            terms.push((Flow::CarCharge, Side::Consumption));
            assert(terms@[before.len() as int].0 == Flow::CarCharge);
            assert(forall|i: int| 0 <= i < before.len() ==> terms@[i] == before[i]);
        }
        if self.heat_pump {
            let ghost before = terms@;
            terms.push((Flow::HeatPump, Side::Consumption));
            assert(terms@[before.len() as int].0 == Flow::HeatPump);
            assert(forall|i: int| 0 <= i < before.len() ==> terms@[i] == before[i]);
        }
        if self.hot_water {
            let ghost before = terms@;
            terms.push((Flow::HotWaterIn, Side::Consumption));
            terms.push((Flow::HotWaterOut, Side::Supply));
            assert(terms@[before.len() as int].0 == Flow::HotWaterIn);
            assert(terms@[before.len() as int + 1].0 == Flow::HotWaterOut);
            assert(forall|i: int| 0 <= i < before.len() ==> terms@[i] == before[i]);
        }
        terms
    }

    /// Whether the car may charge in an hour of the year. Where it may
    /// not, the model fixes its charging energy to nothing.
    pub fn car_may_charge(&self, hour: usize) -> (r: bool)
        ensures
            r == self.may_charge(hour as int),
    {
        match self.electric_car {
            None => false,
            Some(ChargingWindow::Day) => is_day_hour(hour),
            Some(ChargingWindow::Night) => !is_day_hour(hour),
        }
    }

    /// The number of flows that one hour has variables for.
    pub fn flows_per_hour(&self) -> (n: usize)
        ensures
            n == self.flows(),
    {
        let mut n: usize = 5;
        if self.battery {
            n += 3;
        }
        if self.hot_water {
            n += 3;
        }
        n
    }

    /// The number of capacities that the model has variables for.
    pub fn capacity_count(&self) -> (n: usize)
        ensures
            n == self.capacities(),
    {
        let mut n: usize = 3;
        if self.battery {
            n += 1;
        }
        if self.hot_water {
            n += 1;
        }
        n
    }

    /// The number of variables of the model.
    pub fn variable_count(&self) -> (n: usize)
        ensures
            n == self.variables(),
    {
        self.capacity_count() + HOURS_PER_YEAR * self.flows_per_hour()
    }

    /// The place of a capacity's variable in the list of variables; none
    /// for a capacity that the model does not size.
    pub fn capacity_index(&self, capacity: Capacity) -> (place: Option<usize>)
        ensures
            place is Some == self.sizes(capacity),
            place is Some ==> place->Some_0 == self.capacity_place(capacity),
    {
        match capacity {
            Capacity::Pv => Some(0),
            Capacity::Grid => Some(1),
            Capacity::HeatPump => Some(2),
            Capacity::Battery => if self.battery {
                Some(3)
            } else {
                None
            },
            Capacity::HotWater => if !self.hot_water {
                None
            } else if self.battery {
                Some(4)
            } else {
                Some(3)
            },
        }
    }

    /// The place of a flow's variable for one hour in the list of
    /// variables; none for a flow that the model has no variables for, and
    /// for an hour past the year.
    pub fn variable_index(&self, flow: Flow, hour: usize) -> (place: Option<usize>)
        ensures
            place is Some == (self.has(flow) && hour < HOURS_PER_YEAR),
            place is Some ==> place->Some_0 == self.flow_place(flow, hour as int),
    {
        if hour >= HOURS_PER_YEAR || !self.has_flow(flow) {
            return None;
        }
        let rank: usize = match flow {
            Flow::PvUsed => 0,
            Flow::Grid => 1,
            Flow::Overproduction => 2,
            Flow::CarCharge => 3,
            Flow::HeatPump => 4,
            Flow::BatteryIn => 5,
            Flow::BatteryOut => 6,
            Flow::BatteryLevel => 7,
            Flow::HotWaterIn => 8,
            Flow::HotWaterOut => 9,
            Flow::HotWaterLevel => 10,
        };
        let offset = if rank < 8 || self.battery {
            rank
        } else {
            rank - 3
        };
        let per_hour = self.flows_per_hour();
        assert(hour * per_hour <= 8759 * 11) by (nonlinear_arith)
            requires
                hour <= 8759,
                per_hour <= 11,
        ;
        Some(self.capacity_count() + hour * per_hour + offset)
    }
}

/// No two variables of the model share a place: the capacities stand
/// before all flows, and two flows stand at one place only if they are one
/// flow in one hour.
pub proof fn lemma_variables_have_places_of_their_own(
    subsystems: Subsystems,
    flow: Flow,
    hour: int,
    other_flow: Flow,
    other_hour: int,
    capacity: Capacity,
    other_capacity: Capacity,
)
    requires
        subsystems.has(flow),
        subsystems.has(other_flow),
        0 <= hour < HOURS_PER_YEAR,
        0 <= other_hour < HOURS_PER_YEAR,
        subsystems.sizes(capacity),
        subsystems.sizes(other_capacity),
    ensures
        0 <= subsystems.capacity_place(capacity) < subsystems.capacities(),
        subsystems.capacities() <= subsystems.flow_place(flow, hour) < subsystems.variables(),
        subsystems.capacity_place(capacity) == subsystems.capacity_place(other_capacity)
            ==> capacity == other_capacity,
        subsystems.flow_place(flow, hour) == subsystems.flow_place(other_flow, other_hour)
            ==> flow == other_flow && hour == other_hour,
{
    let n = subsystems.flows();
    let a = subsystems.offset(flow);
    let b = subsystems.offset(other_flow);
    assert(0 <= a < n && 0 <= b < n);
    assert(a == b ==> flow == other_flow);
    assert(hour * n + a < HOURS_PER_YEAR * n) by (nonlinear_arith)
        requires
            0 <= hour < HOURS_PER_YEAR,
            0 <= a < n,
    ;
    assert(hour * n >= 0) by (nonlinear_arith)
        requires
            0 <= hour,
            0 <= n,
    ;
    assert(hour * n + a == other_hour * n + b ==> hour == other_hour) by (nonlinear_arith)
        requires
            0 <= a < n,
            0 <= b < n,
    ;
}

/// Without a car no hour is an hour in which a car may charge: the model
/// fixes the charging energy of every hour to nothing.
pub proof fn lemma_no_car_never_charges(subsystems: Subsystems, hour: int)
    requires
        subsystems.electric_car is None,
    ensures
        !subsystems.may_charge(hour),
        !subsystems.in_balance(Flow::CarCharge),
{
}

/// The day window and the night window share no hour and leave none out: a
/// car that charges by day may charge exactly in the hours in which one
/// that charges by night may not.
pub proof fn lemma_windows_part_the_day(subsystems: Subsystems, hour: int)
    requires
        subsystems.electric_car is Some,
    ensures
        subsystems.may_charge(hour) != (Subsystems {
            electric_car: Some(
                match subsystems.electric_car->Some_0 {
                    ChargingWindow::Day => ChargingWindow::Night,
                    ChargingWindow::Night => ChargingWindow::Day,
                },
            ),
            ..subsystems
        }).may_charge(hour),
{
}

/// A flow stands in the energy balance only where the model has variables
/// for it, and a disabled subsystem adds no term to the balance.
pub proof fn lemma_balance_holds_enabled_flows_only(subsystems: Subsystems, flow: Flow)
    ensures
        subsystems.in_balance(flow) ==> subsystems.has(flow),
        !subsystems.battery ==> !subsystems.in_balance(Flow::BatteryIn) && !subsystems.in_balance(
            Flow::BatteryOut,
        ),
        !subsystems.hot_water ==> !subsystems.in_balance(Flow::HotWaterIn)
            && !subsystems.in_balance(Flow::HotWaterOut),
        !subsystems.heat_pump ==> !subsystems.in_balance(Flow::HeatPump),
        subsystems.in_balance(Flow::PvUsed) && subsystems.in_balance(Flow::Grid),
{
}

/// A storage that the model holds has variables for its level, for what it
/// takes up and for what it gives off, and a capacity that bounds it; in
/// every hour its level and both of its flows are bounded, in the first hour
/// it is empty, and in every later hour it follows its balance.
pub proof fn lemma_storage_is_ruled_in_every_hour(
    subsystems: Subsystems,
    storage: Storage,
    hour: int,
)
    requires
        subsystems.stores(storage),
        0 <= hour < HOURS_PER_YEAR,
    ensures
        subsystems.has(storage.level_flow()),
        subsystems.has(storage.input_flow()),
        subsystems.has(storage.output_flow()),
        subsystems.sizes(storage.bound()),
        subsystems.holds(hour, HourlyRule::StorageLimit(storage)),
        subsystems.holds(hour, HourlyRule::ChargeLimit(storage)),
        subsystems.holds(hour, HourlyRule::DischargeLimit(storage)),
        subsystems.holds(hour, HourlyRule::StorageEmpty(storage)) <==> hour == 0,
        subsystems.holds(hour, HourlyRule::StorageBalance(storage)) <==> hour >= 1,
{
}

/// Without a car the car rests in every hour; with a car it rests in half
/// of the hours of each day, those outside its window.
pub proof fn lemma_car_rests_outside_its_window(subsystems: Subsystems, hour: int)
    ensures
        subsystems.electric_car is None ==> subsystems.holds(hour, HourlyRule::CarRests),
        subsystems.electric_car == Some(ChargingWindow::Day) ==> (subsystems.holds(
            hour,
            HourlyRule::CarRests,
        ) <==> !in_day_window(hour)),
        subsystems.electric_car == Some(ChargingWindow::Night) ==> (subsystems.holds(
            hour,
            HourlyRule::CarRests,
        ) <==> in_day_window(hour)),
{
}

/// What the battery of a fixed system does in an hour whose production
/// compares with its demand as `balance` says: it takes up a surplus, it
/// covers a shortfall as long as it holds charge, and it rests otherwise.
pub open spec fn battery_policy(balance: Balance, holds_charge: bool) -> BatteryAction {
    match balance {
        Balance::Surplus => BatteryAction::Charge,
        Balance::Shortfall => if holds_charge {
            BatteryAction::Discharge
        } else {
            BatteryAction::Rest
        },
        Balance::Even => BatteryAction::Rest,
    }
}

/// Decides what the battery does in one hour.
pub fn battery_action(balance: Balance, holds_charge: bool) -> (action: BatteryAction)
    ensures
        action == battery_policy(balance, holds_charge),
{
    match balance {
        Balance::Surplus => BatteryAction::Charge,
        Balance::Shortfall => if holds_charge {
            BatteryAction::Discharge
        } else {
            BatteryAction::Rest
        },
        Balance::Even => BatteryAction::Rest,
    }
}

} // verus!
