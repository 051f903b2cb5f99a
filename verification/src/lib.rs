//! The rules and records of an energy management system: electricity rate
//! tables, the calendar of a simulated year, the lines of the tables that
//! hourly series are read from, the shape of the hourly dispatch model and
//! its variables in the solver, heating needs of buildings, production-line
//! dependency graphs, worker schedules and site addresses.

pub mod calendar;
pub mod electricity;
pub mod factory;
pub mod insulation;
pub mod line;
pub mod location;
pub mod machine;
pub mod model;
pub mod table;
pub mod variables;
pub mod worker;
