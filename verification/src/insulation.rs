//! How a building is classed when its heating need is looked up: by its
//! type and by the period in which it was built.

use vstd::prelude::*;

verus! {

/// The building classes for which hourly heat-demand profiles exist.
#[derive(Debug, Clone, Copy, PartialEq, Eq, Hash, Structural)]
pub enum HeatProfileClass {
    /// Single family homes
    SingleFamilyHome,
    /// Multi family homes
    MultiFamilyHome,
}

impl HeatProfileClass {
    /// The short name of the class, as text.
    pub open spec fn code_text(self) -> Seq<char> {
        match self {
            HeatProfileClass::SingleFamilyHome => "SFH"@,
            HeatProfileClass::MultiFamilyHome => "MFH"@,
        }
    }

    /// The name of the table column that holds the class's space heat
    /// demand, as text.
    pub open spec fn column_text(self) -> Seq<char> {
        match self {
            HeatProfileClass::SingleFamilyHome => "ES_heat_demand_space_SFH"@,
            HeatProfileClass::MultiFamilyHome => "ES_heat_demand_space_MFH"@,
        }
    }

    /// The short name of the class: `SFH` or `MFH`.
    pub fn code(&self) -> (r: &'static str)
        ensures
            r@ == self.code_text(),
    {
        match self {
            HeatProfileClass::SingleFamilyHome => "SFH",
            HeatProfileClass::MultiFamilyHome => "MFH",
        }
    }

    /// The name of the table column that holds the class's space heat
    /// demand.
    pub fn column(&self) -> (r: &'static str)
        ensures
            r@ == self.column_text(),
    {
        match self {
            HeatProfileClass::SingleFamilyHome => "ES_heat_demand_space_SFH",
            HeatProfileClass::MultiFamilyHome => "ES_heat_demand_space_MFH",
        }
    }
}

/// The type of a building.
#[derive(Debug, Clone, Copy, PartialEq, Eq, Hash, Structural)]
pub enum BuildingTypeEnum {
    SingleFamily,
    Terraced,
    MultiFamily,
    Apartment,
}

impl BuildingTypeEnum {
    /// Detached and terraced houses follow the profile of single family
    /// homes, the others that of multi family homes.
    pub open spec fn profile_class(self) -> HeatProfileClass {
        match self {
            BuildingTypeEnum::SingleFamily | BuildingTypeEnum::Terraced => {
                HeatProfileClass::SingleFamilyHome
            },
            BuildingTypeEnum::MultiFamily | BuildingTypeEnum::Apartment => {
                HeatProfileClass::MultiFamilyHome
            },
        }
    }

    /// The heat-demand profile that a building of this type follows.
    pub fn heat_profile_class(&self) -> (class: HeatProfileClass)
        ensures
            class == self.profile_class(),
    {
        match self {
            BuildingTypeEnum::SingleFamily | BuildingTypeEnum::Terraced => {
                HeatProfileClass::SingleFamilyHome
            },
            BuildingTypeEnum::MultiFamily | BuildingTypeEnum::Apartment => {
                HeatProfileClass::MultiFamilyHome
            },
        }
    }
}

/// The period in which a building was built.
#[derive(Debug, Clone, Copy, PartialEq, Eq, Hash, Structural)]
pub enum YearCategoryESEnum {
    Before1900,
    Between1901and1936,
    Between1937and1959,
    Between1960and1979,
    Between1980and2006,
    After2007,
}

/// Heating need of a building in tenths of a kWh per square metre and year,
/// for each of the three insulation standards.
#[derive(Debug, Clone, Copy, PartialEq, Eq, Structural)]
pub struct HeatingNeed {
    pub national_minimum_requirement: u16,
    pub improved_standard: u16,
    pub ambitious_standard: u16,
}

impl HeatingNeed {
    /// The need under each of the three standards, in tenths of a kWh per
    /// square metre and year.
    pub fn new(national_minimum_requirement: u16, improved_standard: u16, ambitious_standard: u16) -> (need:
        Self)
        ensures
            need == (HeatingNeed {
                national_minimum_requirement,
                improved_standard,
                ambitious_standard,
            }),
    {
        Self { national_minimum_requirement, improved_standard, ambitious_standard }
    }

    /// The need under `standard`.
    pub open spec fn under(self, standard: InsulationStandard) -> u16 {
        match standard {
            InsulationStandard::NationalMinimumRequirement => self.national_minimum_requirement,
            InsulationStandard::ImprovedStandard => self.improved_standard,
            InsulationStandard::AmbitiousStandard => self.ambitious_standard,
        }
    }

    /// The need under an insulation standard.
    pub fn for_standard(&self, standard: InsulationStandard) -> (tenths: u16)
        ensures
            tenths == self.under(standard),
    {
        match standard {
            InsulationStandard::NationalMinimumRequirement => self.national_minimum_requirement,
            InsulationStandard::ImprovedStandard => self.improved_standard,
            InsulationStandard::AmbitiousStandard => self.ambitious_standard,
        }
    }
}

/// The heating need of each type of building.
#[derive(Debug, Clone, Copy, PartialEq, Eq)]
pub struct BuildingTypeMapping {
    single_family: Option<HeatingNeed>,
    terraced: Option<HeatingNeed>,
    multi_family: Option<HeatingNeed>,
    apartment: Option<HeatingNeed>,
}

impl BuildingTypeMapping {
    /// The need that the mapping holds for `building_type`, if any.
    pub closed spec fn need_of(self, building_type: BuildingTypeEnum) -> Option<HeatingNeed> {
        match building_type {
            BuildingTypeEnum::SingleFamily => self.single_family,
            BuildingTypeEnum::Terraced => self.terraced,
            BuildingTypeEnum::MultiFamily => self.multi_family,
            BuildingTypeEnum::Apartment => self.apartment,
        }
    }

    /// A mapping that holds no need.
    pub fn new() -> (mapping: Self)
        ensures
            forall|building_type: BuildingTypeEnum| mapping.need_of(building_type) is None,
    {
        Self { single_family: None, terraced: None, multi_family: None, apartment: None }
    }

    /// The need of a type of building, if the mapping holds one.
    pub fn get(&self, building_type: BuildingTypeEnum) -> (r: Option<&HeatingNeed>)
        ensures
            r is Some == self.need_of(building_type) is Some,
            r is Some ==> *r->Some_0 == self.need_of(building_type)->Some_0,
    {
        match building_type {
            BuildingTypeEnum::SingleFamily => self.single_family.as_ref(),
            BuildingTypeEnum::Terraced => self.terraced.as_ref(),
            BuildingTypeEnum::MultiFamily => self.multi_family.as_ref(),
            BuildingTypeEnum::Apartment => self.apartment.as_ref(),
        }
    }

    /// Sets the need of a type of building, in place of the one it had.
    pub fn insert(&mut self, building_type: BuildingTypeEnum, heating_need: HeatingNeed)
        ensures
            final(self).need_of(building_type) == Some(heating_need),
            forall|other: BuildingTypeEnum|
                other != building_type ==> final(self).need_of(other) == old(self).need_of(other),
    {
        match building_type {
            BuildingTypeEnum::SingleFamily => self.single_family = Some(heating_need),
            BuildingTypeEnum::Terraced => self.terraced = Some(heating_need),
            BuildingTypeEnum::MultiFamily => self.multi_family = Some(heating_need),
            BuildingTypeEnum::Apartment => self.apartment = Some(heating_need),
        }
    }

    /// A mapping that holds a need for each of the four types.
    fn of(
        single_family: HeatingNeed,
        terraced: HeatingNeed,
        multi_family: HeatingNeed,
        apartment: HeatingNeed,
    ) -> (mapping: Self)
        ensures
            mapping.need_of(BuildingTypeEnum::SingleFamily) == Some(single_family),
            mapping.need_of(BuildingTypeEnum::Terraced) == Some(terraced),
            mapping.need_of(BuildingTypeEnum::MultiFamily) == Some(multi_family),
            mapping.need_of(BuildingTypeEnum::Apartment) == Some(apartment),
    {
        let mut mapping = BuildingTypeMapping::new();
        mapping.insert(BuildingTypeEnum::SingleFamily, single_family);
        mapping.insert(BuildingTypeEnum::Terraced, terraced);
        mapping.insert(BuildingTypeEnum::MultiFamily, multi_family);
        mapping.insert(BuildingTypeEnum::Apartment, apartment);
        mapping
    }
}

/// The heating needs of Spanish buildings by the period in which they were
/// built.
#[derive(Debug, Clone, Copy, PartialEq, Eq)]
pub struct YearCategoryESMapping {
    before_1900: Option<BuildingTypeMapping>,
    between_1901_and_1936: Option<BuildingTypeMapping>,
    between_1937_and_1959: Option<BuildingTypeMapping>,
    between_1960_and_1979: Option<BuildingTypeMapping>,
    between_1980_and_2006: Option<BuildingTypeMapping>,
    after_2007: Option<BuildingTypeMapping>,
}

/// The tabulated heating need, in tenths of a kWh per square metre and year,
/// of a Spanish building of the given period and type.
pub open spec fn tabulated_need(
    year_category: YearCategoryESEnum,
    building_type: BuildingTypeEnum,
) -> HeatingNeed {
    let (minimum, improved, ambitious): (u16, u16, u16) = match (year_category, building_type) {
        (YearCategoryESEnum::Before1900, BuildingTypeEnum::SingleFamily) => (106, 107, 110),
        (YearCategoryESEnum::Before1900, BuildingTypeEnum::Terraced) => (71, 40, 34),
        (YearCategoryESEnum::Before1900, BuildingTypeEnum::MultiFamily) => (118, 61, 61),
        (YearCategoryESEnum::Before1900, BuildingTypeEnum::Apartment) => (78, 59, 56),
        (YearCategoryESEnum::Between1901and1936, BuildingTypeEnum::SingleFamily) => (148, 80, 71),
        (YearCategoryESEnum::Between1901and1936, BuildingTypeEnum::Terraced) => (179, 117, 115),
        (YearCategoryESEnum::Between1901and1936, BuildingTypeEnum::MultiFamily) => (77, 49, 56),
        (YearCategoryESEnum::Between1901and1936, BuildingTypeEnum::Apartment) => (85, 45, 61),
        (YearCategoryESEnum::Between1937and1959, BuildingTypeEnum::SingleFamily) => (81, 41, 34),
        (YearCategoryESEnum::Between1937and1959, BuildingTypeEnum::Terraced) => (207, 152, 152),
        (YearCategoryESEnum::Between1937and1959, BuildingTypeEnum::MultiFamily) => (113, 55, 51),
        (YearCategoryESEnum::Between1937and1959, BuildingTypeEnum::Apartment) => (74, 36, 31),
        (YearCategoryESEnum::Between1960and1979, BuildingTypeEnum::SingleFamily) => (124, 102, 91),
        (YearCategoryESEnum::Between1960and1979, BuildingTypeEnum::Terraced) => (76, 50, 66),
        (YearCategoryESEnum::Between1960and1979, BuildingTypeEnum::MultiFamily) => (98, 63, 60),
        (YearCategoryESEnum::Between1960and1979, BuildingTypeEnum::Apartment) => (43, 23, 23),
        (YearCategoryESEnum::Between1980and2006, BuildingTypeEnum::SingleFamily) => (58, 47, 57),
        (YearCategoryESEnum::Between1980and2006, BuildingTypeEnum::Terraced) => (58, 54, 67),
        (YearCategoryESEnum::Between1980and2006, BuildingTypeEnum::MultiFamily) => (39, 33, 28),
        (YearCategoryESEnum::Between1980and2006, BuildingTypeEnum::Apartment) => (23, 19, 35),
        (YearCategoryESEnum::After2007, BuildingTypeEnum::SingleFamily) => (64, 29, 24),
        (YearCategoryESEnum::After2007, BuildingTypeEnum::Terraced) => (25, 22, 19),
        (YearCategoryESEnum::After2007, BuildingTypeEnum::MultiFamily) => (35, 19, 15),
        (YearCategoryESEnum::After2007, BuildingTypeEnum::Apartment) => (24, 15, 12),
    };
    HeatingNeed {
        national_minimum_requirement: minimum,
        improved_standard: improved,
        ambitious_standard: ambitious,
    }
}

impl YearCategoryESMapping {
    /// The needs that the mapping holds for the buildings of a period, if
    /// any.
    pub closed spec fn needs_of(self, year_category: YearCategoryESEnum) -> Option<
        BuildingTypeMapping,
    > {
        match year_category {
            YearCategoryESEnum::Before1900 => self.before_1900,
            YearCategoryESEnum::Between1901and1936 => self.between_1901_and_1936,
            YearCategoryESEnum::Between1937and1959 => self.between_1937_and_1959,
            YearCategoryESEnum::Between1960and1979 => self.between_1960_and_1979,
            YearCategoryESEnum::Between1980and2006 => self.between_1980_and_2006,
            YearCategoryESEnum::After2007 => self.after_2007,
        }
    }

    /// The need that the mapping holds for a building of the given period
    /// and type, if any.
    pub open spec fn need_of(
        self,
        year_category: YearCategoryESEnum,
        building_type: BuildingTypeEnum,
    ) -> Option<HeatingNeed> {
        match self.needs_of(year_category) {
            Some(mapping) => mapping.need_of(building_type),
            None => None,
        }
    }

    /// A mapping that holds nothing.
    pub fn new() -> (mapping: Self)
        ensures
            forall|year_category: YearCategoryESEnum| mapping.needs_of(year_category) is None,
    {
        Self {
            before_1900: None,
            between_1901_and_1936: None,
            between_1937_and_1959: None,
            between_1960_and_1979: None,
            between_1980_and_2006: None,
            after_2007: None,
        }
    }

    /// The needs of the buildings of a period, if the mapping holds them.
    pub fn get(&self, year_category: YearCategoryESEnum) -> (r: Option<&BuildingTypeMapping>)
        ensures
            r is Some == self.needs_of(year_category) is Some,
            r is Some ==> *r->Some_0 == self.needs_of(year_category)->Some_0,
    {
        match year_category {
            YearCategoryESEnum::Before1900 => self.before_1900.as_ref(),
            YearCategoryESEnum::Between1901and1936 => self.between_1901_and_1936.as_ref(),
            YearCategoryESEnum::Between1937and1959 => self.between_1937_and_1959.as_ref(),
            YearCategoryESEnum::Between1960and1979 => self.between_1960_and_1979.as_ref(),
            YearCategoryESEnum::Between1980and2006 => self.between_1980_and_2006.as_ref(),
            YearCategoryESEnum::After2007 => self.after_2007.as_ref(),
        }
    }

    /// Sets the needs of the buildings of a period, in place of those it
    /// had.
    pub fn insert(
        &mut self,
        year_category: YearCategoryESEnum,
        building_type_mapping: BuildingTypeMapping,
    )
        ensures
            final(self).needs_of(year_category) == Some(building_type_mapping),
            forall|other: YearCategoryESEnum|
                other != year_category ==> final(self).needs_of(other) == old(self).needs_of(other),
    {
        match year_category {
            YearCategoryESEnum::Before1900 => self.before_1900 = Some(building_type_mapping),
            YearCategoryESEnum::Between1901and1936 => {
                self.between_1901_and_1936 = Some(building_type_mapping)
            },
            YearCategoryESEnum::Between1937and1959 => {
                self.between_1937_and_1959 = Some(building_type_mapping)
            },
            YearCategoryESEnum::Between1960and1979 => {
                self.between_1960_and_1979 = Some(building_type_mapping)
            },
            YearCategoryESEnum::Between1980and2006 => {
                self.between_1980_and_2006 = Some(building_type_mapping)
            },
            YearCategoryESEnum::After2007 => self.after_2007 = Some(building_type_mapping),
        }
    }
}

impl Default for YearCategoryESMapping {
    /// The tabulated needs of all periods and types.
    fn default() -> (mapping: Self)
        ensures
            forall|year_category: YearCategoryESEnum, building_type: BuildingTypeEnum|
                #[trigger] mapping.need_of(year_category, building_type) == Some(
                    tabulated_need(year_category, building_type),
                ),
    {
        let mut mapping = YearCategoryESMapping::new();
        mapping.insert(
            YearCategoryESEnum::Before1900,
            BuildingTypeMapping::of(
                HeatingNeed::new(106, 107, 110),
                HeatingNeed::new(71, 40, 34),
                HeatingNeed::new(118, 61, 61),
                HeatingNeed::new(78, 59, 56),
            ),
        );
        mapping.insert(
            YearCategoryESEnum::Between1901and1936,
            BuildingTypeMapping::of(
                HeatingNeed::new(148, 80, 71),
                HeatingNeed::new(179, 117, 115),
                HeatingNeed::new(77, 49, 56),
                HeatingNeed::new(85, 45, 61),
            ),
        );
        mapping.insert(
            YearCategoryESEnum::Between1937and1959,
            BuildingTypeMapping::of(
                HeatingNeed::new(81, 41, 34),
                HeatingNeed::new(207, 152, 152),
                HeatingNeed::new(113, 55, 51),
                HeatingNeed::new(74, 36, 31),
            ),
        );
        mapping.insert(
            YearCategoryESEnum::Between1960and1979,
            BuildingTypeMapping::of(
                HeatingNeed::new(124, 102, 91),
                HeatingNeed::new(76, 50, 66),
                HeatingNeed::new(98, 63, 60),
                HeatingNeed::new(43, 23, 23),
            ),
        );
        mapping.insert(
            YearCategoryESEnum::Between1980and2006,
            BuildingTypeMapping::of(
                HeatingNeed::new(58, 47, 57),
                HeatingNeed::new(58, 54, 67),
                HeatingNeed::new(39, 33, 28),
                HeatingNeed::new(23, 19, 35),
            ),
        );
        mapping.insert(
            YearCategoryESEnum::After2007,
            BuildingTypeMapping::of(
                HeatingNeed::new(64, 29, 24),
                HeatingNeed::new(25, 22, 19),
                HeatingNeed::new(35, 19, 15),
                HeatingNeed::new(24, 15, 12),
            ),
        );
        mapping
    }
}

/// The heating needs by country.
#[derive(Debug, Clone, Copy, PartialEq, Eq)]
pub struct YearCategory {
    /// Those of Spain
    pub es: YearCategoryESMapping,
}

/// The heating need, in tenths of a kWh per square metre and year, of a
/// Spanish building of the given type and period at the given level of
/// insulation.
pub fn annual_heating_need_tenths(
    building_type: BuildingTypeEnum,
    construction_period: YearCategoryESEnum,
    insulation_standard: InsulationLevel,
) -> (tenths: u16)
    ensures
        tenths == tabulated_need(construction_period, building_type).under(
            insulation_standard.standard(),
        ),
{
    let mapping = YearCategoryESMapping::default();
    assert(mapping.need_of(construction_period, building_type) is Some);
    let needs = mapping.get(construction_period).unwrap();
    let need = needs.get(building_type).unwrap();
    need.for_standard(insulation_standard.insulation_standard())
}

/// How well a building is insulated.
#[derive(Debug, Clone, Copy, PartialEq, Eq, Structural)]
pub enum InsulationLevel {
    Poor,
    Moderate,
    Good,
}

/// The three standards for which a heating need is tabulated.
#[derive(Debug, Clone, Copy, PartialEq, Eq, Structural)]
pub enum InsulationStandard {
    NationalMinimumRequirement,
    ImprovedStandard,
    AmbitiousStandard,
}

impl InsulationLevel {
    /// A poorly insulated building meets the national minimum, a moderately
    /// insulated one the improved standard, a well insulated one the
    /// ambitious standard.
    pub open spec fn standard(self) -> InsulationStandard {
        match self {
            InsulationLevel::Poor => InsulationStandard::NationalMinimumRequirement,
            InsulationLevel::Moderate => InsulationStandard::ImprovedStandard,
            InsulationLevel::Good => InsulationStandard::AmbitiousStandard,
        }
    }

    /// The standard whose heating need applies to this level.
    pub fn insulation_standard(&self) -> (standard: InsulationStandard)
        ensures
            standard == self.standard(),
    {
        match self {
            InsulationLevel::Poor => InsulationStandard::NationalMinimumRequirement,
            InsulationLevel::Moderate => InsulationStandard::ImprovedStandard,
            InsulationLevel::Good => InsulationStandard::AmbitiousStandard,
        }
    }
}

/// How the heat of a heat pump is given off.
#[derive(Debug, Clone, Copy, PartialEq, Eq, Structural)]
pub enum HeatingType {
    Floor,
    Radiator,
}

impl HeatingType {
    /// The name of the table column that holds the coefficient of
    /// performance for this heating type, as text.
    pub open spec fn cop_column_text(self) -> Seq<char> {
        match self {
            HeatingType::Floor => "ES_COP_ASHP_floor"@,
            HeatingType::Radiator => "ES_COP_ASHP_radiator"@,
        }
    }

    /// The name of the table column that holds the coefficient of
    /// performance for this heating type.
    pub fn cop_column(&self) -> (r: &'static str)
        ensures
            r@ == self.cop_column_text(),
    {
        match self {
            HeatingType::Floor => "ES_COP_ASHP_floor",
            HeatingType::Radiator => "ES_COP_ASHP_radiator",
        }
    }
}

impl Default for HeatingType {
    fn default() -> (r: Self)
        ensures
            r == HeatingType::Radiator,
    {
        HeatingType::Radiator
    }
}

} // verus!
