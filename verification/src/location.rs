//! Where a site is: its country and its postal address.

use vstd::prelude::*;

verus! {

/// Supported countries for the EMS system
#[derive(Debug, Clone, Copy, PartialEq, Eq, Hash, Structural)]
pub enum Country {
    Germany,
    Spain,
    Portugal,
}

impl Country {
    /// The ISO 3166-1 alpha-2 code of the country, as text.
    pub open spec fn code_text(self) -> Seq<char> {
        match self {
            Country::Germany => "DE"@,
            Country::Spain => "ES"@,
            Country::Portugal => "PT"@,
        }
    }

    /// The English name of the country, as text.
    pub open spec fn name_text(self) -> Seq<char> {
        match self {
            Country::Germany => "Germany"@,
            Country::Spain => "Spain"@,
            Country::Portugal => "Portugal"@,
        }
    }

    /// The name of the country in its own language, as text.
    pub open spec fn local_name_text(self) -> Seq<char> {
        match self {
            Country::Germany => "Deutschland"@,
            Country::Spain => "Espa\u{f1}a"@,
            Country::Portugal => "Portugal"@,
        }
    }

    /// Get the ISO 3166-1 alpha-2 country code
    pub fn code(&self) -> (r: &'static str)
        ensures
            r@ == self.code_text(),
    {
        match self {
            Country::Germany => "DE",
            Country::Spain => "ES",
            Country::Portugal => "PT",
        }
    }

    /// Get the country name in English
    pub fn name(&self) -> (r: &'static str)
        ensures
            r@ == self.name_text(),
    {
        match self {
            Country::Germany => "Germany",
            Country::Spain => "Spain",
            Country::Portugal => "Portugal",
        }
    }

    /// Get the local name of the country
    pub fn local_name(&self) -> (r: &'static str)
        ensures
            r@ == self.local_name_text(),
    {
        match self {
            Country::Germany => "Deutschland",
            Country::Spain => "Espa\u{f1}a",
            Country::Portugal => "Portugal",
        }
    }
}

/// Address information for a location
#[derive(Debug, Clone, PartialEq, Eq)]
pub struct Address {
    /// Street name and number
    pub street: String,
    /// City or municipality
    pub city: String,
    /// State, province, or region
    pub region: Option<String>,
    /// Postal code
    pub postal_code: String,
    /// Additional address information
    pub additional_info: Option<String>,
}

/// `part` with the separator of an address line before it; nothing for a
/// part that is absent.
pub open spec fn optional_part(part: Option<String>) -> Seq<char> {
    match part {
        Some(text) => ", "@ + text@,
        None => Seq::empty(),
    }
}

impl Address {
    /// The address on one line: street, city, region if there is one,
    /// postal code and additional information if there is any, with a comma
    /// and a space between them.
    pub open spec fn formatted_text(self) -> Seq<char> {
        self.street@ + ", "@ + self.city@ + optional_part(self.region) + ", "@
            + self.postal_code@ + optional_part(self.additional_info)
    }

    /// Create a new address
    pub fn new(
        street: String,
        city: String,
        region: Option<String>,
        postal_code: String,
        additional_info: Option<String>,
    ) -> (address: Self)
        ensures
            address.street == street,
            address.city == city,
            address.region == region,
            address.postal_code == postal_code,
            address.additional_info == additional_info,
    {
        Address { street, city, region, postal_code, additional_info }
    }

    /// Get formatted address string
    pub fn formatted(&self) -> (line: String)
        ensures
            line@ == self.formatted_text(),
    {
        let mut line = self.street.clone();
        line.append(", ");
        line.append(self.city.as_str());
        if let Some(region) = &self.region {
            line.append(", ");
            line.append(region.as_str());
        }
        line.append(", ");
        line.append(self.postal_code.as_str());
        if let Some(additional) = &self.additional_info {
            line.append(", ");
            line.append(additional.as_str());
        }
        proof {
            assert(line@ =~= self.formatted_text());
        }
        line
    }
}

} // verus!
