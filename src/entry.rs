//! The statistical record of a district and the values derived from it.
//!
//! Every measured value is a fixed-point integer (`Option<i64>`): the scale
//! is chosen where the data is read in, and the library never changes it.
//! `None` means that the value was not computed for that scope.
use vstd::prelude::*;

verus! {

#[derive(Clone, Copy, Debug)]
pub struct InformationAccess {
    pub global: Option<i64>,
    pub global_region: Option<i64>,
    pub global_dept: Option<i64>,
    pub global_national: Option<i64>,
    pub monoparental_families_percent: Option<i64>,
    pub single_person_percent: Option<i64>,
    pub number_of_public_service_per_citizen: Option<i64>,
    pub number_of_public_services: Option<i64>,
}

impl InformationAccess {
    pub fn new(
        global: Option<i64>,
        global_region: Option<i64>,
        global_dept: Option<i64>,
        global_national: Option<i64>,
        monoparental_families_percent: Option<i64>,
        single_person_percent: Option<i64>,
        number_of_public_service_per_citizen: Option<i64>,
        number_of_public_services: Option<i64>,
    ) -> (r: Self)
        ensures
            r == (InformationAccess {
                global,
                global_region,
                global_dept,
                global_national,
                monoparental_families_percent,
                single_person_percent,
                number_of_public_service_per_citizen,
                number_of_public_services,
            }),
    {
        InformationAccess {
            global,
            global_region,
            global_dept,
            global_national,
            monoparental_families_percent,
            single_person_percent,
            number_of_public_service_per_citizen,
            number_of_public_services,
        }
    }
}

#[derive(Clone, Copy, Debug)]
pub struct NumericInterfacesAccess {
    pub global: Option<i64>,
    pub global_region: Option<i64>,
    pub global_dept: Option<i64>,
    pub global_national: Option<i64>,
    pub high_speed_internet_access_percent: Option<i64>,
    pub mobile_network_availability_percent: Option<i64>,
    pub percent_of_poor_people: Option<i64>,
    pub available_median_salary: Option<i64>,
}

impl NumericInterfacesAccess {
    pub fn new(
        global: Option<i64>,
        global_region: Option<i64>,
        global_dept: Option<i64>,
        global_national: Option<i64>,
        high_speed_internet_access_percent: Option<i64>,
        mobile_network_availability_percent: Option<i64>,
        percent_of_poor_people: Option<i64>,
        available_median_salary: Option<i64>,
    ) -> (r: Self)
        ensures
            r == (NumericInterfacesAccess {
                global,
                global_region,
                global_dept,
                global_national,
                high_speed_internet_access_percent,
                mobile_network_availability_percent,
                percent_of_poor_people,
                available_median_salary,
            }),
    {
        NumericInterfacesAccess {
            global,
            global_region,
            global_dept,
            global_national,
            high_speed_internet_access_percent,
            mobile_network_availability_percent,
            percent_of_poor_people,
            available_median_salary,
        }
    }
}

#[derive(Clone, Copy, Debug)]
pub struct AdministrativeCompetencies {
    pub global: Option<i64>,
    pub global_region: Option<i64>,
    pub global_dept: Option<i64>,
    pub global_national: Option<i64>,
    pub unemployed_percent: Option<i64>,
    pub _15_29_percent: Option<i64>,
}

impl AdministrativeCompetencies {
    pub fn new(
        global: Option<i64>,
        global_region: Option<i64>,
        global_dept: Option<i64>,
        global_national: Option<i64>,
        unemployed_percent: Option<i64>,
        _15_29_percent: Option<i64>,
    ) -> (r: Self)
        ensures
            r == (AdministrativeCompetencies {
                global,
                global_region,
                global_dept,
                global_national,
                unemployed_percent,
                _15_29_percent,
            }),
    {
        AdministrativeCompetencies {
            global,
            global_region,
            global_dept,
            global_national,
            unemployed_percent,
            _15_29_percent,
        }
    }
}

#[derive(Clone, Copy, Debug)]
pub struct NumericCompetencies {
    pub global: Option<i64>,
    pub global_region: Option<i64>,
    pub global_dept: Option<i64>,
    pub global_national: Option<i64>,
    pub percent_of_65_plus_people: Option<i64>,
    pub percent_of_people_without_grade: Option<i64>,
}

impl NumericCompetencies {
    pub fn new(
        global: Option<i64>,
        global_region: Option<i64>,
        global_dept: Option<i64>,
        global_national: Option<i64>,
        percent_of_65_plus_people: Option<i64>,
        percent_of_people_without_grade: Option<i64>,
    ) -> (r: Self)
        ensures
            r == (NumericCompetencies {
                global,
                global_region,
                global_dept,
                global_national,
                percent_of_65_plus_people,
                percent_of_people_without_grade,
            }),
    {
        NumericCompetencies {
            global,
            global_region,
            global_dept,
            global_national,
            percent_of_65_plus_people,
            percent_of_people_without_grade,
        }
    }
}

/// The record of one district, or a record synthesized for a larger unit.
#[derive(Clone, Debug)]
pub struct Entry {
    pub global: Option<i64>,
    pub global_region: Option<i64>,
    pub global_dept: Option<i64>,
    pub global_national: Option<i64>,
    pub iris_code: Option<String>,
    pub iris_code_designation: Option<String>,
    pub information_access: Option<InformationAccess>,
    pub numeric_interfaces_access: Option<NumericInterfacesAccess>,
    pub administrative_competencies: Option<AdministrativeCompetencies>,
    pub numeric_competencies: Option<NumericCompetencies>,
}

/// The record in which every value is absent.
pub open spec fn blank_entry() -> Entry {
    Entry {
        global: None,
        global_region: None,
        global_dept: None,
        global_national: None,
        iris_code: None,
        iris_code_designation: None,
        information_access: None,
        numeric_interfaces_access: None,
        administrative_competencies: None,
        numeric_competencies: None,
    }
}

/// The national-scope values of a record, moved to the record's own level.
pub open spec fn national_view(e: Entry) -> Entry {
    Entry {
        global: e.global_national,
        global_region: None,
        global_dept: None,
        global_national: None,
        iris_code: None,
        iris_code_designation: None,
        information_access: match e.information_access {
            Some(a) => Some(InformationAccess {
                global: a.global_national,
                global_region: None,
                global_dept: None,
                global_national: None,
                monoparental_families_percent: None,
                single_person_percent: None,
                number_of_public_service_per_citizen: None,
                number_of_public_services: None,
            }),
            None => None,
        },
        numeric_interfaces_access: match e.numeric_interfaces_access {
            Some(a) => Some(NumericInterfacesAccess {
                global: a.global_national,
                global_region: None,
                global_dept: None,
                global_national: None,
                high_speed_internet_access_percent: None,
                mobile_network_availability_percent: None,
                percent_of_poor_people: None,
                available_median_salary: None,
            }),
            None => None,
        },
        administrative_competencies: match e.administrative_competencies {
            Some(a) => Some(AdministrativeCompetencies {
                global: a.global_national,
                global_region: None,
                global_dept: None,
                global_national: None,
                unemployed_percent: None,
                _15_29_percent: None,
            }),
            None => None,
        },
        numeric_competencies: match e.numeric_competencies {
            Some(a) => Some(NumericCompetencies {
                global: a.global_national,
                global_region: None,
                global_dept: None,
                global_national: None,
                percent_of_65_plus_people: None,
                percent_of_people_without_grade: None,
            }),
            None => None,
        },
    }
}

/// The region-scope values of a record at its own level, the national ones
/// kept.
pub open spec fn regional_view(e: Entry) -> Entry {
    Entry {
        global: e.global_region,
        global_region: None,
        global_dept: None,
        global_national: e.global_national,
        iris_code: None,
        iris_code_designation: None,
        information_access: match e.information_access {
            Some(a) => Some(InformationAccess {
                global: a.global_region,
                global_region: None,
                global_dept: None,
                global_national: a.global_national,
                monoparental_families_percent: None,
                single_person_percent: None,
                number_of_public_service_per_citizen: None,
                number_of_public_services: None,
            }),
            None => None,
        },
        numeric_interfaces_access: match e.numeric_interfaces_access {
            Some(a) => Some(NumericInterfacesAccess {
                global: a.global_region,
                global_region: None,
                global_dept: None,
                global_national: a.global_national,
                high_speed_internet_access_percent: None,
                mobile_network_availability_percent: None,
                percent_of_poor_people: None,
                available_median_salary: None,
            }),
            None => None,
        },
        administrative_competencies: match e.administrative_competencies {
            Some(a) => Some(AdministrativeCompetencies {
                global: a.global_region,
                global_region: None,
                global_dept: None,
                global_national: a.global_national,
                unemployed_percent: None,
                _15_29_percent: None,
            }),
            None => None,
        },
        numeric_competencies: match e.numeric_competencies {
            Some(a) => Some(NumericCompetencies {
                global: a.global_region,
                global_region: None,
                global_dept: None,
                global_national: a.global_national,
                percent_of_65_plus_people: None,
                percent_of_people_without_grade: None,
            }),
            None => None,
        },
    }
}

/// The department-scope values of a record at its own level, the region and
/// national ones kept.
pub open spec fn departmental_view(e: Entry) -> Entry {
    Entry {
        global: e.global_dept,
        global_region: e.global_region,
        global_dept: None,
        global_national: e.global_national,
        iris_code: None,
        iris_code_designation: None,
        information_access: match e.information_access {
            Some(a) => Some(InformationAccess {
                global: a.global_dept,
                global_region: a.global_region,
                global_dept: None,
                global_national: a.global_national,
                monoparental_families_percent: None,
                single_person_percent: None,
                number_of_public_service_per_citizen: None,
                number_of_public_services: None,
            }),
            None => None,
        },
        numeric_interfaces_access: match e.numeric_interfaces_access {
            Some(a) => Some(NumericInterfacesAccess {
                global: a.global_dept,
                global_region: a.global_region,
                global_dept: None,
                global_national: a.global_national,
                high_speed_internet_access_percent: None,
                mobile_network_availability_percent: None,
                percent_of_poor_people: None,
                available_median_salary: None,
            }),
            None => None,
        },
        administrative_competencies: match e.administrative_competencies {
            Some(a) => Some(AdministrativeCompetencies {
                global: a.global_dept,
                global_region: a.global_region,
                global_dept: None,
                global_national: a.global_national,
                unemployed_percent: None,
                _15_29_percent: None,
            }),
            None => None,
        },
        numeric_competencies: match e.numeric_competencies {
            Some(a) => Some(NumericCompetencies {
                global: a.global_dept,
                global_region: a.global_region,
                global_dept: None,
                global_national: a.global_national,
                percent_of_65_plus_people: None,
                percent_of_people_without_grade: None,
            }),
            None => None,
        },
    }
}

fn copy_text(t: &Option<String>) -> (r: Option<String>)
    ensures
        r == *t,
{
    match t {
        Some(s) => Some(s.clone()),
        None => None,
    }
}

impl Entry {
    pub fn new(
        global: Option<i64>,
        global_region: Option<i64>,
        global_dept: Option<i64>,
        global_national: Option<i64>,
        iris_code: Option<String>,
        iris_code_designation: Option<String>,
        information_access: Option<InformationAccess>,
        numeric_interfaces_access: Option<NumericInterfacesAccess>,
        administrative_competencies: Option<AdministrativeCompetencies>,
        numeric_competencies: Option<NumericCompetencies>,
    ) -> (r: Self)
        ensures
            r == (Entry {
                global,
                global_region,
                global_dept,
                global_national,
                iris_code,
                iris_code_designation,
                information_access,
                numeric_interfaces_access,
                administrative_competencies,
                numeric_competencies,
            }),
    {
        Entry {
            global,
            global_region,
            global_dept,
            global_national,
            iris_code,
            iris_code_designation,
            information_access,
            numeric_interfaces_access,
            administrative_competencies,
            numeric_competencies,
        }
    }

    /// The record in which every value is absent.
    pub fn blank() -> (r: Self)
        ensures
            r == blank_entry(),
    {
        Entry::new(None, None, None, None, None, None, None, None, None, None)
    }

    /// An exact copy.
    pub fn duplicate(&self) -> (r: Self)
        ensures
            r == *self,
    {
        Entry {
            global: self.global,
            global_region: self.global_region,
            global_dept: self.global_dept,
            global_national: self.global_national,
            iris_code: copy_text(&self.iris_code),
            iris_code_designation: copy_text(&self.iris_code_designation),
            information_access: self.information_access,
            numeric_interfaces_access: self.numeric_interfaces_access,
            administrative_competencies: self.administrative_competencies,
            numeric_competencies: self.numeric_competencies,
        }
    }

    /// The national-scope values of this record.
    pub fn national(&self) -> (r: Self)
        ensures
            r == national_view(*self),
    {
        Entry {
            global: self.global_national,
            global_region: None,
            global_dept: None,
            global_national: None,
            iris_code: None,
            iris_code_designation: None,
            information_access: match self.information_access {
                Some(a) => Some(
                    InformationAccess::new(a.global_national, None, None, None, None, None, None, None),
                ),
                None => None,
            },
            numeric_interfaces_access: match self.numeric_interfaces_access {
                Some(a) => Some(
                    NumericInterfacesAccess::new(
                        a.global_national,
                        None,
                        None,
                        None,
                        None,
                        None,
                        None,
                        None,
                    ),
                ),
                None => None,
            },
            administrative_competencies: match self.administrative_competencies {
                Some(a) => Some(
                    AdministrativeCompetencies::new(a.global_national, None, None, None, None, None),
                ),
                None => None,
            },
            numeric_competencies: match self.numeric_competencies {
                Some(a) => Some(
                    NumericCompetencies::new(a.global_national, None, None, None, None, None),
                ),
                None => None,
            },
        }
    }

    /// The region-scope values of this record.
    pub fn regional(&self) -> (r: Self)
        ensures
            r == regional_view(*self),
    {
        Entry {
            global: self.global_region,
            global_region: None,
            global_dept: None,
            global_national: self.global_national,
            iris_code: None,
            iris_code_designation: None,
            information_access: match self.information_access {
                Some(a) => Some(
                    InformationAccess::new(
                        a.global_region,
                        None,
                        None,
                        a.global_national,
                        None,
                        None,
                        None,
                        None,
                    ),
                ),
                None => None,
            },
            numeric_interfaces_access: match self.numeric_interfaces_access {
                Some(a) => Some(
                    NumericInterfacesAccess::new(
                        a.global_region,
                        None,
                        None,
                        a.global_national,
                        None,
                        None,
                        None,
                        None,
                    ),
                ),
                None => None,
            },
            administrative_competencies: match self.administrative_competencies {
                Some(a) => Some(
                    AdministrativeCompetencies::new(
                        a.global_region,
                        None,
                        None,
                        a.global_national,
                        None,
                        None,
                    ),
                ),
                None => None,
            },
            numeric_competencies: match self.numeric_competencies {
                Some(a) => Some(
                    NumericCompetencies::new(
                        a.global_region,
                        None,
                        None,
                        a.global_national,
                        None,
                        None,
                    ),
                ),
                None => None,
            },
        }
    }

    /// The department-scope values of this record.
    pub fn departmental(&self) -> (r: Self)
        ensures
            r == departmental_view(*self),
    {
        Entry {
            global: self.global_dept,
            global_region: self.global_region,
            global_dept: None,
            global_national: self.global_national,
            iris_code: None,
            iris_code_designation: None,
            information_access: match self.information_access {
                Some(a) => Some(
                    InformationAccess::new(
                        a.global_dept,
                        a.global_region,
                        None,
                        a.global_national,
                        None,
                        None,
                        None,
                        None,
                    ),
                ),
                None => None,
            },
            numeric_interfaces_access: match self.numeric_interfaces_access {
                Some(a) => Some(
                    NumericInterfacesAccess::new(
                        a.global_dept,
                        a.global_region,
                        None,
                        a.global_national,
                        None,
                        None,
                        None,
                        None,
                    ),
                ),
                None => None,
            },
            administrative_competencies: match self.administrative_competencies {
                Some(a) => Some(
                    AdministrativeCompetencies::new(
                        a.global_dept,
                        a.global_region,
                        None,
                        a.global_national,
                        None,
                        None,
                    ),
                ),
                None => None,
            },
            numeric_competencies: match self.numeric_competencies {
                Some(a) => Some(
                    NumericCompetencies::new(
                        a.global_dept,
                        a.global_region,
                        None,
                        a.global_national,
                        None,
                        None,
                    ),
                ),
                None => None,
            },
        }
    }
}

/// A point on the map, in fixed-point degrees.
#[derive(Clone, Copy, Debug)]
pub struct GeoLoc {
    pub lat: i64,
    pub long: i64,
}

impl GeoLoc {
    pub fn new(lat: i64, long: i64) -> (r: GeoLoc)
        ensures
            r == (GeoLoc { lat, long }),
    {
        GeoLoc { lat, long }
    }
}

/// Where a city key of the postal index leads: the city code and its place.
#[derive(Clone, Debug)]
pub struct Iris {
    pub code: Option<String>,
    pub geo_loc: Option<GeoLoc>,
}

impl Iris {
    pub fn new(code: Option<String>, geo_loc: Option<GeoLoc>) -> (r: Iris)
        ensures
            r == (Iris { code, geo_loc }),
    {
        Iris { code, geo_loc }
    }

    /// An exact copy.
    pub fn duplicate(&self) -> (r: Iris)
        ensures
            r == *self,
    {
        Iris { code: copy_text(&self.code), geo_loc: self.geo_loc }
    }
}

/// A district of a city, as shown in a city search.
#[derive(Clone, Debug)]
pub struct District {
    pub code_iris: String,
    pub designation: String,
}

impl District {
    pub fn new(code_iris: String, designation: String) -> (r: Self)
        ensures
            r.code_iris@ == code_iris@,
            r.designation@ == designation@,
    {
        District { code_iris, designation }
    }
}

/// A city found by a search: its code and its districts.
#[derive(Clone, Debug)]
pub struct CityDetail {
    pub code_insee: Option<String>,
    pub districts: Option<Vec<District>>,
}

/// The cities that a search found, by key, in key order.
#[derive(Clone, Debug)]
pub struct SearchResult {
    pub cities: Vec<(String, CityDetail)>,
}

impl SearchResult {
    pub fn new() -> (r: Self)
        ensures
            r.cities@.len() == 0,
    {
        SearchResult { cities: Vec::new() }
    }
}

} // verus!
