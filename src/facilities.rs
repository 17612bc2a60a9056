//! Classes of production buildings and the buildings themselves.

use vstd::prelude::*;
use crate::error::Error;
use crate::products::{same_text, trim_of, trimmed};
use crate::rational::Ratio;

verus! {

/// A class of production building, known by its name.
#[derive(Debug, Clone, PartialEq, Eq, Hash)]
pub struct FacilityCategory {
    name: String,
}

impl View for FacilityCategory {
    type V = Seq<char>;

    closed spec fn view(&self) -> Seq<char> {
        self.name@
    }
}

impl FacilityCategory {
    /// A category named by `name` without surrounding whitespace; the name
    /// must not be blank.
    pub fn new(name: &str) -> (r: Result<FacilityCategory, Error>)
        ensures
            r is Err <==> trim_of(name@).len() == 0,
            r matches Err(e) ==> e == Error::EmptyName,
            r matches Ok(c) ==> c@ == trim_of(name@),
    {
        let cleaned = trimmed(name);
        if cleaned.unicode_len() == 0 {
            Err(Error::EmptyName)
        } else {
            Ok(FacilityCategory { name: cleaned })
        }
    }

    pub fn name(&self) -> (r: &str)
        ensures
            r@ == self@,
    {
        self.name.as_str()
    }

    /// A copy of this category.
    pub fn cloned(&self) -> (r: FacilityCategory)
        ensures
            r@ == self@,
    {
        FacilityCategory { name: self.name.as_str().to_owned() }
    }

    /// Whether the two categories are the same.
    pub fn same(&self, other: &FacilityCategory) -> (r: bool)
        ensures
            r == (self@ == other@),
    {
        same_text(self.name.as_str(), other.name.as_str())
    }
}

/// The observable parts of a facility: category, adjective and speed.
pub struct FacilityView {
    pub category: Seq<char>,
    pub adjective: Seq<char>,
    pub speed: (int, int),
}

/// The name under which a facility is shown.
pub open spec fn facility_name(category: Seq<char>, adjective: Seq<char>) -> Seq<char> {
    if adjective.len() == 0 {
        category
    } else {
        adjective + seq![' '] + category
    }
}

/// A concrete building: a category, an optional adjective, and a speed multiplier.
#[derive(Debug, Clone, PartialEq, Eq, Hash)]
pub struct Facility {
    category: FacilityCategory,
    adjective: String,
    speed: Ratio,
}

impl View for Facility {
    type V = FacilityView;

    closed spec fn view(&self) -> FacilityView {
        FacilityView { category: self.category@, adjective: self.adjective@, speed: self.speed@ }
    }
}

impl Facility {
    pub fn new(category: FacilityCategory, adjective: String, speed: Ratio) -> (r: Facility)
        ensures
            r@ == (FacilityView { category: category@, adjective: adjective@, speed: speed@ }),
    {
        Facility { category, adjective, speed }
    }

    /// A facility of the category named `categoryname`, which must not be blank.
    pub fn with_categoryname(categoryname: &str, adjective: String, speed: Ratio) -> (r: Result<
        Facility,
        Error,
    >)
        ensures
            r is Err <==> trim_of(categoryname@).len() == 0,
            r matches Err(e) ==> e == Error::EmptyName,
            r matches Ok(f) ==> f@ == (FacilityView {
                category: trim_of(categoryname@),
                adjective: adjective@,
                speed: speed@,
            }),
    {
        let category = FacilityCategory::new(categoryname)?;
        Ok(Facility { category, adjective, speed })
    }

    pub fn category(&self) -> (r: &FacilityCategory)
        ensures
            r@ == self@.category,
    {
        &self.category
    }

    pub fn categoryname(&self) -> (r: &str)
        ensures
            r@ == self@.category,
    {
        self.category.name()
    }

    pub fn speed(&self) -> (r: Ratio)
        ensures
            r@ == self@.speed,
    {
        self.speed
    }

    /// "adjective category", or the category alone when there is no adjective.
    pub fn name(&self) -> (r: String)
        ensures
            r@ == facility_name(self@.category, self@.adjective),
    {
        let category = self.category.name();
        if self.adjective.as_str().unicode_len() == 0 {
            category.to_owned()
        } else {
            let mut s = self.adjective.as_str().to_owned();
            s.append(" ");
            s.append(category);
            proof {
                reveal_strlit(" ");
            }
            s
        }
    }

    /// A copy of this facility.
    pub fn cloned(&self) -> (r: Facility)
        ensures
            r@ == self@,
    {
        Facility {
            category: self.category.cloned(),
            adjective: self.adjective.as_str().to_owned(),
            speed: self.speed,
        }
    }

    /// Whether the two facilities are the same.
    pub fn same(&self, other: &Facility) -> (r: bool)
        ensures
            r == (self@ == other@),
    {
        self.category.same(&other.category) && same_text(
            self.adjective.as_str(),
            other.adjective.as_str(),
        ) && self.speed.equals(&other.speed)
    }
}

} // verus!
