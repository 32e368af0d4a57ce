//! The catalogue browsed by the category browser: categories, their
//! subcategories, and links.

use vstd::prelude::*;

verus! {

/// A link: its title and destination.
#[derive(Debug)]
pub struct Link {
    pub title: String,
    pub url: String,
}

/// A subcategory and its links.
#[derive(Debug)]
pub struct Subcategory {
    pub title: String,
    pub links: Vec<Link>,
}

/// A category: its subcategories, and the links listed directly under it.
#[derive(Debug)]
pub struct Category {
    pub title: String,
    pub subcategories: Vec<Subcategory>,
    pub direct_links: Vec<Link>,
}

impl Category {
    /// The subcategories of this category.
    pub fn get_subcategories(&self) -> (r: &Vec<Subcategory>)
        ensures
            r == &self.subcategories,
    {
        &self.subcategories
    }
}

} // verus!
