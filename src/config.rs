//! The user's configuration: which categories to harvest, default filters,
//! hooks and highlighting.
use vstd::prelude::*;

use crate::filter::Filter;
use crate::tag::TagName;

verus! {

/// The configuration file's contents.
pub struct Config {
    /// The categories to harvest, such as `math.NT`.
    pub categories: Vec<String>,
    pub latex_to_unicode: bool,
    /// Keys that toggle tags in the browser.
    pub tags: Vec<(char, TagName)>,
    pub filters: Filters,
    pub hooks: Hooks,
    pub highlight: Highlight,
}

/// The default conditions of a listing.
pub struct Filters {
    /// Only records that meet this condition are listed by default.
    pub new: Filter,
    /// Updates (new versions, journal references, DOIs) are shown only for
    /// records that also meet this condition.
    pub update: Filter,
}

/// Commands run around a harvest.
pub struct Hooks {
    /// Run before harvesting.
    pub pre_pull: Option<String>,
    /// Run to push the store elsewhere.
    pub push: Option<String>,
}

/// What listings mark.
pub struct Highlight {
    pub keywords: Vec<String>,
    pub authors: Vec<String>,
    /// Distinct category names.
    pub categories: Vec<String>,
    pub acm_classes: Vec<String>,
    pub msc_classes: Vec<String>,
}

impl Default for Hooks {
    fn default() -> (r: Hooks)
        ensures
            r.pre_pull is None,
            r.push is None,
    {
        Hooks { pre_pull: None, push: None }
    }
}

impl Default for Highlight {
    fn default() -> (r: Highlight)
        ensures
            r.keywords@.len() == 0,
            r.authors@.len() == 0,
            r.categories@.len() == 0,
            r.acm_classes@.len() == 0,
            r.msc_classes@.len() == 0,
    {
        Highlight {
            keywords: Vec::new(),
            authors: Vec::new(),
            categories: Vec::new(),
            acm_classes: Vec::new(),
            msc_classes: Vec::new(),
        }
    }
}

} // verus!
