//! Package metadata: a named package with a category, a description and an
//! optional size, as the installation steps describe what they install.

use vstd::prelude::*;

verus! {

/// The category a package belongs to.
#[derive(Clone, Debug, PartialEq, Eq, Structural)]
pub enum PackageCategory {
    Core,
    Themes,
    Desktop,
    Development,
    Optional,
}

/// One installable package.
pub struct Package {
    pub name: String,
    pub description: String,
    pub category: PackageCategory,
    pub required: bool,
    pub size_mb: Option<u32>,
}

/// The human-readable label of a category.
pub open spec fn spec_category_label(c: PackageCategory) -> Seq<char> {
    match c {
        PackageCategory::Core => "Core Packages"@,
        PackageCategory::Themes => "Themes & Icons"@,
        PackageCategory::Desktop => "Desktop Applications"@,
        PackageCategory::Development => "Development Tools"@,
        PackageCategory::Optional => "Optional Programs"@,
    }
}

impl PackageCategory {
    /// The human-readable label of this category.
    pub fn as_str(&self) -> (r: &str)
        ensures
            r@ == spec_category_label(*self),
    {
        match self {
            PackageCategory::Core => "Core Packages",
            PackageCategory::Themes => "Themes & Icons",
            PackageCategory::Desktop => "Desktop Applications",
            PackageCategory::Development => "Development Tools",
            PackageCategory::Optional => "Optional Programs",
        }
    }
}

impl Package {
    /// A package with the given fields and no recorded size.
    pub fn new(name: String, description: String, category: PackageCategory, required: bool) -> (r:
        Package)
        ensures
            r.name == name,
            r.description == description,
            r.category == category,
            r.required == required,
            r.size_mb is None,
    {
        Package { name, description, category, required, size_mb: None }
    }
}

} // verus!
