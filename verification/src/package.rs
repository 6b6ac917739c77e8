//! The record that the parser produces for one listed package.

use vstd::prelude::*;

verus! {

/// One package as `winget` lists it.
#[derive(Debug, Clone, PartialEq, Eq)]
pub struct WingetPackage {
    /// Display name; never empty in a parsed record.
    pub name: String,
    /// The identifier that `winget` knows the package by; never empty in a
    /// parsed record.
    pub id: String,
    /// Installed version, free-form; may be empty.
    pub version: String,
    /// The version an upgrade would bring, where there is one.
    pub available_version: Option<String>,
    /// The repository the package comes from, where the listing names it.
    pub source: Option<String>,
}

/// A package record as plain character sequences.
pub struct PackageView {
    pub name: Seq<char>,
    pub id: Seq<char>,
    pub version: Seq<char>,
    pub available_version: Option<Seq<char>>,
    pub source: Option<Seq<char>>,
}

/// What an optional string holds.
pub open spec fn optional_text(text: Option<String>) -> Option<Seq<char>> {
    match text {
        Some(t) => Some(t@),
        None => None,
    }
}

impl View for WingetPackage {
    type V = PackageView;

    open spec fn view(&self) -> PackageView {
        PackageView {
            name: self.name@,
            id: self.id@,
            version: self.version@,
            available_version: optional_text(self.available_version),
            source: optional_text(self.source),
        }
    }
}

impl DeepView for WingetPackage {
    type V = PackageView;

    open spec fn deep_view(&self) -> PackageView {
        self@
    }
}

} // verus!
