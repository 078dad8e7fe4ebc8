//! Settings of the stylesheet compiler.
use vstd::prelude::*;

verus! {

/// How `@import` rules are treated when dependencies are analysed.
#[derive(Debug, Clone, Copy, PartialEq, Eq, Structural)]
pub struct DependencyOptions {
    /// Whether to remove `@import` rules.
    pub remove_imports: bool,
}

/// CSS modules: off, on with the defaults, or configured.
#[derive(Debug)]
pub enum CssModulesOption {
    Bool(bool),
    Config(CssModulesConfig),
}

/// The configuration of CSS modules.
#[derive(Debug)]
pub struct CssModulesConfig {
    /// The pattern that class names are renamed by.
    pub pattern: Option<String>,
    /// Whether dashed identifiers are scoped too.
    pub dashed_idents: bool,
}

/// Class names that stand in for user-action pseudo classes.
#[derive(Debug)]
pub struct OwnedPseudoClasses {
    pub hover: Option<String>,
    pub active: Option<String>,
    pub focus: Option<String>,
    pub focus_visible: Option<String>,
    pub focus_within: Option<String>,
}

/// Draft syntax that the parser accepts.
#[derive(Debug, Clone, Copy, PartialEq, Eq, Structural)]
pub struct Drafts {
    pub nesting: bool,
    pub custom_media: bool,
}

impl Default for Drafts {
    fn default() -> (r: Self)
        ensures
            !r.nesting,
            !r.custom_media,
    {
        Drafts { nesting: false, custom_media: false }
    }
}

} // verus!
