//! The errors that end a command before any entry is visited.

use vstd::prelude::*;

verus! {

/// Why a set of linkfiles could not be built.
#[derive(Debug)]
pub enum LoadError {
    /// A configuration or a linkfile could not be read as structured
    /// key-value data, or lacks what has to be in it.
    ConfigParse,
    /// A path refers to a variable that is not defined.
    PathExpansion { variable: String },
}

/// Mathematical value of an [`LoadError`].
pub enum LoadErrorView {
    ConfigParse,
    PathExpansion { variable: Seq<char> },
}

impl View for LoadError {
    type V = LoadErrorView;

    open spec fn view(&self) -> LoadErrorView {
        match self {
            LoadError::ConfigParse => LoadErrorView::ConfigParse,
            LoadError::PathExpansion { variable } => LoadErrorView::PathExpansion { variable: variable@ },
        }
    }
}

impl Clone for LoadError {
    fn clone(&self) -> (copy: Self)
        ensures
            copy@ == self@,
    {
        match self {
            LoadError::ConfigParse => LoadError::ConfigParse,
            LoadError::PathExpansion { variable } => LoadError::PathExpansion {
                variable: variable.clone(),
            },
        }
    }
}

impl PartialEq for LoadError {
    fn eq(&self, other: &Self) -> (equal: bool) {
        match self {
            LoadError::ConfigParse => matches!(other, LoadError::ConfigParse),
            LoadError::PathExpansion { variable } => match other {
                LoadError::PathExpansion { variable: other_variable } => *variable == *other_variable,
                _ => false,
            },
        }
    }
}

impl vstd::std_specs::cmp::PartialEqSpecImpl for LoadError {
    open spec fn obeys_eq_spec() -> bool {
        true
    }

    open spec fn eq_spec(&self, other: &Self) -> bool {
        self@ == other@
    }
}

} // verus!
