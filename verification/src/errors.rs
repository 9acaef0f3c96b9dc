//! Error taxonomy of single-rule parsing and of rule-list mutation.

use vstd::prelude::*;

verus! {

/// Why a single-rule parse failed.
#[derive(Clone, Copy, Debug, PartialEq, Eq, Structural)]
pub enum SingleRuleParseError {
    /// The text is not a syntactically valid rule.
    Syntax,
    /// The rule is valid but appears in a structurally invalid position
    /// (an `@import` after body content, say).
    Hierarchy,
}

/// Why a rule-list mutation failed. `IndexSize` and `InvalidState`
/// originate only in the rule-list container layer, which shares this enum.
#[derive(Clone, Copy, Debug, PartialEq, Eq, Structural)]
pub enum RulesMutateError {
    Syntax,
    IndexSize,
    HierarchyRequest,
    InvalidState,
}

impl From<SingleRuleParseError> for RulesMutateError {
    /// The lossless conversion from single-rule parse errors:
    /// Syntax maps to Syntax, Hierarchy maps to HierarchyRequest.
    fn from(other: SingleRuleParseError) -> (r: Self) {
        match other {
            SingleRuleParseError::Syntax => RulesMutateError::Syntax,
            SingleRuleParseError::Hierarchy => RulesMutateError::HierarchyRequest,
        }
    }
}

impl vstd::std_specs::convert::FromSpecImpl<SingleRuleParseError> for RulesMutateError {
    open spec fn obeys_from_spec() -> bool {
        true
    }

    open spec fn from_spec(other: SingleRuleParseError) -> Self {
        match other {
            SingleRuleParseError::Syntax => RulesMutateError::Syntax,
            SingleRuleParseError::Hierarchy => RulesMutateError::HierarchyRequest,
        }
    }
}

} // verus!
