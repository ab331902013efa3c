use vstd::prelude::*;

verus! {

/// Why `plan` returned no plan. The two cases are kept distinct: the first
/// is ordinary unreachability, the second signals an internal inconsistency
/// between successor generation and reconstruction.
#[derive(Clone, Copy, Debug, PartialEq, Eq, Structural, Hash)]
pub enum PlannerError {
    /// No action sequence reaches a state satisfying the goal.
    NoPlanFound,
    /// The search produced consecutive states that no action explains.
    UnreachableState,
}

/// Why a fact name was rejected at registration time.
#[derive(Clone, Copy, Debug, PartialEq, Eq, Structural, Hash)]
pub enum NewFactError {
    /// The provided fact name is an empty string.
    EmptyFactName,
    /// The provided fact name starts with a digit.
    InitialDigitFactName,
    /// The provided fact name contains ASCII whitespace.
    ContainsAsciiWhitespaceFactName,
    /// The provided fact name already exists.
    DuplicateFactName,
    /// No remaining fact identifiers exist.
    OutOfFactIdSpace,
}

/// Why a condition string could not be parsed.
#[derive(Clone, Copy, Debug, PartialEq, Eq, Structural, Hash)]
pub enum ParseConditionError {
    /// The string does not split into exactly three fields.
    WrongFieldCount,
    /// The middle field is not a recognized relational operator.
    UnrecognizedOperator,
    /// The left-hand side is not a known fact name.
    LhsNotAFactId,
    /// The right-hand side is neither an integer nor a known fact name.
    RhsNotAFactNameOrId,
}

/// Why an effect string could not be parsed.
#[derive(Clone, Copy, Debug, PartialEq, Eq, Structural, Hash)]
pub enum ParseEffectError {
    /// The string does not split into exactly three fields.
    WrongFieldCount,
    /// The middle field is not a recognized operator.
    UnrecognizedOperator,
    /// The left-hand side is not a known fact name.
    LhsNotAFactId,
    /// The right-hand side is neither an integer nor a known fact name.
    RhsNotAFactNameOrId,
}

} // verus!
