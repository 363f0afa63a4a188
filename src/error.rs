use vstd::prelude::*;

verus! {

/// Why a quest could not be looked up or resolved.
#[derive(Debug, Clone)]
pub enum QuestError {
    /// No quest of this name in the file.
    MissingQuest(String),
    /// A value reads an environment variable that is not set.
    MissingEnvironmentVariable(String),
    /// A variable's name or value holds `$`, `{` or `}`, which substitution refuses.
    FailedToSubstituteVariables,
    /// The url still holds a `${...}` placeholder after substitution.
    UnresolvedPlaceholder,
    /// The url, with its query parameters, does not parse.
    InvalidUrl,
    /// A header name holds characters that a header name may not hold.
    InvalidHeaderName(String),
    /// A header value holds characters that a header value may not hold.
    InvalidHeaderValue(String),
    /// A `key=value` argument without `=`.
    InvalidKeyValue(String),
}

/// The abstract view of a `QuestError`.
pub enum Failure {
    MissingQuest(Seq<char>),
    MissingEnvironmentVariable(Seq<char>),
    FailedToSubstituteVariables,
    UnresolvedPlaceholder,
    InvalidUrl,
    InvalidHeaderName(Seq<char>),
    InvalidHeaderValue(Seq<char>),
    InvalidKeyValue(Seq<char>),
}

impl View for QuestError {
    type V = Failure;

    open spec fn view(&self) -> Failure {
        match self {
            QuestError::MissingQuest(n) => Failure::MissingQuest(n@),
            QuestError::MissingEnvironmentVariable(n) => Failure::MissingEnvironmentVariable(n@),
            QuestError::FailedToSubstituteVariables => Failure::FailedToSubstituteVariables,
            QuestError::UnresolvedPlaceholder => Failure::UnresolvedPlaceholder,
            QuestError::InvalidUrl => Failure::InvalidUrl,
            QuestError::InvalidHeaderName(n) => Failure::InvalidHeaderName(n@),
            QuestError::InvalidHeaderValue(n) => Failure::InvalidHeaderValue(n@),
            QuestError::InvalidKeyValue(n) => Failure::InvalidKeyValue(n@),
        }
    }
}

/// The abstract view of a result that carries a string.
pub open spec fn text_result(r: Result<String, QuestError>) -> Result<Seq<char>, Failure> {
    match r {
        Ok(s) => Ok(s@),
        Err(e) => Err(e@),
    }
}

} // verus!
