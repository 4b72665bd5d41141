use vstd::prelude::*;

verus! {

/// Failures of a backend, whichever backend produced them.
#[derive(Clone, Debug, PartialEq, Eq)]
pub enum ModelError {
    /// The connection to the backend failed.
    Transport(String),
    /// The backend answered with a status other than success; the body is kept as sent.
    Status { code: u16, body: String },
    /// A response chunk could not be decoded.
    Deserialize,
    /// The backend reported an error of the model or service itself.
    Model(String),
}

/// Failures of a pipeline run.
#[derive(Clone, Debug, PartialEq, Eq)]
pub enum Error {
    /// A mandatory option was given no value; holds the option's name.
    MissingRequiredOption(String),
    /// A value did not fit its option (type, arity or form); holds the option's name.
    ArgParseFailure(String),
    /// A file or image could not be read; holds the path.
    Io(String),
    TemplateNotFound,
    EmptyTemplate,
    RenderFailure,
    ContextLimitExceeded { required: usize, available: usize },
    BackendTransportFailure(String),
    BackendProtocolFailure,
    BackendModelFailure(String),
    BackendStatusFailure { code: u16, body: String },
}

/// Folds a backend failure into the pipeline's error kinds.
pub fn error_from_model(e: ModelError) -> (r: Error)
    ensures
        r == match e {
            ModelError::Transport(m) => Error::BackendTransportFailure(m),
            ModelError::Status { code, body } => Error::BackendStatusFailure { code, body },
            ModelError::Deserialize => Error::BackendProtocolFailure,
            ModelError::Model(m) => Error::BackendModelFailure(m),
        },
{
    match e {
        ModelError::Transport(m) => Error::BackendTransportFailure(m),
        ModelError::Status { code, body } => Error::BackendStatusFailure { code, body },
        ModelError::Deserialize => Error::BackendProtocolFailure,
        ModelError::Model(m) => Error::BackendModelFailure(m),
    }
}

/// Classifies a failed HTTP exchange: with a status, a status failure carrying the
/// body; without one, a transport failure carrying the message.
pub fn map_model_response_err(status: Option<u16>, message: String) -> (r: ModelError)
    ensures
        r == match status {
            Some(code) => ModelError::Status { code, body: message },
            None => ModelError::Transport(message),
        },
{
    match status {
        Some(code) => ModelError::Status { code, body: message },
        None => ModelError::Transport(message),
    }
}

} // verus!
