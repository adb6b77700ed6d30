use vstd::prelude::*;

use crate::error::Error;

verus! {

/// Role of a chat message in a completion request.
#[derive(Debug, Clone, Copy, PartialEq, Eq, Structural)]
pub enum Role {
    System,
    User,
    Assistant,
}

/// One chat message of a completion request or reply.
#[derive(Debug, Clone, PartialEq, Eq)]
pub struct Message {
    pub role: Role,
    pub content: String,
}

/// One answer choice of a completion reply.
#[derive(Debug, Clone, PartialEq, Eq)]
pub struct Choice {
    pub message: Message,
}

/// A completion reply: the inference server may return several choices.
#[derive(Debug, Clone, PartialEq, Eq)]
pub struct Response {
    pub choices: Vec<Choice>,
}

impl Response {
    /// The generated text of the first choice; an error when the server
    /// returned no choice at all.
    pub fn content(&self) -> (r: Result<&String, Error>)
        ensures
            r is Ok <==> self.choices@.len() > 0,
            r is Ok ==> r->Ok_0@ == self.choices@[0].message.content@,
            r is Err ==> r->Err_0 is ServiceError,
    {
        if self.choices.len() > 0 {
            Ok(&self.choices[0].message.content)
        } else {
            Err(Error::ServiceError("no completion choice returned".to_owned()))
        }
    }
}

/// Generation settings reported by the inference server; only the context
/// window size matters to this pipeline.
#[derive(Debug, Clone, Copy, PartialEq, Eq, Structural)]
pub struct GenerationSettings {
    pub n_ctx: usize,
}

/// The server properties answer carrying the default generation settings.
#[derive(Debug, Clone, Copy, PartialEq, Eq, Structural)]
pub struct Props {
    pub default_generation_settings: GenerationSettings,
}

/// One available model.
#[derive(Debug, Clone, PartialEq, Eq)]
pub struct Model {
    pub id: String,
}

/// The list of models the inference server offers.
#[derive(Debug, Clone, PartialEq, Eq)]
pub struct Models {
    pub data: Vec<Model>,
}

impl Models {
    /// The id of the first offered model, which the run uses; an error when
    /// the server offers none.
    pub fn first_id(&self) -> (r: Result<&String, Error>)
        ensures
            r is Ok <==> self.data@.len() > 0,
            r is Ok ==> r->Ok_0@ == self.data@[0].id@,
            r is Err ==> r->Err_0 is NotFoundError,
    {
        if self.data.len() > 0 {
            Ok(&self.data[0].id)
        } else {
            Err(Error::NotFoundError("no model found".to_owned()))
        }
    }
}

} // verus!
