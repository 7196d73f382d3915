use vstd::prelude::*;

verus! {

/// The five outcomes of a wiki operation, without their messages.
#[derive(Clone, Copy, Debug, PartialEq, Eq, Structural)]
pub enum ResponseKind {
    OK,
    BadRequest,
    NotAllowed,
    NotFound,
    Error,
}

/// The typed result of a wiki operation, each with an optional message for
/// the user.
#[derive(Debug)]
pub enum WikiResponse {
    OK(Option<String>),
    BadRequest(Option<String>),
    NotAllowed(Option<String>),
    NotFound(Option<String>),
    Error(Option<String>),
}

/// The message of a response, as characters.
pub open spec fn msg_view(m: Option<String>) -> Option<Seq<char>> {
    match m {
        Some(s) => Some(s@),
        None => None,
    }
}

impl WikiResponse {
    pub open spec fn kind(&self) -> ResponseKind {
        match self {
            WikiResponse::OK(_) => ResponseKind::OK,
            WikiResponse::BadRequest(_) => ResponseKind::BadRequest,
            WikiResponse::NotAllowed(_) => ResponseKind::NotAllowed,
            WikiResponse::NotFound(_) => ResponseKind::NotFound,
            WikiResponse::Error(_) => ResponseKind::Error,
        }
    }

    pub open spec fn message_field(&self) -> Option<String> {
        match self {
            WikiResponse::OK(m) => *m,
            WikiResponse::BadRequest(m) => *m,
            WikiResponse::NotAllowed(m) => *m,
            WikiResponse::NotFound(m) => *m,
            WikiResponse::Error(m) => *m,
        }
    }

    /// The message of this response, as characters.
    pub open spec fn message(&self) -> Option<Seq<char>> {
        msg_view(self.message_field())
    }

    pub fn is_ok(&self) -> (r: bool)
        ensures
            r == (self.kind() == ResponseKind::OK),
    {
        match self {
            WikiResponse::OK(_) => true,
            _ => false,
        }
    }

    /// `Ok` with the response itself when it is `OK`, `Err` with it otherwise.
    pub fn result(self) -> (r: Result<Self, Self>)
        ensures
            self.kind() == ResponseKind::OK ==> r == Ok::<Self, Self>(self),
            self.kind() != ResponseKind::OK ==> r == Err::<Self, Self>(self),
    {
        if self.is_ok() {
            Ok(self)
        } else {
            Err(self)
        }
    }

    pub fn msg(&self) -> (r: Option<&String>)
        ensures
            r.is_some() == self.message_field().is_some(),
            r.is_some() ==> r.unwrap()@ == self.message_field().unwrap()@,
    {
        match self {
            WikiResponse::OK(msg) => msg.as_ref(),
            WikiResponse::BadRequest(msg) => msg.as_ref(),
            WikiResponse::NotAllowed(msg) => msg.as_ref(),
            WikiResponse::NotFound(msg) => msg.as_ref(),
            WikiResponse::Error(msg) => msg.as_ref(),
        }
    }
}

} // verus!
