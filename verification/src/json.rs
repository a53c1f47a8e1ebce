//! The JSON-RPC message types: requests, responses, and the error object,
//! together with the error codes this server uses.
use crate::game::GameState;
use crate::pieces::Color;
use vstd::prelude::*;
use vstd::string::*;

verus! {

/// Correlation identifier of a request; the response echoes it.
pub type Id = u32;

/// The ordered parameters of a request.
pub type Params = Vec<Value>;

/// Error code for a request whose parameters do not fit the method.
pub const INVALID_PARAMS: i32 = -32602;

/// Error code for a method name that is not registered.
pub const METHOD_NOT_FOUND: i32 = -32601;

/// Error code for a credential the password table does not hold.
pub const INVALID_CREDENTIAL: i32 = 1;

/// Error code for a call that the turn-scoped authorization refuses.
pub const FAILED_AUTH: i32 = 2;

/// Error code of the unsolicited notice sent to an evicted connection.
pub const CONNECTION_CLOSED_BY_SERVER: i32 = 3;

/// A JSON scalar value, as the request parameters carry them.
#[derive(Debug, Clone)]
pub enum Value {
    Null,
    Bool(bool),
    UInt(u64),
    Str(String),
}

/// The protocol version tag of every message.
#[derive(Debug, Clone)]
pub struct Version(pub String);

impl Default for Version {
    /// The one protocol version this server speaks.
    fn default() -> (r: Self)
        ensures
            r.0@ == "2.0"@,
    {
        Version(String::from_str("2.0"))
    }
}

/// One call from a client: a method name, its parameters, and the
/// correlation id the response must echo.
#[derive(Debug)]
pub struct Request {
    pub jsonrpc: Version,
    pub method: String,
    pub params: Params,
    pub id: Id,
}

/// The error object of an error response.
#[derive(Debug, Clone)]
pub struct JsonRpcError {
    pub code: i32,
    pub message: String,
    pub data: Option<Value>,
}

/// The state snapshot a successful call returns: the caller's color when
/// the call assigned one, the turn count, the rendered board, and the
/// game's lifecycle state.
#[derive(Debug, Clone)]
pub struct ChessResponse {
    pub player_color: Option<Color>,
    pub turn: u32,
    pub board: String,
    pub game_state: GameState,
}

/// The one response to a request: a result or an error, each echoing the
/// request's id.
#[derive(Debug)]
pub enum Response {
    Success { jsonrpc: Version, result: ChessResponse, id: Id },
    Error { jsonrpc: Version, error: JsonRpcError, id: Id },
}

impl Request {
    /// Builds a request; without an explicit id the id is zero until
    /// `set_id` assigns the real one.
    pub fn new(method: String, params: Params, id: Option<Id>) -> (r: Request)
        ensures
            r.method == method,
            r.params == params,
            r.id == (match id {
                Some(i) => i,
                None => 0,
            }),
            r.jsonrpc.0@ == "2.0"@,
    {
        let id_value = match id {
            Some(i) => i,
            None => 0,
        };
        Request { jsonrpc: Version::default(), method, params, id: id_value }
    }

    /// Assigns the correlation id.
    pub fn set_id(&mut self, new_id: Id)
        ensures
            final(self).id == new_id,
            final(self).method == old(self).method,
            final(self).params == old(self).params,
            final(self).jsonrpc == old(self).jsonrpc,
    {
        self.id = new_id;
    }
}

impl Response {
    /// The id this response echoes.
    pub open spec fn spec_id(self) -> Id {
        match self {
            Response::Success { id, .. } => id,
            Response::Error { id, .. } => id,
        }
    }

    /// Returns `true` for a success response.
    pub fn is_success(&self) -> (r: bool)
        ensures
            r == (self matches Response::Success { .. }),
    {
        matches!(self, Response::Success { .. })
    }

    /// Returns `true` for an error response.
    pub fn is_error(&self) -> (r: bool)
        ensures
            r == (self matches Response::Error { .. }),
    {
        matches!(self, Response::Error { .. })
    }

    /// The result or the error, each with the echoed id.
    pub fn result(&self) -> (r: Result<(&ChessResponse, Id), (&JsonRpcError, Id)>)
        ensures
            match *self {
                Response::Success { result, id, .. } => r matches Ok((res, i)) && *res == result
                    && i == id,
                Response::Error { error, id, .. } => r matches Err((err, i)) && *err == error && i
                    == id,
            },
    {
        match self {
            Response::Success { result, id, .. } => Ok((result, *id)),
            Response::Error { error, id, .. } => Err((error, *id)),
        }
    }

    /// Stamps the response with the id of the request it answers.
    pub fn set_id(&mut self, new_id: Id)
        ensures
            final(self).spec_id() == new_id,
            (old(self) matches Response::Success { .. }) ==> *final(self) == (Response::Success {
                jsonrpc: old(self)->Success_jsonrpc,
                result: old(self)->Success_result,
                id: new_id,
            }),
            (old(self) matches Response::Error { .. }) ==> *final(self) == (Response::Error {
                jsonrpc: old(self)->Error_jsonrpc,
                error: old(self)->Error_error,
                id: new_id,
            }),
    {
        match self {
            Response::Success { id, .. } => *id = new_id,
            Response::Error { id, .. } => *id = new_id,
        }
    }

    /// Builds a success response around a state snapshot.
    pub fn success(result: ChessResponse, id: Option<Id>) -> (r: Response)
        ensures
            r == (Response::Success {
                jsonrpc: r->Success_jsonrpc,
                result,
                id: (match id {
                    Some(i) => i,
                    None => 0,
                }),
            }),
            r->Success_jsonrpc.0@ == "2.0"@,
    {
        let id_value = match id {
            Some(i) => i,
            None => 0,
        };
        Response::Success { jsonrpc: Version::default(), result, id: id_value }
    }

    /// Builds an error response around an error object.
    pub fn error(error: JsonRpcError, id: Option<Id>) -> (r: Response)
        ensures
            r == (Response::Error {
                jsonrpc: r->Error_jsonrpc,
                error,
                id: (match id {
                    Some(i) => i,
                    None => 0,
                }),
            }),
            r->Error_jsonrpc.0@ == "2.0"@,
    {
        let id_value = match id {
            Some(i) => i,
            None => 0,
        };
        Response::Error { jsonrpc: Version::default(), error, id: id_value }
    }
}

} // verus!
