//! The method registry and dispatcher: method names mapped to handlers
//! with their authorization flags, the turn-scoped authorization check,
//! and the two handlers, `password` and `movement`.
use crate::board::{dead_after_move, map_after_move, spec_can_move};
use crate::game::{spec_playing_color, spec_print_board, spec_translate, Game};
use crate::json::{
    ChessResponse, Id, JsonRpcError, Params, Response, Value, FAILED_AUTH, INVALID_CREDENTIAL,
    INVALID_PARAMS, METHOD_NOT_FOUND,
};
use crate::pieces::Color;
use crate::session::{auth_step, authenticate, Addr, Authentication, Passwords};
use crate::text::spec_trim;
use vstd::prelude::*;
use vstd::string::*;

verus! {

/// The handler a registered method name dispatches to.
#[derive(PartialEq, Eq, Copy, Clone, Debug, Structural)]
pub enum MethodKind {
    /// Authenticate with a credential.
    Password,
    /// Play one movement.
    Movement,
    /// Ask to be notified when it is the caller's turn.
    WaitForTurn,
}

/// One row of the method registry: the wire name, the handler, and
/// whether the call must pass the turn-scoped authorization check.
#[derive(Debug)]
pub struct MethodEntry {
    pub name: String,
    pub method: MethodKind,
    pub requires_auth: bool,
}

/// Everything the handlers share: the password table, the session
/// ownership table, and the game.
#[derive(Debug)]
pub struct Context {
    pub passwords: Passwords,
    pub auth: Authentication,
    pub game: Game,
}

impl Context {
    /// A context whose board is in a consistent state.
    pub open spec fn wf(self) -> bool {
        self.game.board.wf()
    }
}

/// The first parameter, when it is a string.
pub open spec fn params_first_str(params: Seq<Value>) -> Option<Seq<char>> {
    if params.len() == 0 {
        None
    } else {
        match params[0] {
            Value::Str(s) => Some(s@),
            _ => None,
        }
    }
}

/// An error response that reports unusable parameters.
pub open spec fn invalid_params_response(resp: Response) -> bool {
    resp matches Response::Error { error, .. } && error.code == INVALID_PARAMS && error.message@
        == "Invalid Params"@ && error.data is None
}

/// What the `password` handler does: with no string parameter it reports
/// unusable parameters; with an unknown credential it reports an invalid
/// credential; with a known one it binds the named identity to the
/// caller's address, evicting a different previous holder, and answers
/// with a snapshot that names the granted identity.
pub open spec fn password_spec(
    ctx0: Context,
    addr: Addr,
    params: Seq<Value>,
    ctx1: Context,
    resp: Response,
    eviction: Option<Addr>,
) -> bool {
    match params_first_str(params) {
        None => ctx1 == ctx0 && eviction is None && invalid_params_response(resp),
        Some(credential) => {
            let step = auth_step(ctx0.passwords, ctx0.auth, credential, addr);
            match step.1 {
                None => ctx1 == ctx0 && eviction is None && (resp matches Response::Error {
                    error,
                    ..
                } && error.code == INVALID_CREDENTIAL && error.message@ == "Incorrect password"@
                    && error.data is None),
                Some(color) => {
                    &&& ctx1.auth == step.0
                    &&& ctx1.passwords == ctx0.passwords
                    &&& ctx1.game == ctx0.game
                    &&& eviction == step.2
                    &&& (resp matches Response::Success { result, .. } && result.player_color
                        == Some(color) && result.turn == ctx0.game.turn && result.board@
                        == spec_print_board(ctx0.game.board@, ctx0.game.board.dimension, color)
                        && result.game_state == ctx0.game.state)
                },
            }
        },
    }
}

/// What the `movement` handler does: with no string parameter it reports
/// unusable parameters; with a command that does not parse or a movement
/// the rules refuse it reports the movement error and changes nothing;
/// with a legal movement it plays it, starts the next turn, publishes the
/// new turn owner, and answers with a snapshot rendered for the mover.
pub open spec fn movement_spec(
    ctx0: Context,
    params: Seq<Value>,
    ctx1: Context,
    resp: Response,
    turn_event: Option<Color>,
) -> bool {
    match params_first_str(params) {
        None => ctx1 == ctx0 && turn_event is None && invalid_params_response(resp),
        Some(command) => {
            match spec_translate(spec_trim(command)) {
                None => ctx1 == ctx0 && turn_event is None && (resp matches Response::Error {
                    error,
                    ..
                } && error.code == INVALID_PARAMS && error.message@ == "\""@ + spec_trim(command)
                    + "\" is not a valid movement command"@ && error.data is None),
                Some(m) => match spec_can_move(
                    ctx0.game.board,
                    spec_playing_color(ctx0.game.turn),
                    m,
                ) {
                    Err(e) => ctx1 == ctx0 && turn_event is None && (resp
                        matches Response::Error { error, .. } && error.code == INVALID_PARAMS
                        && error.message@ == e.spec_message() && error.data is None),
                    Ok(_) => {
                        &&& ctx1.passwords == ctx0.passwords
                        &&& ctx1.auth == ctx0.auth
                        &&& ctx1.game.turn == ctx0.game.turn + 1
                        &&& ctx1.game.state == ctx0.game.state
                        &&& ctx1.game.board@ == map_after_move(ctx0.game.board@, m)
                        &&& ctx1.game.board.dimension == ctx0.game.board.dimension
                        &&& ctx1.game.board.dead_of(Color::White) == dead_after_move(
                            ctx0.game.board,
                            m,
                            Color::White,
                        )
                        &&& ctx1.game.board.dead_of(Color::Black) == dead_after_move(
                            ctx0.game.board,
                            m,
                            Color::Black,
                        )
                        &&& turn_event == Some(spec_playing_color((ctx0.game.turn + 1) as u32))
                        &&& (resp matches Response::Success { result, .. } && result.player_color
                            is None && result.turn == ctx0.game.turn + 1 && result.board@
                            == spec_print_board(
                            ctx1.game.board@,
                            ctx0.game.board.dimension,
                            spec_playing_color(ctx0.game.turn),
                        ) && result.game_state == ctx0.game.state)
                    },
                },
            }
        },
    }
}

/// Checks the validity of a submitted credential and, on success, makes
/// the caller's address the one allowed to act for the named identity.
pub fn password(addr: Addr, ctx: &mut Context, params: &Params) -> (r: (Response, Option<Addr>))
    requires
        old(ctx).wf(),
    ensures
        final(ctx).wf(),
        password_spec(*old(ctx), addr, params@, *final(ctx), r.0, r.1),
{
    if params.len() == 0 {
        let error = JsonRpcError {
            code: INVALID_PARAMS,
            message: String::from_str("Invalid Params"),
            data: None,
        };
        return (Response::error(error, None), None);
    }
    let credential = match &params[0] {
        Value::Str(s) => s,
        _ => {
            let error = JsonRpcError {
                code: INVALID_PARAMS,
                message: String::from_str("Invalid Params"),
                data: None,
            };
            return (Response::error(error, None), None);
        },
    };
    let (outcome, evicted) = authenticate(&ctx.passwords, &mut ctx.auth, credential, addr);
    match outcome {
        Ok(color) => {
            let chess_response = ChessResponse {
                player_color: Some(color),
                turn: ctx.game.turn,
                board: ctx.game.print_board(color),
                game_state: ctx.game.state,
            };
            (Response::success(chess_response, None), evicted)
        },
        Err(_) => {
            let error = JsonRpcError {
                code: INVALID_CREDENTIAL,
                message: String::from_str("Incorrect password"),
                data: None,
            };
            (Response::error(error, None), None)
        },
    }
}

/// Updates the board with a movement submitted by the client; the second
/// result is the turn event to publish after a completed movement.
pub fn movement(addr: Addr, ctx: &mut Context, params: &Params) -> (r: (Response, Option<Color>))
    requires
        old(ctx).wf(),
        old(ctx).game.turn < u32::MAX,
    ensures
        final(ctx).wf(),
        movement_spec(*old(ctx), params@, *final(ctx), r.0, r.1),
{
    let _ = addr;
    if params.len() == 0 {
        let error = JsonRpcError {
            code: INVALID_PARAMS,
            message: String::from_str("Invalid Params"),
            data: None,
        };
        return (Response::error(error, None), None);
    }
    let command = match &params[0] {
        Value::Str(s) => s,
        _ => {
            let error = JsonRpcError {
                code: INVALID_PARAMS,
                message: String::from_str("Invalid Params"),
                data: None,
            };
            return (Response::error(error, None), None);
        },
    };
    match ctx.game.move_piece(command.clone()) {
        Ok(_) => {
            let playing_color = Game::static_playing_color(ctx.game.turn);
            let chess_response = ChessResponse {
                player_color: None,
                turn: ctx.game.turn,
                board: ctx.game.print_board(playing_color.other()),
                game_state: ctx.game.state,
            };
            proof {
                let t0 = old(ctx).game.turn;
                assert(spec_playing_color((t0 + 1) as u32).spec_other() == spec_playing_color(t0))
                    by {
                    assert(((t0 + 1) as u32) % 2 != t0 % 2);
                }
            }
            (Response::success(chess_response, None), Some(playing_color))
        },
        Err(err) => {
            let message = err.message();
            let error = JsonRpcError { code: INVALID_PARAMS, message, data: None };
            (Response::error(error, None), None)
        },
    }
}

/// The identity an address currently holds in the ownership table.
pub open spec fn addr_color(auth: Authentication, addr: Addr) -> Option<Color> {
    if auth.white_addr == Some(addr) {
        Some(Color::White)
    } else if auth.black_addr == Some(addr) {
        Some(Color::Black)
    } else {
        None
    }
}

/// What the `wait_for_turn` handler does: it never changes the state; a
/// caller that holds an identity gets a snapshot naming it, and its
/// connection then watches the turn bus for that identity; a caller with
/// no identity has no turn to wait for and is refused.
pub open spec fn wait_for_turn_spec(
    ctx0: Context,
    addr: Addr,
    ctx1: Context,
    resp: Response,
) -> bool {
    ctx1 == ctx0 && match addr_color(ctx0.auth, addr) {
        Some(color) => resp matches Response::Success { result, .. } && result.player_color
            == Some(color) && result.turn == ctx0.game.turn && result.board@ == spec_print_board(
            ctx0.game.board@,
            ctx0.game.board.dimension,
            color,
        ) && result.game_state == ctx0.game.state,
        None => failed_auth_response(resp),
    }
}

/// Answers a request to be notified of the caller's turn: the caller's
/// connection will watch the turn bus for the identity this snapshot
/// names. No authorization check guards this method, since the watcher
/// only ever resumes on the identity the caller already holds.
pub fn wait_for_turn(addr: Addr, ctx: &mut Context, params: &Params) -> (r: Response)
    requires
        old(ctx).wf(),
    ensures
        final(ctx).wf(),
        wait_for_turn_spec(*old(ctx), addr, *final(ctx), r),
{
    let _ = params;
    let color = {
        let white_holds = match ctx.auth.white_addr {
            Some(a) => a == addr,
            None => false,
        };
        let black_holds = match ctx.auth.black_addr {
            Some(a) => a == addr,
            None => false,
        };
        if white_holds {
            Some(Color::White)
        } else if black_holds {
            Some(Color::Black)
        } else {
            None
        }
    };
    match color {
        Some(color) => {
            let chess_response = ChessResponse {
                player_color: Some(color),
                turn: ctx.game.turn,
                board: ctx.game.print_board(color),
                game_state: ctx.game.state,
            };
            Response::success(chess_response, None)
        },
        None => {
            let error = JsonRpcError {
                code: FAILED_AUTH,
                message: String::from_str("Failed authentication"),
                data: None,
            };
            Response::error(error, None)
        },
    }
}

/// The registry entry a method name resolves to: the first row whose name
/// matches.
pub open spec fn spec_find(methods: Seq<MethodEntry>, name: Seq<char>) -> Option<MethodEntry>
    decreases methods.len(),
{
    if methods.len() == 0 {
        None
    } else if methods[0].name@ == name {
        Some(methods[0])
    } else {
        spec_find(methods.drop_first(), name)
    }
}

/// The caller's address is the one bound to the identity whose turn it
/// is: the turn-scoped authorization of spec methods.
pub open spec fn spec_authorized(ctx: Context, addr: Addr) -> bool {
    ctx.auth.spec_addr_of(spec_playing_color(ctx.game.turn)) == Some(addr)
}

/// Turn-scoped authorization: a caller whose address is bound to the
/// identity whose turn it is not — and differs from the turn owner's
/// address — is refused; `call_method` then answers an authorization-gated
/// call with the failed-authorization error and changes nothing.
pub proof fn lemma_turn_scoped_auth(ctx: Context, caller: Addr)
    requires
        ctx.auth.spec_addr_of(spec_playing_color(ctx.game.turn).spec_other()) == Some(caller),
        ctx.auth.spec_addr_of(spec_playing_color(ctx.game.turn)) != Some(caller),
    ensures
        !spec_authorized(ctx, caller),
{
}

/// An error response that reports an unknown method name.
pub open spec fn method_not_found_response(resp: Response) -> bool {
    resp matches Response::Error { error, .. } && error.code == METHOD_NOT_FOUND && error.message@
        == "Method not found"@ && error.data is None
}

/// An error response that reports a refused authorization.
pub open spec fn failed_auth_response(resp: Response) -> bool {
    resp matches Response::Error { error, .. } && error.code == FAILED_AUTH && error.message@
        == "Failed authentication"@ && error.data is None
}

/// What a dispatched call publishes: at most one turn event and at most
/// one eviction notice.
#[derive(Debug)]
pub struct Effects {
    pub turn_event: Option<Color>,
    pub eviction: Option<Addr>,
}

/// The dispatcher: the method registry and the shared context the
/// handlers run against.
#[derive(Debug)]
pub struct Rpc {
    pub methods: Vec<MethodEntry>,
    pub ctx: Context,
}

impl Rpc {
    /// A dispatcher with no methods registered yet.
    pub fn new(ctx: Context) -> (r: Rpc)
        ensures
            r.methods@.len() == 0,
            r.ctx == ctx,
    {
        Rpc { methods: Vec::new(), ctx }
    }

    /// Registers a method under its wire name; registration happens once
    /// at startup.
    pub fn register_method(&mut self, name: String, method: MethodKind, auth: bool)
        ensures
            final(self).methods@ == old(self).methods@.push(
                MethodEntry { name, method, requires_auth: auth },
            ),
            final(self).ctx == old(self).ctx,
    {
        self.methods.push(MethodEntry { name, method, requires_auth: auth });
    }

    /// Resolves a method name in the registry.
    fn find(&self, name: &String) -> (r: Option<(MethodKind, bool)>)
        ensures
            r == (match spec_find(self.methods@, name@) {
                Some(e) => Some((e.method, e.requires_auth)),
                None => None::<(MethodKind, bool)>,
            }),
    {
        let mut i: usize = 0;
        proof {
            assert(self.methods@.skip(0) =~= self.methods@);
        }
        while i < self.methods.len()
            invariant
                0 <= i <= self.methods@.len(),
                spec_find(self.methods@, name@) == spec_find(
                    self.methods@.skip(i as int),
                    name@,
                ),
            decreases self.methods@.len() - i,
        {
            proof {
                assert(self.methods@.skip(i as int)[0] == self.methods@[i as int]);
                assert(self.methods@.skip(i as int).drop_first() =~= self.methods@.skip(i + 1));
            }
            if self.methods[i].name.eq(name) {
                return Some((self.methods[i].method, self.methods[i].requires_auth));
            }
            i = i + 1;
        }
        proof {
            assert(self.methods@.skip(self.methods@.len() as int) =~= Seq::<MethodEntry>::empty());
        }
        None
    }

    /// The turn-scoped authorization check: the caller must hold the
    /// identity whose turn it is.
    pub fn auth(&self, addr: Addr) -> (r: bool)
        ensures
            r == spec_authorized(self.ctx, addr),
    {
        let color_turn = Game::static_playing_color(self.ctx.game.turn);
        match self.ctx.auth.addr_of(color_turn) {
            Some(valid_addr) => valid_addr == addr,
            None => false,
        }
    }

    /// Dispatches one call: resolves the method name, applies the
    /// turn-scoped authorization gate where the method demands it, runs
    /// the handler, and stamps the response with the request's id.
    pub fn call_method(&mut self, addr: Addr, id: Id, name: &String, params: Params) -> (r: (
        Response,
        Effects,
    ))
        requires
            old(self).ctx.wf(),
            old(self).ctx.game.turn < u32::MAX,
        ensures
            final(self).ctx.wf(),
            final(self).methods == old(self).methods,
            r.0.spec_id() == id,
            match spec_find(old(self).methods@, name@) {
                None => method_not_found_response(r.0) && *final(self) == *old(self)
                    && r.1.turn_event is None && r.1.eviction is None,
                Some(entry) => {
                    if entry.requires_auth && !spec_authorized(old(self).ctx, addr) {
                        failed_auth_response(r.0) && *final(self) == *old(self)
                            && r.1.turn_event is None && r.1.eviction is None
                    } else {
                        match entry.method {
                            MethodKind::Password => password_spec(
                                old(self).ctx,
                                addr,
                                params@,
                                final(self).ctx,
                                r.0,
                                r.1.eviction,
                            ) && r.1.turn_event is None,
                            MethodKind::Movement => movement_spec(
                                old(self).ctx,
                                params@,
                                final(self).ctx,
                                r.0,
                                r.1.turn_event,
                            ) && r.1.eviction is None,
                            MethodKind::WaitForTurn => wait_for_turn_spec(
                                old(self).ctx,
                                addr,
                                final(self).ctx,
                                r.0,
                            ) && r.1.turn_event is None && r.1.eviction is None,
                        }
                    }
                },
            },
    {
        let (method, requires_auth) = match self.find(name) {
            Some(entry) => entry,
            None => {
                let error = JsonRpcError {
                    code: METHOD_NOT_FOUND,
                    message: String::from_str("Method not found"),
                    data: None,
                };
                return (
                    Response::error(error, Some(id)),
                    Effects { turn_event: None, eviction: None },
                );
            },
        };
        if requires_auth && !self.auth(addr) {
            let error = JsonRpcError {
                code: FAILED_AUTH,
                message: String::from_str("Failed authentication"),
                data: None,
            };
            return (Response::error(error, Some(id)), Effects { turn_event: None, eviction: None });
        }
        match method {
            MethodKind::Password => {
                let (mut response, eviction) = password(addr, &mut self.ctx, &params);
                response.set_id(id);
                (response, Effects { turn_event: None, eviction })
            },
            MethodKind::Movement => {
                let (mut response, turn_event) = movement(addr, &mut self.ctx, &params);
                response.set_id(id);
                (response, Effects { turn_event, eviction: None })
            },
            MethodKind::WaitForTurn => {
                let mut response = wait_for_turn(addr, &mut self.ctx, &params);
                response.set_id(id);
                (response, Effects { turn_event: None, eviction: None })
            },
        }
    }
}

/// Creates the dispatcher and registers its methods: `password` and
/// `waitForTurn` without the authorization gate, `movement` behind it.
pub fn rpc(ctx: Context) -> (r: Rpc)
    ensures
        r.ctx == ctx,
        r.methods@.len() == 3,
        r.methods@[0].name@ == "password"@,
        r.methods@[0].method == MethodKind::Password,
        !r.methods@[0].requires_auth,
        r.methods@[1].name@ == "movement"@,
        r.methods@[1].method == MethodKind::Movement,
        r.methods@[1].requires_auth,
        r.methods@[2].name@ == "waitForTurn"@,
        r.methods@[2].method == MethodKind::WaitForTurn,
        !r.methods@[2].requires_auth,
{
    let mut rpc = Rpc::new(ctx);
    rpc.register_method(String::from_str("password"), MethodKind::Password, false);
    rpc.register_method(String::from_str("movement"), MethodKind::Movement, true);
    rpc.register_method(String::from_str("waitForTurn"), MethodKind::WaitForTurn, false);
    rpc
}

} // verus!
