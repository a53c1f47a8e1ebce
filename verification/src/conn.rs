//! The per-connection task, as a state machine: each step takes what the
//! connection observed — a message, an eviction notice, a transport
//! failure — and returns the next state and the actions the transport
//! loop must carry out.
use crate::bus::{publish_queues, queue_views, Bus};
use crate::codec::{decode_request, spec_encode_request};
use crate::json::{JsonRpcError, Request, Response, CONNECTION_CLOSED_BY_SERVER};
use crate::pieces::Color;
use crate::rpc::{
    failed_auth_response, method_not_found_response, movement_spec, params_first_str,
    password_spec, spec_authorized, spec_find, Context, MethodKind, Rpc,
};
use crate::session::{auth_step, Addr};
use crate::game::spec_playing_color;
use vstd::prelude::*;
use vstd::string::*;

verus! {

/// The lifecycle of one connection.
#[derive(PartialEq, Eq, Copy, Clone, Debug, Structural)]
pub enum ConnState {
    /// No identity granted yet; only authentication can succeed.
    Unauthenticated,
    /// The connection acts for the given player identity.
    Authenticated(Color),
    /// Superseded by a newer authentication; the closing notice is on its
    /// way out.
    Evicted,
    /// The task is over.
    Closed,
}

/// What a connection task observes.
#[derive(Debug)]
pub enum ConnEvent {
    /// A well-formed request arrived.
    Request(Request),
    /// A message arrived that does not parse; no id could be salvaged.
    Malformed,
    /// The eviction bus named an address whose connection must close.
    Eviction(Addr),
    /// The transport failed.
    ReadError,
}

/// What the transport loop must do after a step.
#[derive(Debug)]
pub enum ConnAction {
    /// Write this response to the connection.
    Write(Response),
    /// Start the watcher that pushes a snapshot when it becomes this
    /// identity's turn.
    SpawnTurnWatcher(Color),
    /// Close the transport; the task ends.
    Close,
}

/// The whole shared server state: the dispatcher and the two broadcast
/// buses.
#[derive(Debug)]
pub struct Server {
    pub rpc: Rpc,
    pub turn_bus: Bus<Color>,
    pub evict_bus: Bus<Addr>,
}

impl Server {
    /// A server whose board is in a consistent state.
    pub open spec fn wf(self) -> bool {
        self.rpc.ctx.wf()
    }
}

/// The unsolicited notice an evicted connection receives before its
/// transport closes.
pub open spec fn closed_notice(resp: Response) -> bool {
    resp matches Response::Error { error, .. } && error.code == CONNECTION_CLOSED_BY_SERVER
        && error.message@ == "Connection closed by the server"@ && error.data is None
}

/// Builds the closing notice; it answers no request, so its id is zero.
pub fn notify_close_connection() -> (r: Response)
    ensures
        closed_notice(r),
        r.spec_id() == 0,
{
    let error = JsonRpcError {
        code: CONNECTION_CLOSED_BY_SERVER,
        message: String::from_str("Connection closed by the server"),
        data: None,
    };
    Response::error(error, None)
}

/// Classifies one message read from the transport: a well-formed request
/// becomes a request event, anything else a protocol error without a
/// recoverable id.
pub fn classify_incoming(text: &str) -> (r: ConnEvent)
    ensures
        (r matches ConnEvent::Request(req) ==> text@ == spec_encode_request(req)),
        (r matches ConnEvent::Request(_)) || (r matches ConnEvent::Malformed),
{
    match decode_request(text) {
        Ok(req) => ConnEvent::Request(req),
        Err(_) => ConnEvent::Malformed,
    }
}

/// The eviction a dispatched `password` call publishes.
pub open spec fn spec_password_eviction(
    ctx0: Context,
    addr: Addr,
    params: Seq<crate::json::Value>,
) -> Option<Addr> {
    match params_first_str(params) {
        None => None,
        Some(credential) => auth_step(ctx0.passwords, ctx0.auth, credential, addr).2,
    }
}

/// The identity a dispatched `password` call grants.
pub open spec fn spec_password_granted(ctx0: Context, params: Seq<crate::json::Value>) -> Option<
    Color,
> {
    match params_first_str(params) {
        None => None,
        Some(credential) => ctx0.passwords.spec_lookup(credential),
    }
}

/// The turn event a dispatched `movement` call publishes: the new turn
/// owner after a completed movement, nothing otherwise.
pub open spec fn spec_movement_event(ctx0: Context, params: Seq<crate::json::Value>) -> Option<
    Color,
> {
    match params_first_str(params) {
        None => None,
        Some(command) => match crate::game::spec_translate(crate::text::spec_trim(command)) {
            None => None,
            Some(m) => match crate::board::spec_can_move(
                ctx0.game.board,
                spec_playing_color(ctx0.game.turn),
                m,
            ) {
                Ok(_) => Some(spec_playing_color((ctx0.game.turn + 1) as u32)),
                Err(_) => None,
            },
        },
    }
}

/// Queues after publishing an optional event.
pub open spec fn publish_opt<T>(queues: Seq<Seq<T>>, event: Option<T>) -> Seq<Seq<T>> {
    match event {
        Some(e) => publish_queues(queues, e),
        None => queues,
    }
}

/// One step of a connection task. A closed or evicted connection emits
/// nothing more. An eviction notice naming this connection's address
/// sends the closing notice and ends the task; a transport failure or an
/// unreadable message ends it silently. A request is dispatched: the one
/// response echoes its id, a successful authentication makes the task
/// authenticated and starts its turn watcher, and the dispatch's events
/// go out on the buses.
pub fn conn_step(server: &mut Server, state: ConnState, addr: Addr, event: ConnEvent) -> (r: (
    ConnState,
    Vec<ConnAction>,
))
    requires
        old(server).wf(),
        old(server).rpc.ctx.game.turn < u32::MAX,
    ensures
        final(server).wf(),
        final(server).rpc.methods == old(server).rpc.methods,
        final(server).rpc.ctx.passwords == old(server).rpc.ctx.passwords,
        (state == ConnState::Closed || state == ConnState::Evicted) ==> r.0 == ConnState::Closed
            && r.1@ == Seq::<ConnAction>::empty() && *final(server) == *old(server),
        (state != ConnState::Closed && state != ConnState::Evicted) ==> match event {
            ConnEvent::Eviction(a) => *final(server) == *old(server) && (if a == addr {
                &&& r.0 == ConnState::Evicted
                &&& r.1@.len() == 2
                &&& (r.1@[0] matches ConnAction::Write(resp) && closed_notice(resp))
                &&& r.1@[1] == ConnAction::Close
            } else {
                r.0 == state && r.1@ == Seq::<ConnAction>::empty()
            }),
            ConnEvent::ReadError => *final(server) == *old(server) && r.0 == ConnState::Closed
                && r.1@ == seq![ConnAction::Close],
            ConnEvent::Malformed => *final(server) == *old(server) && r.0 == ConnState::Closed
                && r.1@ == seq![ConnAction::Close],
            ConnEvent::Request(req) => {
                let ctx0 = old(server).rpc.ctx;
                &&& r.1@.len() >= 1
                &&& (r.1@[0] matches ConnAction::Write(resp) && resp.spec_id() == req.id)
                &&& match spec_find(old(server).rpc.methods@, req.method@) {
                    None => (r.1@[0] matches ConnAction::Write(resp) && method_not_found_response(
                        resp,
                    )) && *final(server) == *old(server) && r.0 == state && r.1@.len() == 1,
                    Some(entry) => {
                        if entry.requires_auth && !spec_authorized(ctx0, addr) {
                            (r.1@[0] matches ConnAction::Write(resp) && failed_auth_response(resp))
                                && *final(server) == *old(server) && r.0 == state && r.1@.len() == 1
                        } else {
                            match entry.method {
                                MethodKind::Password => {
                                    &&& (r.1@[0] matches ConnAction::Write(resp) && password_spec(
                                        ctx0,
                                        addr,
                                        req.params@,
                                        final(server).rpc.ctx,
                                        resp,
                                        spec_password_eviction(ctx0, addr, req.params@),
                                    ))
                                    &&& queue_views(final(server).evict_bus.queues@) == publish_opt(
                                        queue_views(old(server).evict_bus.queues@),
                                        spec_password_eviction(ctx0, addr, req.params@),
                                    )
                                    &&& final(server).turn_bus == old(server).turn_bus
                                    &&& match spec_password_granted(ctx0, req.params@) {
                                        Some(color) => r.0 == ConnState::Authenticated(color)
                                            && r.1@.len() == 2 && r.1@[1]
                                            == ConnAction::SpawnTurnWatcher(color),
                                        None => r.0 == state && r.1@.len() == 1,
                                    }
                                },
                                MethodKind::Movement => {
                                    &&& (r.1@[0] matches ConnAction::Write(resp) && movement_spec(
                                        ctx0,
                                        req.params@,
                                        final(server).rpc.ctx,
                                        resp,
                                        spec_movement_event(ctx0, req.params@),
                                    ))
                                    &&& queue_views(final(server).turn_bus.queues@) == publish_opt(
                                        queue_views(old(server).turn_bus.queues@),
                                        spec_movement_event(ctx0, req.params@),
                                    )
                                    &&& final(server).evict_bus == old(server).evict_bus
                                    &&& r.0 == state
                                    &&& r.1@.len() == 1
                                },
                                MethodKind::WaitForTurn => {
                                    &&& (r.1@[0] matches ConnAction::Write(resp)
                                        && crate::rpc::wait_for_turn_spec(
                                        ctx0,
                                        addr,
                                        final(server).rpc.ctx,
                                        resp,
                                    ))
                                    &&& final(server).turn_bus == old(server).turn_bus
                                    &&& final(server).evict_bus == old(server).evict_bus
                                    &&& match crate::rpc::addr_color(ctx0.auth, addr) {
                                        Some(color) => r.0 == ConnState::Authenticated(color)
                                            && r.1@.len() == 2 && r.1@[1]
                                            == ConnAction::SpawnTurnWatcher(color),
                                        None => r.0 == state && r.1@.len() == 1,
                                    }
                                },
                            }
                        }
                    },
                }
            },
        },
{
    match state {
        ConnState::Closed | ConnState::Evicted => (ConnState::Closed, Vec::new()),
        _ => {
            match event {
                ConnEvent::Eviction(a) => {
                    if a == addr {
                        let mut actions: Vec<ConnAction> = Vec::new();
                        actions.push(ConnAction::Write(notify_close_connection()));
                        actions.push(ConnAction::Close);
                        (ConnState::Evicted, actions)
                    } else {
                        (state, Vec::new())
                    }
                },
                ConnEvent::ReadError => {
                    let mut actions: Vec<ConnAction> = Vec::new();
                    actions.push(ConnAction::Close);
                    (ConnState::Closed, actions)
                },
                ConnEvent::Malformed => {
                    let mut actions: Vec<ConnAction> = Vec::new();
                    actions.push(ConnAction::Close);
                    (ConnState::Closed, actions)
                },
                ConnEvent::Request(req) => {
                    let (response, effects) = server.rpc.call_method(
                        addr,
                        req.id,
                        &req.method,
                        req.params,
                    );
                    if let Some(turn_event) = effects.turn_event {
                        server.turn_bus.publish(turn_event);
                    }
                    if let Some(evicted) = effects.eviction {
                        server.evict_bus.publish(evicted);
                    }
                    let granted: Option<Color> = match &response {
                        Response::Success { result, .. } => result.player_color,
                        _ => None,
                    };
                    let mut actions: Vec<ConnAction> = Vec::new();
                    actions.push(ConnAction::Write(response));
                    match granted {
                        Some(color) => {
                            actions.push(ConnAction::SpawnTurnWatcher(color));
                            (ConnState::Authenticated(color), actions)
                        },
                        None => (state, actions),
                    }
                },
            }
        },
    }
}

/// A turn event resumes the watcher exactly when it names the color the
/// watcher waits for.
pub fn turn_event_matches(want: Color, event: Color) -> (r: bool)
    ensures
        r == crate::bus::wakes(want, event),
{
    event == want
}

/// The unsolicited update a turn watcher sends when its color's turn
/// begins: a snapshot rendered for that color, answering no request.
pub fn notify_turn(ctx: &Context, color: Color) -> (r: Response)
    requires
        ctx.wf(),
    ensures
        r matches Response::Success { result, id, .. } && result.player_color is None
            && result.turn == ctx.game.turn && result.board@ == crate::game::spec_print_board(
            ctx.game.board@,
            ctx.game.board.dimension,
            color,
        ) && result.game_state == ctx.game.state && id == 0,
{
    let chess_response = crate::json::ChessResponse {
        player_color: None,
        turn: ctx.game.turn,
        board: ctx.game.print_board(color),
        game_state: ctx.game.state,
    };
    Response::success(chess_response, None)
}

} // verus!
