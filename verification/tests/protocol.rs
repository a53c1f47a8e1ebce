use chess_server::board::{Board, MovementError, Position};
use chess_server::bus::Bus;
use chess_server::codec::{decode_request, encode_request, encode_response};
use chess_server::conn::{
    classify_incoming, conn_step, notify_turn, turn_event_matches, ConnAction, ConnEvent,
    ConnState, Server,
};
use chess_server::game::Game;
use chess_server::json::{
    JsonRpcError, Request, Response, Value, CONNECTION_CLOSED_BY_SERVER, FAILED_AUTH,
    INVALID_CREDENTIAL, INVALID_PARAMS, METHOD_NOT_FOUND,
};
use chess_server::pieces::{Color, PieceFactory, PlacedPiece, Rook};
use chess_server::rpc::{rpc, Context, Rpc};
use chess_server::session::{Addr, Authentication, Passwords};

fn addr(ip3: u8, port: u16) -> Addr {
    Addr { ip0: 127, ip1: 0, ip2: 0, ip3, port }
}

fn standard_context() -> Context {
    let board = Board::new(Position { x: 7, y: 7 }, None);
    let mut game = Game::new(board);
    game.set_board();
    game.start();
    Context {
        passwords: Passwords { white: "white".to_string(), black: "black".to_string() },
        auth: Authentication { white_addr: None, black_addr: None },
        game,
    }
}

fn standard_rpc() -> Rpc {
    rpc(standard_context())
}

fn str_params(s: &str) -> Vec<Value> {
    vec![Value::Str(s.to_string())]
}

fn error_code(response: &Response) -> i32 {
    match response.result() {
        Err((err, _)) => err.code,
        Ok(_) => panic!("expected an error response"),
    }
}

fn response_id(response: &Response) -> u32 {
    match response.result() {
        Ok((_, id)) => id,
        Err((_, id)) => id,
    }
}

#[test]
fn id_echo_on_every_response() {
    // P1: the response's id always echoes the request's id.
    let mut server = standard_rpc();
    let a = addr(1, 9001);

    let (resp, _) = server.call_method(a, 42, &"no_such_method".to_string(), vec![]);
    assert_eq!(response_id(&resp), 42);

    let (resp, _) = server.call_method(a, 7, &"password".to_string(), str_params("white"));
    assert_eq!(response_id(&resp), 7);

    let (resp, _) = server.call_method(a, 9, &"password".to_string(), str_params("bogus"));
    assert_eq!(response_id(&resp), 9);

    let (resp, _) = server.call_method(a, 11, &"movement".to_string(), str_params("e2e4"));
    assert_eq!(response_id(&resp), 11);
}

#[test]
fn unknown_method_yields_method_not_found() {
    // P2: an unregistered name always gives MethodNotFound with the same id,
    // whatever the parameters.
    let mut server = standard_rpc();
    let a = addr(1, 9001);

    let (resp, _) = server.call_method(a, 5, &"teleport".to_string(), vec![]);
    assert_eq!(error_code(&resp), METHOD_NOT_FOUND);
    assert_eq!(response_id(&resp), 5);

    let (resp, _) = server.call_method(
        a,
        6,
        &"teleport".to_string(),
        vec![Value::Null, Value::UInt(3), Value::Str("e2e4".to_string())],
    );
    assert_eq!(error_code(&resp), METHOD_NOT_FOUND);
    assert_eq!(response_id(&resp), 6);
}

#[test]
fn exclusive_ownership_on_takeover() {
    // P3: two successful authentications with the same credential bind the
    // identity to the second address only, and exactly the first address is
    // evicted.
    let mut server = standard_rpc();
    let a = addr(1, 9001);
    let b = addr(2, 9002);

    let (resp, effects) = server.call_method(a, 1, &"password".to_string(), str_params("white"));
    assert!(resp.is_success());
    assert_eq!(effects.eviction, None);
    assert_eq!(server.ctx.auth.white_addr, Some(a));

    let (resp, effects) = server.call_method(b, 2, &"password".to_string(), str_params("white"));
    assert!(resp.is_success());
    assert_eq!(effects.eviction, Some(a));
    assert_eq!(server.ctx.auth.white_addr, Some(b));
    assert_eq!(server.ctx.auth.black_addr, None);
}

#[test]
fn rebinding_same_address_evicts_nobody() {
    let mut server = standard_rpc();
    let a = addr(1, 9001);

    let (_, effects) = server.call_method(a, 1, &"password".to_string(), str_params("white"));
    assert_eq!(effects.eviction, None);
    let (resp, effects) = server.call_method(a, 2, &"password".to_string(), str_params("white"));
    assert!(resp.is_success());
    assert_eq!(effects.eviction, None);
    assert_eq!(server.ctx.auth.white_addr, Some(a));
}

#[test]
fn turn_scoped_authorization_refuses_the_other_player() {
    // P4: with White to move, a movement from the address bound to Black is
    // refused and the game does not change.
    let mut server = standard_rpc();
    let a = addr(1, 9001);
    let b = addr(2, 9002);

    let (resp, _) = server.call_method(a, 1, &"password".to_string(), str_params("white"));
    assert!(resp.is_success());
    let (resp, _) = server.call_method(b, 2, &"password".to_string(), str_params("black"));
    assert!(resp.is_success());

    let turn_before = server.ctx.game.turn;
    let (resp, effects) = server.call_method(b, 3, &"movement".to_string(), str_params("e2e4"));
    assert_eq!(error_code(&resp), FAILED_AUTH);
    assert_eq!(response_id(&resp), 3);
    assert_eq!(server.ctx.game.turn, turn_before);
    assert!(effects.turn_event.is_none());
    // The pawn that would have moved still stands on its opening square.
    assert!(server.ctx.game.board.pick_piece(Position { x: 4, y: 1 }).is_some());
}

#[test]
fn movement_without_authentication_is_refused() {
    let mut server = standard_rpc();
    let a = addr(1, 9001);
    let (resp, _) = server.call_method(a, 1, &"movement".to_string(), str_params("e2e4"));
    assert_eq!(error_code(&resp), FAILED_AUTH);
}

#[test]
fn turn_handoff_wakes_exactly_the_right_waiter() {
    // P5: after White's movement, the waiter for Black gets exactly one
    // update and a third subscriber waiting for White gets none.
    let mut server = Server {
        rpc: standard_rpc(),
        turn_bus: Bus::new(),
        evict_bus: Bus::new(),
    };
    let a = addr(1, 9001);
    let b = addr(2, 9002);

    // C2 (White, to move) and C1 (Black) authenticate.
    let (_, actions) =
        conn_step(&mut server, ConnState::Unauthenticated, a, request_event("password", "white", 1));
    assert!(matches!(actions[1], ConnAction::SpawnTurnWatcher(Color::White)));
    let (_, actions) =
        conn_step(&mut server, ConnState::Unauthenticated, b, request_event("password", "black", 2));
    assert!(matches!(actions[1], ConnAction::SpawnTurnWatcher(Color::Black)));

    // The watchers subscribe: C1 waits for Black, the third for White.
    let h1 = server.turn_bus.subscribe();
    let h3 = server.turn_bus.subscribe();

    // C2 moves; the one published event names the new turn owner, Black.
    let (_, actions) = conn_step(
        &mut server,
        ConnState::Authenticated(Color::White),
        a,
        request_event("movement", "e2e4", 3),
    );
    assert!(matches!(&actions[0], ConnAction::Write(resp) if resp.is_success()));

    // C1's watcher: exactly one matching event, so exactly one update.
    let mut updates_c1 = 0;
    while let Some(event) = server.turn_bus.recv(h1) {
        if turn_event_matches(Color::Black, event) {
            let update = notify_turn(&server.rpc.ctx, Color::Black);
            assert!(update.is_success());
            updates_c1 += 1;
        }
    }
    assert_eq!(updates_c1, 1);

    // The third subscriber waits for White and is not woken.
    let mut updates_c3 = 0;
    while let Some(event) = server.turn_bus.recv(h3) {
        if turn_event_matches(Color::White, event) {
            updates_c3 += 1;
        }
    }
    assert_eq!(updates_c3, 0);
}

fn request_event(method: &str, param: &str, id: u32) -> ConnEvent {
    ConnEvent::Request(Request::new(method.to_string(), str_params(param), Some(id)))
}

#[test]
fn scenario_a_authenticate_and_move() {
    // Scenario A: "white" authenticates 127.0.0.1:9001 as White; an
    // immediate e2e4 from that address succeeds and the turn flips to Black.
    let mut server = standard_rpc();
    let a = addr(1, 9001);

    let (resp, _) = server.call_method(a, 1, &"password".to_string(), str_params("white"));
    match resp.result() {
        Ok((result, _)) => assert_eq!(result.player_color, Some(Color::White)),
        Err(_) => panic!("authentication should succeed"),
    }

    assert_eq!(Game::static_playing_color(server.ctx.game.turn), Color::White);
    let (resp, effects) = server.call_method(a, 2, &"movement".to_string(), str_params("e2e4"));
    assert!(resp.is_success());
    assert_eq!(Game::static_playing_color(server.ctx.game.turn), Color::Black);
    assert_eq!(effects.turn_event, Some(Color::Black));
}

#[test]
fn scenario_b_bogus_credential() {
    // Scenario B: a wrong credential is refused and the ownership table
    // does not change.
    let mut server = standard_rpc();
    let a = addr(1, 9001);

    let (resp, effects) = server.call_method(a, 1, &"password".to_string(), str_params("bogus"));
    assert_eq!(error_code(&resp), INVALID_CREDENTIAL);
    assert_eq!(effects.eviction, None);
    assert_eq!(server.ctx.auth.white_addr, None);
    assert_eq!(server.ctx.auth.black_addr, None);
}

#[test]
fn scenario_c_takeover_preempts_the_old_connection() {
    // Scenario C: B re-authenticates with White's credential; A's connection
    // is told it was closed by the server and emits nothing afterwards.
    let mut server = Server {
        rpc: standard_rpc(),
        turn_bus: Bus::new(),
        evict_bus: Bus::new(),
    };
    let a = addr(1, 9001);
    let b = addr(2, 9002);
    let evict_a = server.evict_bus.subscribe();

    let (state_a, _) =
        conn_step(&mut server, ConnState::Unauthenticated, a, request_event("password", "white", 1));
    assert_eq!(state_a, ConnState::Authenticated(Color::White));

    let (state_b, _) =
        conn_step(&mut server, ConnState::Unauthenticated, b, request_event("password", "white", 2));
    assert_eq!(state_b, ConnState::Authenticated(Color::White));

    // A's task sees the eviction notice before it can serve another call.
    let notice = server.evict_bus.recv(evict_a);
    assert_eq!(notice, Some(a));
    let (state_a, actions) = conn_step(&mut server, state_a, a, ConnEvent::Eviction(a));
    assert_eq!(state_a, ConnState::Evicted);
    assert_eq!(actions.len(), 2);
    match &actions[0] {
        ConnAction::Write(resp) => assert_eq!(error_code(resp), CONNECTION_CLOSED_BY_SERVER),
        _ => panic!("the first action is the closing notice"),
    }
    assert!(matches!(actions[1], ConnAction::Close));

    // A well-formed movement from A after eviction is never answered.
    let (state_a, actions) = conn_step(&mut server, state_a, a, request_event("movement", "e2e4", 3));
    assert_eq!(state_a, ConnState::Closed);
    assert!(actions.is_empty());
}

#[test]
fn eviction_for_another_address_changes_nothing() {
    let mut server = Server {
        rpc: standard_rpc(),
        turn_bus: Bus::new(),
        evict_bus: Bus::new(),
    };
    let a = addr(1, 9001);
    let b = addr(2, 9002);
    let (state, actions) =
        conn_step(&mut server, ConnState::Authenticated(Color::White), a, ConnEvent::Eviction(b));
    assert_eq!(state, ConnState::Authenticated(Color::White));
    assert!(actions.is_empty());
}

#[test]
fn read_failure_terminates_the_task() {
    let mut server = Server {
        rpc: standard_rpc(),
        turn_bus: Bus::new(),
        evict_bus: Bus::new(),
    };
    let a = addr(1, 9001);
    let (state, actions) =
        conn_step(&mut server, ConnState::Unauthenticated, a, ConnEvent::ReadError);
    assert_eq!(state, ConnState::Closed);
    assert_eq!(actions.len(), 1);
    assert!(matches!(actions[0], ConnAction::Close));
}

#[test]
fn malformed_message_terminates_the_task() {
    let mut server = Server {
        rpc: standard_rpc(),
        turn_bus: Bus::new(),
        evict_bus: Bus::new(),
    };
    let a = addr(1, 9001);
    let event = classify_incoming("this is not a request");
    assert!(matches!(event, ConnEvent::Malformed));
    let (state, actions) = conn_step(&mut server, ConnState::Unauthenticated, a, event);
    assert_eq!(state, ConnState::Closed);
    assert!(matches!(actions[0], ConnAction::Close));
}

#[test]
fn wait_for_turn_names_the_callers_identity() {
    let mut server = standard_rpc();
    let a = addr(1, 9001);
    let b = addr(2, 9002);

    // A caller with no identity has no turn to wait for.
    let (resp, _) = server.call_method(b, 1, &"waitForTurn".to_string(), vec![]);
    assert_eq!(error_code(&resp), FAILED_AUTH);

    let (resp, _) = server.call_method(a, 2, &"password".to_string(), str_params("white"));
    assert!(resp.is_success());
    let (resp, effects) = server.call_method(a, 3, &"waitForTurn".to_string(), vec![]);
    match resp.result() {
        Ok((result, id)) => {
            assert_eq!(result.player_color, Some(Color::White));
            assert_eq!(id, 3);
        },
        Err(_) => panic!("a bound caller may wait for its turn"),
    }
    assert!(effects.turn_event.is_none());
    assert!(effects.eviction.is_none());

    // Through the connection machine, the call starts the turn watcher.
    let mut full = Server { rpc: standard_rpc(), turn_bus: Bus::new(), evict_bus: Bus::new() };
    let (_, _) =
        conn_step(&mut full, ConnState::Unauthenticated, a, request_event("password", "white", 1));
    let (state, actions) = conn_step(
        &mut full,
        ConnState::Authenticated(Color::White),
        a,
        ConnEvent::Request(Request::new("waitForTurn".to_string(), vec![], Some(2))),
    );
    assert_eq!(state, ConnState::Authenticated(Color::White));
    assert!(matches!(actions[1], ConnAction::SpawnTurnWatcher(Color::White)));
}

#[test]
fn invalid_params_are_reported() {
    let mut server = standard_rpc();
    let a = addr(1, 9001);

    let (resp, _) = server.call_method(a, 1, &"password".to_string(), vec![]);
    assert_eq!(error_code(&resp), INVALID_PARAMS);

    let (resp, _) = server.call_method(a, 2, &"password".to_string(), vec![Value::UInt(4)]);
    assert_eq!(error_code(&resp), INVALID_PARAMS);
}

#[test]
fn illegal_movement_is_wrapped_as_invalid_params() {
    let mut server = standard_rpc();
    let a = addr(1, 9001);
    let (resp, _) = server.call_method(a, 1, &"password".to_string(), str_params("white"));
    assert!(resp.is_success());

    // A rook cannot jump over the pawn row.
    let (resp, effects) = server.call_method(a, 2, &"movement".to_string(), str_params("a1a4"));
    match resp.result() {
        Err((err, id)) => {
            assert_eq!(err.code, INVALID_PARAMS);
            assert_eq!(err.message, "Blocked path");
            assert_eq!(id, 2);
        },
        Ok(_) => panic!("the movement must be refused"),
    }
    assert!(effects.turn_event.is_none());
    assert_eq!(server.ctx.game.turn, 0);

    // A command that does not parse reports itself.
    let (resp, _) = server.call_method(a, 3, &"movement".to_string(), str_params("xx"));
    match resp.result() {
        Err((err, _)) => {
            assert_eq!(err.message, "\"xx\" is not a valid movement command");
        },
        Ok(_) => panic!("the command must be refused"),
    }
}

#[test]
fn movement_error_messages() {
    assert_eq!(MovementError::OutOfBounds.message(), "Out of bounds");
    assert_eq!(MovementError::BlockedPath.message(), "Blocked path");
    assert_eq!(MovementError::IllegalMovement.message(), "Illegal movement");
    assert_eq!(MovementError::Check.message(), "That would be check");
    assert_eq!(
        MovementError::NoPiece.message(),
        "There is not any piece in that square"
    );
    assert_eq!(
        MovementError::WrongCommand("e9".to_string()).message(),
        "\"e9\" is not a valid movement command"
    );
    assert_eq!(
        MovementError::WrongPiece(Color::Black).message(),
        "You can not play Black pieces"
    );
}

#[test]
fn board_movement_errors() {
    let mut board = Board::new(Position { x: 7, y: 7 }, None);
    let movement = chess_server::board::Movement {
        from: Position { x: 0, y: 0 },
        to: Position { x: 0, y: 1 },
    };
    assert!(matches!(
        board.move_piece(Color::White, &movement),
        Err(MovementError::NoPiece)
    ));

    board.add_pieces(vec![(Position { x: 0, y: 0 }, PieceFactory::create::<Rook>(Color::White))]);
    let out = chess_server::board::Movement {
        from: Position { x: 0, y: 0 },
        to: Position { x: 0, y: 9 },
    };
    assert!(matches!(
        board.move_piece(Color::White, &out),
        Err(MovementError::OutOfBounds)
    ));
    let up = chess_server::board::Movement {
        from: Position { x: 0, y: 0 },
        to: Position { x: 0, y: 3 },
    };
    assert!(matches!(
        board.move_piece(Color::Black, &up),
        Err(MovementError::WrongPiece(Color::White))
    ));
    assert!(board.move_piece(Color::White, &up).is_ok());
}

#[test]
fn movement_commands_are_trimmed() {
    let mut server = standard_rpc();
    let a = addr(1, 9001);
    let (resp, _) = server.call_method(a, 1, &"password".to_string(), str_params("white"));
    assert!(resp.is_success());
    let (resp, _) = server.call_method(a, 2, &"movement".to_string(), str_params("  e2e4\n"));
    assert!(resp.is_success());
    assert_eq!(server.ctx.game.turn, 1);
}

#[test]
fn encode_request_canonical_text() {
    let request =
        Request::new("password".to_string(), vec![Value::Str("white".to_string())], Some(1));
    assert_eq!(
        encode_request(&request),
        "{\"jsonrpc\":\"2.0\",\"method\":\"password\",\"params\":[\"white\"],\"id\":1}"
    );

    let request = Request::new(
        "probe".to_string(),
        vec![
            Value::Null,
            Value::Bool(true),
            Value::Bool(false),
            Value::UInt(42),
            Value::Str("a\"b\\c\nd".to_string()),
        ],
        Some(4294967295),
    );
    assert_eq!(
        encode_request(&request),
        "{\"jsonrpc\":\"2.0\",\"method\":\"probe\",\"params\":[null,true,false,42,\"a\\\"b\\\\c\\nd\"],\"id\":4294967295}"
    );
}

#[test]
fn decode_request_round_trip() {
    let request = Request::new(
        "probe".to_string(),
        vec![Value::Null, Value::Bool(false), Value::UInt(7), Value::Str("e2 e4\n".to_string())],
        Some(31),
    );
    let text = encode_request(&request);
    let decoded = decode_request(&text).expect("the encoder's output decodes");
    assert_eq!(decoded.method, "probe");
    assert_eq!(decoded.id, 31);
    assert_eq!(decoded.params.len(), 4);
    assert!(matches!(decoded.params[0], Value::Null));
    assert!(matches!(decoded.params[1], Value::Bool(false)));
    assert!(matches!(decoded.params[2], Value::UInt(7)));
    match &decoded.params[3] {
        Value::Str(s) => assert_eq!(s, "e2 e4\n"),
        _ => panic!("the fourth parameter is a string"),
    }
    // And the decoded request re-encodes to the same text.
    assert_eq!(encode_request(&decoded), text);
}

#[test]
fn decode_request_empty_params() {
    let decoded =
        decode_request("{\"jsonrpc\":\"2.0\",\"method\":\"waitForTurn\",\"params\":[],\"id\":0}")
            .expect("an empty parameter list decodes");
    assert_eq!(decoded.method, "waitForTurn");
    assert_eq!(decoded.params.len(), 0);
    assert_eq!(decoded.id, 0);
}

#[test]
fn decode_request_refuses_malformed_text() {
    assert!(decode_request("").is_err());
    assert!(decode_request("nonsense").is_err());
    assert!(decode_request("{\"jsonrpc\":\"1.0\",\"method\":\"m\",\"params\":[],\"id\":1}").is_err());
    // Trailing bytes, a missing id, a leading zero and an overflowing id are refused.
    assert!(decode_request("{\"jsonrpc\":\"2.0\",\"method\":\"m\",\"params\":[],\"id\":1}x").is_err());
    assert!(decode_request("{\"jsonrpc\":\"2.0\",\"method\":\"m\",\"params\":[]}").is_err());
    assert!(decode_request("{\"jsonrpc\":\"2.0\",\"method\":\"m\",\"params\":[],\"id\":01}").is_err());
    assert!(decode_request(
        "{\"jsonrpc\":\"2.0\",\"method\":\"m\",\"params\":[],\"id\":4294967296}"
    )
    .is_err());
}

#[test]
fn encode_response_canonical_text() {
    let error = JsonRpcError {
        code: METHOD_NOT_FOUND,
        message: "Method not found".to_string(),
        data: None,
    };
    let response = Response::error(error, Some(7));
    assert_eq!(
        encode_response(&response),
        "{\"jsonrpc\":\"2.0\",\"error\":{\"code\":-32601,\"message\":\"Method not found\",\"data\":null},\"id\":7}"
    );

    let snapshot = chess_server::json::ChessResponse {
        player_color: Some(Color::White),
        turn: 3,
        board: "K\n".to_string(),
        game_state: chess_server::game::GameState::OnGoing,
    };
    let response = Response::success(snapshot, Some(2));
    assert_eq!(
        encode_response(&response),
        "{\"jsonrpc\":\"2.0\",\"result\":{\"player_color\":\"White\",\"turn\":3,\"board\":\"K\\n\",\"game_state\":\"OnGoing\"},\"id\":2}"
    );

    // A snapshot that names no color omits the field.
    let snapshot = chess_server::json::ChessResponse {
        player_color: None,
        turn: 0,
        board: String::new(),
        game_state: chess_server::game::GameState::Ready,
    };
    let response = Response::success(snapshot, Some(0));
    assert_eq!(
        encode_response(&response),
        "{\"jsonrpc\":\"2.0\",\"result\":{\"turn\":0,\"board\":\"\",\"game_state\":\"Ready\"},\"id\":0}"
    );
}

#[test]
fn classify_incoming_accepts_the_wire_form() {
    let text = "{\"jsonrpc\":\"2.0\",\"method\":\"password\",\"params\":[\"white\"],\"id\":1}";
    match classify_incoming(text) {
        ConnEvent::Request(req) => {
            assert_eq!(req.method, "password");
            assert_eq!(req.id, 1);
        },
        _ => panic!("a well-formed request classifies as a request"),
    }
}

#[test]
fn wire_round_trip_through_the_connection_machine() {
    // One full exchange at the wire level: a request text is classified,
    // dispatched, and the response encodes back to canonical text.
    let mut server = Server { rpc: standard_rpc(), turn_bus: Bus::new(), evict_bus: Bus::new() };
    let a = addr(1, 9001);
    let wire = encode_request(&Request::new(
        "password".to_string(),
        str_params("white"),
        Some(5),
    ));
    let event = classify_incoming(&wire);
    let (state, actions) = conn_step(&mut server, ConnState::Unauthenticated, a, event);
    assert_eq!(state, ConnState::Authenticated(Color::White));
    match &actions[0] {
        ConnAction::Write(resp) => {
            let out = encode_response(resp);
            assert!(out.starts_with("{\"jsonrpc\":\"2.0\",\"result\":{\"player_color\":\"White\",\"turn\":0,\"board\":"));
            assert!(out.ends_with(",\"game_state\":\"OnGoing\"},\"id\":5}"));
        },
        _ => panic!("the first action writes the response"),
    }
}

#[test]
fn print_board_renders_each_side() {
    let board = Board::new(
        Position { x: 1, y: 1 },
        Some(vec![(
            Position { x: 0, y: 0 },
            PlacedPiece { kind: chess_server::pieces::PieceKind::King, color: Color::White },
        )]),
    );
    let game = Game::new(board);
    assert_eq!(game.print_board(Color::White), "2       \n1  K    \n   a  b \n");
    assert_eq!(game.print_board(Color::Black), "1     K \n2       \n   b  a \n");
}

#[test]
fn dead_pieces_records_captures() {
    let mut board = Board::new(Position { x: 7, y: 7 }, None);
    board.add_pieces(vec![
        (Position { x: 0, y: 0 }, PieceFactory::create::<Rook>(Color::White)),
        (Position { x: 0, y: 5 }, PieceFactory::create::<Rook>(Color::Black)),
    ]);
    let capture = chess_server::board::Movement {
        from: Position { x: 0, y: 0 },
        to: Position { x: 0, y: 5 },
    };
    assert!(board.move_piece(Color::White, &capture).is_ok());
    assert_eq!(board.dead_pieces(Color::Black).len(), 1);
    assert_eq!(
        board.dead_pieces(Color::Black)[0],
        PlacedPiece { kind: chess_server::pieces::PieceKind::Rook, color: Color::Black }
    );
    assert_eq!(board.dead_pieces(Color::White).len(), 0);
    assert!(board.clean().is_ok());
    assert_eq!(board.dead_pieces(Color::Black).len(), 0);
}
