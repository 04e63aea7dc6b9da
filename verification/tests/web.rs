use in_season_cup::web::{
    get_audit_log_endpoint, get_cup_history_endpoint, get_next_game_endpoint, get_players, json_reply,
    method_not_allowed, not_found, route, update_not_allowed, Reply, Route,
};

fn json(status: u16, body: &str) -> Reply {
    Reply { status, json: true, allow: None, any_origin: true, body: body.to_string() }
}

#[test]
fn requests_are_routed_by_their_path() {
    for method in ["GET", "HEAD", "POST"] {
        assert_eq!(route(method, "/players"), Route::Players);
        assert_eq!(route(method, "/cup-history"), Route::CupHistory);
        assert_eq!(route(method, "/audit-log"), Route::AuditLog);
        assert_eq!(route(method, "/next-game"), Route::NextGame);
        assert_eq!(route(method, "/"), Route::NotFound);
        assert_eq!(route(method, "/players/"), Route::NotFound);
    }
}

#[test]
fn only_post_updates() {
    assert_eq!(route("POST", "/update"), Route::Update);
    assert_eq!(route("GET", "/update"), Route::UpdateNotAllowed);
    assert_eq!(route("HEAD", "/update"), Route::UpdateNotAllowed);
}

#[test]
fn other_methods_are_turned_away() {
    for method in ["OPTIONS", "PUT", "DELETE", "PATCH", "get", ""] {
        assert_eq!(route(method, "/update"), Route::MethodNotAllowed);
        assert_eq!(route(method, "/nowhere"), Route::MethodNotAllowed);
    }
}

#[test]
fn replies_that_turn_away() {
    let reply = method_not_allowed();
    assert_eq!((reply.status, reply.allow, reply.any_origin, reply.json), (405, Some("GET, HEAD, POST"), false, false));
    assert_eq!(reply.body, "This method is not allowed\n");
    let reply = update_not_allowed();
    assert_eq!((reply.status, reply.allow, reply.any_origin, reply.json), (405, Some("POST"), true, false));
    assert_eq!(reply.body, "Only POST method is allowed for this endpoint\n");
    let reply = not_found();
    assert_eq!((reply.status, reply.allow, reply.any_origin, reply.json), (404, None, false, false));
    assert_eq!(reply.body, "The page you requested could not be found\n");
}

#[test]
fn replies_with_json() {
    assert_eq!(json_reply("{}".to_string()), json(200, "{}"));
    assert_eq!(get_players("[1]"), json(200, "[1]"));
    assert_eq!(get_cup_history_endpoint(Ok("h".to_string())), Ok(json(200, "h")));
    assert_eq!(get_audit_log_endpoint(Ok("l".to_string())), Ok(json(200, "l")));
    assert_eq!(get_next_game_endpoint(Some(Ok("g".to_string()))), Ok(json(200, "g")));
    assert_eq!(
        get_next_game_endpoint(None),
        Ok(json(404, "{\"error\": \"No upcoming game found for cup holder in the next 30 days\"}"))
    );
}

#[test]
fn failures_to_serialize() {
    assert_eq!(
        get_cup_history_endpoint(Err("why".to_string())),
        Err("Failed to serialize cup history: why".to_string())
    );
    assert_eq!(
        get_audit_log_endpoint(Err("why".to_string())),
        Err("Failed to serialize audit log: why".to_string())
    );
    assert_eq!(
        get_next_game_endpoint(Some(Err("why".to_string()))),
        Err("Failed to serialize next game: why".to_string())
    );
}
