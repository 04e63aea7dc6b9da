//! The service's requests and replies.

use vstd::prelude::*;

verus! {

/// What a request asks for.
#[derive(Clone, Copy, Debug, PartialEq, Eq, Structural)]
pub enum Route {
    Players,
    CupHistory,
    AuditLog,
    NextGame,
    Update,
    /// An update that is not asked for by `POST`.
    UpdateNotAllowed,
    /// A method that the service does not take.
    MethodNotAllowed,
    NotFound,
}

/// Whether the service takes a method.
pub open spec fn method_is_taken(method: Seq<char>) -> bool {
    method == "GET"@ || method == "HEAD"@ || method == "POST"@
}

/// What a request asks for.
pub open spec fn route_of(method: Seq<char>, path: Seq<char>) -> Route {
    if !method_is_taken(method) {
        Route::MethodNotAllowed
    } else if path == "/players"@ {
        Route::Players
    } else if path == "/cup-history"@ {
        Route::CupHistory
    } else if path == "/audit-log"@ {
        Route::AuditLog
    } else if path == "/next-game"@ {
        Route::NextGame
    } else if path == "/update"@ {
        if method == "POST"@ {
            Route::Update
        } else {
            Route::UpdateNotAllowed
        }
    } else {
        Route::NotFound
    }
}

/// Decides what a request asks for.
pub fn route(method: &str, path: &str) -> (res: Route)
    ensures
        res == route_of(method@, path@),
{
    if !(*method == *"GET" || *method == *"HEAD" || *method == *"POST") {
        Route::MethodNotAllowed
    } else if *path == *"/players" {
        Route::Players
    } else if *path == *"/cup-history" {
        Route::CupHistory
    } else if *path == *"/audit-log" {
        Route::AuditLog
    } else if *path == *"/next-game" {
        Route::NextGame
    } else if *path == *"/update" {
        if *method == *"POST" {
            Route::Update
        } else {
            Route::UpdateNotAllowed
        }
    } else {
        Route::NotFound
    }
}

/// A reply of the service.
#[derive(Debug, PartialEq, Eq)]
pub struct Reply {
    pub status: u16,
    /// Whether the reply is set up as JSON.
    pub json: bool,
    /// The methods that the reply says are allowed.
    pub allow: Option<&'static str>,
    /// Whether pages of any origin may read the reply.
    pub any_origin: bool,
    pub body: String,
}

pub struct ReplyView {
    pub status: u16,
    pub json: bool,
    pub allow: Option<Seq<char>>,
    pub any_origin: bool,
    pub body: Seq<char>,
}

impl View for Reply {
    type V = ReplyView;

    open spec fn view(&self) -> ReplyView {
        ReplyView {
            status: self.status,
            json: self.json,
            allow: match self.allow {
                Some(methods) => Some(methods@),
                None => None,
            },
            any_origin: self.any_origin,
            body: self.body@,
        }
    }
}

/// A reply with a JSON body, for pages of any origin.
pub open spec fn json_reply_view(status: u16, body: Seq<char>) -> ReplyView {
    ReplyView { status, json: true, allow: None, any_origin: true, body }
}

/// The reply to a method that the service does not take.
pub fn method_not_allowed() -> (reply: Reply)
    ensures
        reply@ == (ReplyView {
            status: 405,
            json: false,
            allow: Some("GET, HEAD, POST"@),
            any_origin: false,
            body: "This method is not allowed\n"@,
        }),
{
    Reply {
        status: 405,
        json: false,
        allow: Some("GET, HEAD, POST"),
        any_origin: false,
        body: "This method is not allowed\n".to_owned(),
    }
}

/// The reply to an update that is not asked for by `POST`.
pub fn update_not_allowed() -> (reply: Reply)
    ensures
        reply@ == (ReplyView {
            status: 405,
            json: false,
            allow: Some("POST"@),
            any_origin: true,
            body: "Only POST method is allowed for this endpoint\n"@,
        }),
{
    Reply {
        status: 405,
        json: false,
        allow: Some("POST"),
        any_origin: true,
        body: "Only POST method is allowed for this endpoint\n".to_owned(),
    }
}

/// The reply to a request for something that the service does not have.
pub fn not_found() -> (reply: Reply)
    ensures
        reply@ == (ReplyView {
            status: 404,
            json: false,
            allow: None,
            any_origin: false,
            body: "The page you requested could not be found\n"@,
        }),
{
    Reply {
        status: 404,
        json: false,
        allow: None,
        any_origin: false,
        body: "The page you requested could not be found\n".to_owned(),
    }
}

/// The reply that carries a JSON text, such as what an update reports.
pub fn json_reply(body: String) -> (reply: Reply)
    ensures
        reply@ == json_reply_view(200, body@),
{
    Reply { status: 200, json: true, allow: None, any_origin: true, body }
}

/// The reply to a request for the roster of the players.
pub fn get_players(players_json: &str) -> (reply: Reply)
    ensures
        reply@ == json_reply_view(200, players_json@),
{
    json_reply(players_json.to_owned())
}

/// The reply to a request for the next game: the game, once it has been turned into JSON, or that
/// there is none.
pub fn get_next_game_endpoint(found: Option<Result<String, String>>) -> (res: Result<Reply, String>)
    ensures
        match found {
            Some(Ok(game_json)) => res matches Ok(reply) && reply@ == json_reply_view(200, game_json@),
            Some(Err(reason)) => res matches Err(message) && message@ == "Failed to serialize next game: "@
                + reason@,
            None => res matches Ok(reply) && reply@ == json_reply_view(
                404,
                "{\"error\": \"No upcoming game found for cup holder in the next 30 days\"}"@,
            ),
        },
{
    match found {
        Some(Ok(game_json)) => Ok(json_reply(game_json)),
        Some(Err(reason)) => Err("Failed to serialize next game: ".to_owned().concat(reason.as_str())),
        None => Ok(
            Reply {
                status: 404,
                json: true,
                allow: None,
                any_origin: true,
                body: "{\"error\": \"No upcoming game found for cup holder in the next 30 days\"}".to_owned(),
            },
        ),
    }
}

/// The reply to a request for the history of the cup, once it has been turned into JSON.
pub fn get_cup_history_endpoint(serialized: Result<String, String>) -> (res: Result<Reply, String>)
    ensures
        match serialized {
            Ok(history_json) => res matches Ok(reply) && reply@ == json_reply_view(200, history_json@),
            Err(reason) => res matches Err(message) && message@ == "Failed to serialize cup history: "@ + reason@,
        },
{
    match serialized {
        Ok(history_json) => Ok(json_reply(history_json)),
        Err(reason) => Err("Failed to serialize cup history: ".to_owned().concat(reason.as_str())),
    }
}

/// The reply to a request for the audit log, once it has been turned into JSON.
pub fn get_audit_log_endpoint(serialized: Result<String, String>) -> (res: Result<Reply, String>)
    ensures
        match serialized {
            Ok(log_json) => res matches Ok(reply) && reply@ == json_reply_view(200, log_json@),
            Err(reason) => res matches Err(message) && message@ == "Failed to serialize audit log: "@ + reason@,
        },
{
    match serialized {
        Ok(log_json) => Ok(json_reply(log_json)),
        Err(reason) => Err("Failed to serialize audit log: ".to_owned().concat(reason.as_str())),
    }
}

/// The cup is updated only for requests that are made by `POST`, and a method other than `GET`,
/// `HEAD` and `POST` is turned away whatever it is for.
pub proof fn only_post_updates(method: Seq<char>, path: Seq<char>)
    ensures
        route_of(method, path) == Route::Update <==> method == "POST"@ && path == "/update"@,
        route_of(method, path) == Route::MethodNotAllowed <==> !method_is_taken(method),
{
    reveal_strlit("/update");
    reveal_strlit("/players");
    reveal_strlit("/cup-history");
    reveal_strlit("/audit-log");
    reveal_strlit("/next-game");
    assert("/update"@.len() == 7);
    assert("/players"@.len() == 8);
    assert("/cup-history"@.len() == 12);
    assert("/audit-log"@.len() == 10);
    assert("/next-game"@.len() == 10);
}

/// The service takes the methods `GET`, `HEAD` and `POST`. With any of them, what is asked for goes
/// by the whole path alone, but that an update takes `POST`; a path that is none of the service's
/// is not found.
pub proof fn path_decides_what_is_asked_for(method: Seq<char>, path: Seq<char>)
    ensures
        method_is_taken(method) <==> method == "GET"@ || method == "HEAD"@ || method == "POST"@,
        route_of(method, path) == Route::MethodNotAllowed <==> !(method == "GET"@ || method == "HEAD"@ || method
            == "POST"@),
        (method == "GET"@ || method == "HEAD"@ || method == "POST"@) ==> {
            &&& route_of(method, path) == Route::Players <==> path == "/players"@
            &&& route_of(method, path) == Route::CupHistory <==> path == "/cup-history"@
            &&& route_of(method, path) == Route::AuditLog <==> path == "/audit-log"@
            &&& route_of(method, path) == Route::NextGame <==> path == "/next-game"@
            &&& route_of(method, path) == Route::Update <==> path == "/update"@ && method == "POST"@
            &&& route_of(method, path) == Route::UpdateNotAllowed <==> path == "/update"@ && method != "POST"@
            &&& route_of(method, path) == Route::NotFound <==> path != "/players"@ && path != "/cup-history"@
                && path != "/audit-log"@ && path != "/next-game"@ && path != "/update"@
        },
{
    reveal_strlit("/update");
    reveal_strlit("/players");
    reveal_strlit("/cup-history");
    reveal_strlit("/audit-log");
    reveal_strlit("/next-game");
    assert("/update"@.len() == 7);
    assert("/players"@.len() == 8);
    assert("/cup-history"@.len() == 12);
    assert("/audit-log"@.len() == 10);
    assert("/next-game"@.len() == 10);
    assert("/audit-log"@[1] != "/next-game"@[1]);
}

/// A JSON reply has the status and the whole body that it is given, is set up as JSON, names no
/// methods, and may be read by pages of any origin.
pub proof fn json_reply_carries_its_body(status: u16, body: Seq<char>)
    ensures
        json_reply_view(status, body).status == status,
        json_reply_view(status, body).body == body,
        json_reply_view(status, body).json,
        json_reply_view(status, body).any_origin,
        json_reply_view(status, body).allow is None,
{
}

/// A reply stands for what it holds.
pub proof fn reply_view_shows_the_reply(reply: Reply)
    ensures
        reply@.status == reply.status,
        reply@.json == reply.json,
        reply@.any_origin == reply.any_origin,
        reply@.body == reply.body@,
        reply.allow is None <==> reply@.allow is None,
        reply.allow matches Some(methods) ==> reply@.allow == Some(methods@),
{
}

} // verus!
