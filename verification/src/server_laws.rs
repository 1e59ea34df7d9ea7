//! What each request to the control panel does and how it is answered.
use crate::config::ConfigView;
use crate::edit::{can_add, checked_config, weakens, with_added, with_removed};
use crate::form::field;
use crate::html::{page_html, panel_html, setup_html};
use crate::http::{answer, redirection, RequestView};
use crate::server::{
    answer_text, code_right, decided, handled, is_set_up, qr_svg, secret_image, setup_shown,
    AnswerView, DecisionView, Effect, ReplyView, ServerView,
};
use crate::templates::{QUITTING_BODY, UPDATING_BODY};
use crate::totp::{code_accepted, provisioning_url, secret_key, step_code};
use crate::totp_laws::lemma_three_steps_count;
use crate::updater::VERSION;
use vstd::prelude::*;

verus! {

proof fn lemma_methods_differ()
    ensures
        "GET"@ != "POST"@,
{
    reveal_strlit("GET");
    reveal_strlit("POST");
    assert("GET"@.len() != "POST"@.len());
}

proof fn lemma_paths_differ()
    ensures
        "/save"@ != "/setup/verify"@,
        "/add"@ != "/setup/verify"@,
        "/remove"@ != "/setup/verify"@,
        "/quit"@ != "/setup/verify"@,
        "/update"@ != "/setup/verify"@,
        "/add"@ != "/save"@,
        "/remove"@ != "/save"@,
        "/quit"@ != "/save"@,
        "/update"@ != "/save"@,
        "/remove"@ != "/add"@,
        "/quit"@ != "/add"@,
        "/update"@ != "/add"@,
        "/quit"@ != "/remove"@,
        "/update"@ != "/remove"@,
        "/update"@ != "/quit"@,
{
    reveal_strlit("/setup/verify");
    reveal_strlit("/save");
    reveal_strlit("/add");
    reveal_strlit("/remove");
    reveal_strlit("/quit");
    reveal_strlit("/update");
    assert("/setup/verify"@.len() == 13);
    assert("/save"@[1] == 's');
    assert("/add"@[1] == 'a');
    assert("/remove"@[1] == 'r');
    assert("/quit"@[1] == 'q');
    assert("/update"@[1] == 'u');
}

// ---------------------------------------------------------------------------
// Codes
// ---------------------------------------------------------------------------

/// A form brings a right code exactly if there is a secret that counts and the
/// field `code` is accepted for it.
pub proof fn lemma_code_right_for_the_secret(
    cfg: ConfigView,
    body: Map<Seq<char>, Seq<char>>,
    now: Option<u64>,
    secret: Seq<char>,
)
    ensures
        cfg.totp_secret_b32 is None ==> !code_right(cfg, body, now),
        cfg.totp_secret_b32 == Some(secret) ==> code_right(cfg, body, now) == code_accepted(
            secret,
            field(body, "code"@),
            now,
        ),
{
}

/// Whoever types in the code that the authenticator shows, or the one it showed
/// half a minute ago, brings a right code.
pub proof fn lemma_shown_code_is_right(
    cfg: ConfigView,
    body: Map<Seq<char>, Seq<char>>,
    secret: Seq<char>,
    key: Seq<u8>,
    now: u64,
)
    requires
        cfg.totp_secret_b32 == Some(secret),
        secret_key(secret) == Some(key),
        ({
            let digits = field(body, "code"@).filter(|c: char| '0' <= c <= '9');
            digits == step_code(key, (now / 30) as u64) || (now >= 30 && digits == step_code(
                key,
                (now / 30 - 1) as u64,
            ))
        }),
    ensures
        code_right(cfg, body, Some(now)),
{
    lemma_three_steps_count(secret, key, field(body, "code"@), now);
}

// ---------------------------------------------------------------------------
// Actions
// ---------------------------------------------------------------------------

/// A save sets the switches and is written down, unless it weakens the protection
/// and brings no right code: then nothing changes.
pub proof fn lemma_save_request(state: ServerView, request: RequestView, now: Option<u64>)
    requires
        request.method == "POST"@,
        request.path == "/save"@,
    ensures
        ({
            let after = checked_config(state.cfg, request.body);
            let refused = weakens(state.cfg, after) && !code_right(state.cfg, request.body, now);
            decided(state, request, now) == if refused {
                (
                    state,
                    DecisionView::Answered {
                        reply: ReplyView {
                            answer: AnswerView::Redirect { location: "/?msg=bad_code"@ },
                            effect: Effect::Nothing,
                        },
                    },
                )
            } else {
                (
                    ServerView { cfg: after, ..state },
                    DecisionView::Answered {
                        reply: ReplyView {
                            answer: AnswerView::Redirect { location: "/?msg=ok"@ },
                            effect: Effect::Save,
                        },
                    },
                )
            }
        }),
{
    lemma_methods_differ();
    lemma_paths_differ();
}

/// A game is added without a code, and written down. A form that gives none is
/// refused.
pub proof fn lemma_add_request(state: ServerView, request: RequestView, now: Option<u64>)
    requires
        request.method == "POST"@,
        request.path == "/add"@,
    ensures
        decided(state, request, now) == if can_add(state.cfg, request.body) {
            (
                ServerView { cfg: with_added(state.cfg, request.body), ..state },
                DecisionView::Answered {
                    reply: ReplyView {
                        answer: AnswerView::Redirect { location: "/?msg=added"@ },
                        effect: Effect::Save,
                    },
                },
            )
        } else {
            (
                state,
                DecisionView::Answered {
                    reply: ReplyView {
                        answer: AnswerView::Redirect { location: "/?msg=bad_input"@ },
                        effect: Effect::Nothing,
                    },
                },
            )
        },
{
    lemma_methods_differ();
    lemma_paths_differ();
}

/// With a right code the games with the identifier that is given go, and this is
/// written down. Without an identifier nothing goes; without the code nothing
/// happens.
pub proof fn lemma_remove_request(state: ServerView, request: RequestView, now: Option<u64>)
    requires
        request.method == "POST"@,
        request.path == "/remove"@,
    ensures
        ({
            let id = field(request.body, "remove_id"@);
            decided(state, request, now) == if !code_right(state.cfg, request.body, now) {
                (
                    state,
                    DecisionView::Answered {
                        reply: ReplyView {
                            answer: AnswerView::Redirect { location: "/?msg=bad_code"@ },
                            effect: Effect::Nothing,
                        },
                    },
                )
            } else if id.len() > 0 {
                (
                    ServerView { cfg: with_removed(state.cfg, id), ..state },
                    DecisionView::Answered {
                        reply: ReplyView {
                            answer: AnswerView::Redirect { location: "/?msg=removed"@ },
                            effect: Effect::Save,
                        },
                    },
                )
            } else {
                (
                    state,
                    DecisionView::Answered {
                        reply: ReplyView {
                            answer: AnswerView::Redirect { location: "/?msg=ok"@ },
                            effect: Effect::Nothing,
                        },
                    },
                )
            }
        }),
{
    lemma_methods_differ();
    lemma_paths_differ();
}

/// With a right code the program quits, and says so; without one it goes on.
pub proof fn lemma_quit_request(state: ServerView, request: RequestView, now: Option<u64>)
    requires
        request.method == "POST"@,
        request.path == "/quit"@,
    ensures
        decided(state, request, now) == if code_right(state.cfg, request.body, now) {
            (
                ServerView { stop: true, ..state },
                DecisionView::Answered {
                    reply: ReplyView {
                        answer: AnswerView::Respond {
                            status: 200,
                            content_type: "text/html"@,
                            body: page_html("Quitting"@, QUITTING_BODY@),
                        },
                        effect: Effect::Quit,
                    },
                },
            )
        } else {
            (
                state,
                DecisionView::Answered {
                    reply: ReplyView {
                        answer: AnswerView::Redirect { location: "/?msg=bad_code"@ },
                        effect: Effect::Nothing,
                    },
                },
            )
        },
{
    lemma_methods_differ();
    lemma_paths_differ();
}

/// With a right code and a later version at hand, that version is installed; the
/// state stays as it is in any case.
pub proof fn lemma_update_request(state: ServerView, request: RequestView, now: Option<u64>)
    requires
        request.method == "POST"@,
        request.path == "/update"@,
    ensures
        decided(state, request, now).0 == state,
        decided(state, request, now).1 == (DecisionView::Answered {
            reply: if !code_right(state.cfg, request.body, now) {
                ReplyView {
                    answer: AnswerView::Redirect { location: "/?msg=bad_code"@ },
                    effect: Effect::Nothing,
                }
            } else if state.update_status.latest_version is Some {
                ReplyView {
                    answer: AnswerView::Respond {
                        status: 200,
                        content_type: "text/html"@,
                        body: page_html("Updating"@, UPDATING_BODY@),
                    },
                    effect: Effect::Install,
                }
            } else {
                ReplyView {
                    answer: AnswerView::Redirect { location: "/?msg=no_update"@ },
                    effect: Effect::Nothing,
                }
            },
        }),
{
    lemma_methods_differ();
    lemma_paths_differ();
}

// ---------------------------------------------------------------------------
// Set-up
// ---------------------------------------------------------------------------

/// The first code: accepted for the pending secret, it makes that secret the one
/// that counts and completes the set-up, and nothing else changes. Any other is
/// refused, and the page comes again with the reason.
pub proof fn lemma_setup_request(state: ServerView, request: RequestView, now: Option<u64>)
    requires
        request.method == "POST"@,
        request.path == "/setup/verify"@,
    ensures
        decided(state, request, now) == match state.pending_secret {
            None => (
                state,
                DecisionView::Setup { error: Some("Session expired, try again."@) },
            ),
            Some(secret) => if code_accepted(secret, field(request.body, "code"@), now) {
                (
                    ServerView {
                        cfg: ConfigView {
                            enabled: state.cfg.enabled,
                            casinos: state.cfg.casinos,
                            games: state.cfg.games,
                            totp_secret_b32: Some(secret),
                            setup_complete: true,
                        },
                        stop: state.stop,
                        pending_secret: None,
                        update_status: state.update_status,
                    },
                    DecisionView::Answered {
                        reply: ReplyView {
                            answer: AnswerView::Redirect { location: "/?msg=setup_ok"@ },
                            effect: Effect::Save,
                        },
                    },
                )
            } else {
                (state, DecisionView::Setup { error: Some("Code didn't match. Try again."@) })
            },
        },
{
    lemma_methods_differ();
}

/// The set-up is done once it is marked so and there is a secret.
pub proof fn lemma_set_up_means(cfg: ConfigView)
    ensures
        is_set_up(cfg) <==> cfg.setup_complete && cfg.totp_secret_b32 is Some,
{
}

/// The set-up page shows the pending secret, which stays, or a fresh one, which is
/// pending from then on: as a drawing of the address for an authenticator app, and
/// written out. Without a secret or its drawing there is no page.
pub proof fn lemma_setup_page_shows_pending(
    state: ServerView,
    fresh: Option<Seq<char>>,
    error: Option<Seq<char>>,
    secret: Seq<char>,
)
    ensures
        ({
            let (after, reply) = setup_shown(state, fresh, error);
            let drawing = qr_svg(
                provisioning_url(secret, "BetWall"@, "BetWall"@),
                180,
                180,
                "#0f1013"@,
                "#ffffff"@,
            );
            let used = state.pending_secret == Some(secret) || (state.pending_secret is None
                && fresh == Some(secret));
            &&& after.cfg == state.cfg
            &&& after.stop == state.stop
            &&& after.update_status == state.update_status
            &&& used ==> after.pending_secret == Some(secret)
            &&& used && drawing is Some ==> reply == Some(
                (ReplyView {
                    answer: AnswerView::Respond {
                        status: 200,
                        content_type: "text/html"@,
                        body: setup_html(drawing->0, secret, error),
                    },
                    effect: Effect::Nothing,
                }),
            )
            &&& used && drawing is None ==> reply is None
            &&& state.pending_secret is None && fresh is None ==> reply is None
                && after.pending_secret is None
            &&& secret_image(secret) == drawing
        }),
{
}

// ---------------------------------------------------------------------------
// Connections
// ---------------------------------------------------------------------------

/// The front page: the set-up page before the set-up, and then the panel, with the
/// configuration, the version on offer, this version and the outcome of the last
/// request. Asking for it changes nothing.
pub proof fn lemma_front_page_request(state: ServerView, request: RequestView, now: Option<u64>)
    requires
        request.method == "GET"@,
        request.path == "/"@,
    ensures
        decided(state, request, now).0 == state,
        !(state.cfg.setup_complete && state.cfg.totp_secret_b32 is Some) ==> decided(
            state,
            request,
            now,
        ).1 == (DecisionView::Setup { error: None }),
        state.cfg.setup_complete && state.cfg.totp_secret_b32 is Some ==> decided(
            state,
            request,
            now,
        ).1 == (DecisionView::Answered {
            reply: ReplyView {
                answer: AnswerView::Respond {
                    status: 200,
                    content_type: "text/html"@,
                    body: panel_html(
                        state.cfg,
                        state.update_status.latest_version,
                        VERSION@,
                        if request.query.contains_key("msg"@) {
                            Some(request.query["msg"@])
                        } else {
                            None
                        },
                    ),
                },
                effect: Effect::Nothing,
            },
        }),
{
}

/// What was no request is answered with 400 and changes nothing. A request is
/// answered as decided, or with the set-up page where that is due. What is not
/// there is answered with 404.
pub proof fn lemma_every_connection_is_answered(
    state: ServerView,
    request: RequestView,
    now: Option<u64>,
    fresh: Option<Seq<char>>,
)
    ensures
        handled(state, None, now, fresh) == (
            state,
            Some(
                ReplyView {
                    answer: AnswerView::Respond {
                        status: 400,
                        content_type: "text/plain"@,
                        body: "bad request"@,
                    },
                    effect: Effect::Nothing,
                },
            ),
        ),
        decided(state, request, now).1 matches DecisionView::Answered { reply } ==> handled(
            state,
            Some(request),
            now,
            fresh,
        ) == (decided(state, request, now).0, Some(reply)),
        decided(state, request, now).1 matches DecisionView::Setup { error } ==> handled(
            state,
            Some(request),
            now,
            fresh,
        ) == setup_shown(decided(state, request, now).0, fresh, error),
        request.method != "GET"@ && request.method != "POST"@ ==> decided(state, request, now) == (
            state,
            (DecisionView::Answered {
                reply: ReplyView {
                    answer: AnswerView::Respond {
                        status: 404,
                        content_type: "text/plain"@,
                        body: "not found"@,
                    },
                    effect: Effect::Nothing,
                },
            }),
        ),
{
}

/// An answer goes out as a head and a body, or as a redirection.
pub proof fn lemma_answers_written_out(
    status: u16,
    content_type: Seq<char>,
    body: Seq<char>,
    location: Seq<char>,
)
    ensures
        answer_text(AnswerView::Respond { status, content_type, body }) == answer(
            status,
            content_type,
            body,
        ),
        answer_text(AnswerView::Redirect { location }) == redirection(location),
{
}

} // verus!
